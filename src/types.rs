use vstd::prelude::*;

verus! {

/// How many messages the channel between the readers and the sink holds before a reader's
/// enqueue waits for the sink to take one.
pub const CHANNEL_CAPACITY: usize = 1024;

/// Where a log message came from.
#[derive(Debug, Clone, Copy, PartialEq, Eq, Structural)]
pub enum LogMessageKind {
    Stdout,
    Stderr,
    /// Reserved for out-of-band protocol messages; never produced by the readers.
    Meta,
}

/// One decoded chunk of a container's output, tagged with its backend.
#[derive(Debug, Clone)]
pub struct LogMessage {
    pub backend_id: String,
    pub kind: LogMessageKind,
    pub text: String,
}

impl LogMessage {
    pub fn new(backend_id: String, kind: LogMessageKind, text: String) -> (r: LogMessage)
        ensures
            r.backend_id@ == backend_id@,
            r.kind == kind,
            r.text@ == text@,
    {
        LogMessage { backend_id, kind, text }
    }
}

impl PartialEq for LogMessage {
    fn eq(&self, o: &LogMessage) -> (r: bool) {
        self.backend_id == o.backend_id && self.kind == o.kind && self.text == o.text
    }
}

impl vstd::std_specs::cmp::PartialEqSpecImpl for LogMessage {
    open spec fn obeys_eq_spec() -> bool {
        true
    }

    open spec fn eq_spec(&self, o: &LogMessage) -> bool {
        self.backend_id@ == o.backend_id@ && self.kind == o.kind && self.text@ == o.text@
    }
}

} // verus!
