use vstd::prelude::*;
use crate::types::LogMessage;
use crate::wire::{encode_frame, frame_of};

verus! {

/// Milliseconds to wait after a lost or failed connection before connecting again.
pub const RETRY_DELAY_MS: u64 = 1000;

/// The operation whose result the sink is waiting for.
#[derive(Debug, Clone, Copy, PartialEq, Eq, Structural)]
pub enum SinkState {
    /// Disconnected: the retry delay is running.
    Waiting,
    /// A connection to the collector is being opened.
    Connecting,
    /// Connected: waiting for the next queued message or for a frame from the collector.
    Receiving,
    /// Connected: a frame is being sent.
    Sending,
}

/// The result of the operation that the sink asked for.
#[derive(Debug, Clone)]
pub enum SinkEvent {
    DelayElapsed,
    ConnectOk,
    ConnectFailed,
    /// The next message taken from the channel.
    Message(LogMessage),
    /// Every producer is gone.
    ChannelClosed,
    /// The collector sent a frame; it is not acted on.
    InboundFrame,
    /// The collector closed the connection, or reading from it ended.
    RemoteClosed,
    SendOk,
    SendFailed,
}

/// What the sink asks its driver to do next.
#[derive(Debug, Clone, PartialEq, Eq)]
pub enum SinkAction {
    /// Drop any connection and wait this many milliseconds.
    Sleep(u64),
    /// Open a connection to the collector.
    Connect,
    /// Wait for the next queued message or a frame from the collector, whichever comes first.
    Receive,
    /// Send this text as one frame.
    Send(String),
}

pub enum ActionModel {
    Sleep(nat),
    Connect,
    Receive,
    Send(Seq<char>),
}

pub open spec fn action_model(a: SinkAction) -> ActionModel {
    match a {
        SinkAction::Sleep(ms) => ActionModel::Sleep(ms as nat),
        SinkAction::Connect => ActionModel::Connect,
        SinkAction::Receive => ActionModel::Receive,
        SinkAction::Send(t) => ActionModel::Send(t@),
    }
}

/// Whether `e` is a result of the operation that state `s` waits for.
pub open spec fn fits(s: SinkState, e: SinkEvent) -> bool {
    match s {
        SinkState::Waiting => e is DelayElapsed,
        SinkState::Connecting => e is ConnectOk || e is ConnectFailed,
        SinkState::Receiving => e is Message || e is ChannelClosed || e is InboundFrame
            || e is RemoteClosed,
        SinkState::Sending => e is SendOk || e is SendFailed,
    }
}

/// The state the sink moves to on `e`, and the action it asks for. Any failure, a remote
/// close and a closed channel all tear the connection down and wait before reconnecting.
pub open spec fn sink_spec(s: SinkState, e: SinkEvent) -> (SinkState, ActionModel) {
    match e {
        SinkEvent::DelayElapsed => (SinkState::Connecting, ActionModel::Connect),
        SinkEvent::ConnectOk => (SinkState::Receiving, ActionModel::Receive),
        SinkEvent::Message(m) => (SinkState::Sending, ActionModel::Send(frame_of(m))),
        SinkEvent::InboundFrame => (SinkState::Receiving, ActionModel::Receive),
        SinkEvent::SendOk => (SinkState::Receiving, ActionModel::Receive),
        _ => (SinkState::Waiting, ActionModel::Sleep(RETRY_DELAY_MS as nat)),
    }
}

/// The sink's first state and action: it connects at once.
pub fn sink_start() -> (r: (SinkState, SinkAction))
    ensures
        r.0 == SinkState::Connecting,
        action_model(r.1) == ActionModel::Connect,
{
    (SinkState::Connecting, SinkAction::Connect)
}

/// Whether `e` is a result of the operation that state `s` waits for.
pub fn accepts(s: SinkState, e: &SinkEvent) -> (r: bool)
    ensures
        r == fits(s, *e),
{
    match s {
        SinkState::Waiting => matches!(e, SinkEvent::DelayElapsed),
        SinkState::Connecting => matches!(e, SinkEvent::ConnectOk | SinkEvent::ConnectFailed),
        SinkState::Receiving => matches!(
            e,
            SinkEvent::Message(_) | SinkEvent::ChannelClosed | SinkEvent::InboundFrame
                | SinkEvent::RemoteClosed
        ),
        SinkState::Sending => matches!(e, SinkEvent::SendOk | SinkEvent::SendFailed),
    }
}

/// Moves the sink on the result of the operation it waited for.
pub fn sink_step(s: SinkState, e: SinkEvent) -> (r: (SinkState, SinkAction))
    requires
        fits(s, e),
    ensures
        (r.0, action_model(r.1)) == sink_spec(s, e),
{
    match e {
        SinkEvent::DelayElapsed => (SinkState::Connecting, SinkAction::Connect),
        SinkEvent::ConnectOk => (SinkState::Receiving, SinkAction::Receive),
        SinkEvent::Message(m) => (SinkState::Sending, SinkAction::Send(encode_frame(&m))),
        SinkEvent::InboundFrame => (SinkState::Receiving, SinkAction::Receive),
        SinkEvent::SendOk => (SinkState::Receiving, SinkAction::Receive),
        _ => (SinkState::Waiting, SinkAction::Sleep(RETRY_DELAY_MS)),
    }
}

/// The actions the sink asks for over `events`, from state `s`.
pub open spec fn sink_actions(s: SinkState, events: Seq<SinkEvent>) -> Seq<ActionModel>
    decreases events.len(),
{
    if events.len() == 0 {
        Seq::empty()
    } else {
        let (next, a) = sink_spec(s, events[0]);
        seq![a] + sink_actions(next, events.drop_first())
    }
}

/// The frames among a run of actions, in order.
pub open spec fn sent_frames(actions: Seq<ActionModel>) -> Seq<Seq<char>>
    decreases actions.len(),
{
    if actions.len() == 0 {
        Seq::empty()
    } else {
        match actions[0] {
            ActionModel::Send(t) => seq![t] + sent_frames(actions.drop_first()),
            _ => sent_frames(actions.drop_first()),
        }
    }
}

/// The frames of the messages taken from the channel, in the order taken.
pub open spec fn taken_frames(events: Seq<SinkEvent>) -> Seq<Seq<char>>
    decreases events.len(),
{
    if events.len() == 0 {
        Seq::empty()
    } else {
        match events[0] {
            SinkEvent::Message(m) => seq![frame_of(m)] + taken_frames(events.drop_first()),
            _ => taken_frames(events.drop_first()),
        }
    }
}

/// Across any run, reconnects included, the sink sends exactly one frame for each message it
/// takes from the channel, in the order taken: nothing is sent twice, reordered or made up.
pub proof fn lemma_frames_follow_channel_order(s: SinkState, events: Seq<SinkEvent>)
    ensures
        sent_frames(sink_actions(s, events)) == taken_frames(events),
    decreases events.len(),
{
    if events.len() > 0 {
        let (next, a) = sink_spec(s, events[0]);
        let rest = events.drop_first();
        lemma_frames_follow_channel_order(next, rest);
        let acts = sink_actions(s, events);
        assert(acts[0] == a);
        assert(acts.drop_first() =~= sink_actions(next, rest));
    }
}

/// The sink takes messages from the channel only while connected: a message can only be the
/// result of waiting in the connected `Receiving` state.
pub proof fn lemma_messages_taken_only_when_connected(s: SinkState, m: LogMessage)
    requires
        fits(s, SinkEvent::Message(m)),
    ensures
        s == SinkState::Receiving,
{
}

/// A dropped connection (remote close or failed send) makes the sink wait the retry delay and
/// then connect again; once connected it goes back to taking messages from the channel.
pub proof fn lemma_drop_then_reconnect(s: SinkState, drop: SinkEvent)
    requires
        drop is RemoteClosed || drop is SendFailed,
        fits(s, drop),
    ensures
        sink_spec(s, drop) == (SinkState::Waiting, ActionModel::Sleep(RETRY_DELAY_MS as nat)),
        sink_spec(SinkState::Waiting, SinkEvent::DelayElapsed) == (
            SinkState::Connecting,
            ActionModel::Connect,
        ),
        sink_spec(SinkState::Connecting, SinkEvent::ConnectOk) == (
            SinkState::Receiving,
            ActionModel::Receive,
        ),
{
}

} // verus!
