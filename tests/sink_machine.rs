use log_shipper::sink::{accepts, sink_start, sink_step, SinkAction, SinkEvent, SinkState, RETRY_DELAY_MS};
use log_shipper::types::{LogMessage, LogMessageKind, CHANNEL_CAPACITY};
use tokio::sync::mpsc::error::TrySendError;

fn msg(text: &str) -> LogMessage {
    LogMessage::new("foo".to_string(), LogMessageKind::Stdout, text.to_string())
}

fn frame(text: &str) -> String {
    format!("{{\"backend_id\":\"foo\",\"kind\":\"Stdout\",\"text\":\"{}\"}}", text)
}

#[test]
fn sink_connects_first() {
    assert_eq!(sink_start(), (SinkState::Connecting, SinkAction::Connect));
}

#[test]
fn failed_connect_waits_one_second() {
    assert_eq!(RETRY_DELAY_MS, 1000);
    assert_eq!(
        sink_step(SinkState::Connecting, SinkEvent::ConnectFailed),
        (SinkState::Waiting, SinkAction::Sleep(1000))
    );
    assert_eq!(sink_step(SinkState::Waiting, SinkEvent::DelayElapsed), (SinkState::Connecting, SinkAction::Connect));
}

#[test]
fn message_becomes_one_frame() {
    assert_eq!(sink_step(SinkState::Connecting, SinkEvent::ConnectOk), (SinkState::Receiving, SinkAction::Receive));
    assert_eq!(
        sink_step(SinkState::Receiving, SinkEvent::Message(msg("hello\n"))),
        (SinkState::Sending, SinkAction::Send(frame("hello\\n")))
    );
    assert_eq!(sink_step(SinkState::Sending, SinkEvent::SendOk), (SinkState::Receiving, SinkAction::Receive));
    assert_eq!(sink_step(SinkState::Receiving, SinkEvent::InboundFrame), (SinkState::Receiving, SinkAction::Receive));
}

#[test]
fn every_drop_tears_down_and_waits() {
    let wait = (SinkState::Waiting, SinkAction::Sleep(RETRY_DELAY_MS));
    assert_eq!(sink_step(SinkState::Receiving, SinkEvent::RemoteClosed), wait);
    assert_eq!(sink_step(SinkState::Receiving, SinkEvent::ChannelClosed), wait);
    assert_eq!(sink_step(SinkState::Sending, SinkEvent::SendFailed), wait);
}

#[test]
fn events_must_fit_the_state() {
    assert!(accepts(SinkState::Receiving, &SinkEvent::Message(msg("x"))));
    assert!(!accepts(SinkState::Waiting, &SinkEvent::Message(msg("x"))));
    assert!(!accepts(SinkState::Connecting, &SinkEvent::Message(msg("x"))));
    assert!(!accepts(SinkState::Sending, &SinkEvent::Message(msg("x"))));
    assert!(accepts(SinkState::Waiting, &SinkEvent::DelayElapsed));
    assert!(accepts(SinkState::Sending, &SinkEvent::SendFailed));
    assert!(!accepts(SinkState::Receiving, &SinkEvent::SendOk));
}

#[test]
fn reconnect_keeps_channel_order_without_duplicates() {
    let (tx, mut rx) = tokio::sync::mpsc::channel::<LogMessage>(CHANNEL_CAPACITY);
    for t in ["a", "b", "c", "d"] {
        tx.try_send(msg(t)).unwrap();
    }
    let (mut state, _) = sink_start();
    let mut sent = Vec::new();
    let mut drop_after = Some(1usize);
    let mut pending: Vec<SinkEvent> = vec![SinkEvent::ConnectOk];
    let mut steps = 0;
    let mut reconnects = 0;
    while let Some(ev) = pending.pop() {
        steps += 1;
        assert!(steps < 100);
        assert!(accepts(state, &ev));
        let (next, action) = sink_step(state, ev);
        state = next;
        match action {
            SinkAction::Sleep(_) => pending.push(SinkEvent::DelayElapsed),
            SinkAction::Connect => {
                reconnects += 1;
                pending.push(SinkEvent::ConnectOk);
            }
            SinkAction::Receive => {
                if drop_after == Some(sent.len()) {
                    drop_after = None;
                    pending.push(SinkEvent::RemoteClosed);
                } else if let Ok(m) = rx.try_recv() {
                    pending.push(SinkEvent::Message(m));
                }
            }
            SinkAction::Send(f) => {
                sent.push(f);
                pending.push(SinkEvent::SendOk);
            }
        }
    }
    assert_eq!(reconnects, 1);
    assert_eq!(sent, vec![frame("a"), frame("b"), frame("c"), frame("d")]);
}

#[test]
fn full_channel_refuses_the_next_message() {
    assert_eq!(CHANNEL_CAPACITY, 1024);
    let (tx, mut rx) = tokio::sync::mpsc::channel::<LogMessage>(CHANNEL_CAPACITY);
    for i in 0..1024 {
        tx.try_send(msg(&i.to_string())).unwrap();
    }
    assert!(matches!(tx.try_send(msg("extra")), Err(TrySendError::Full(_))));
    assert_eq!(rx.try_recv().unwrap().text, "0");
    assert!(tx.try_send(msg("extra")).is_ok());
}
