use event_router::{step, stop, Action, LoopState, Message, Received};

fn message(event: &str, data: &[u8]) -> Message {
    Message { event: event.to_string(), data: data.to_vec() }
}

fn drain(mut state: LoopState, queue: Vec<Received>) -> (LoopState, Vec<Message>) {
    let mut delivered = Vec::new();
    for received in queue {
        let (next, action) = step(state, received);
        state = next;
        match action {
            Action::Deliver(m) => delivered.push(m),
            Action::Exit => break,
        }
    }
    (state, delivered)
}

#[test]
fn messages_are_delivered_in_the_order_received() {
    let m1 = message("/a", &[1]);
    let m2 = message("/b", &[2, 2]);
    let m3 = message("/a", &[3]);
    let queue = vec![
        Received::Message(m1.clone()),
        Received::Message(m2.clone()),
        Received::Message(m3.clone()),
    ];
    let (state, delivered) = drain(LoopState::Running, queue);
    assert_eq!(state, LoopState::Running);
    assert_eq!(delivered, vec![m1, m2, m3]);
}

#[test]
fn running_loop_delivers_the_message_unchanged() {
    let m = message("/foo/bar", &[0, 255, 7]);
    assert_eq!(
        step(LoopState::Running, Received::Message(m.clone())),
        (LoopState::Running, Action::Deliver(m))
    );
}

#[test]
fn closed_queue_ends_the_loop() {
    assert_eq!(step(LoopState::Running, Received::Closed), (LoopState::Stopped, Action::Exit));
    let m1 = message("/a", &[1]);
    let m2 = message("/b", &[2]);
    let queue =
        vec![Received::Message(m1.clone()), Received::Closed, Received::Message(m2.clone())];
    let (state, delivered) = drain(LoopState::Running, queue);
    assert_eq!(state, LoopState::Stopped);
    assert_eq!(delivered, vec![m1]);
}

#[test]
fn stopped_loop_delivers_nothing_more() {
    let mut state = LoopState::Running;
    stop(&mut state);
    assert_eq!(state, LoopState::Stopped);
    let m = message("/left/over", &[9]);
    assert_eq!(step(state, Received::Message(m.clone())), (LoopState::Stopped, Action::Exit));
    assert_eq!(step(state, Received::Closed), (LoopState::Stopped, Action::Exit));
    let (after, delivered) =
        drain(state, vec![Received::Message(m.clone()), Received::Message(m)]);
    assert_eq!(after, LoopState::Stopped);
    assert!(delivered.is_empty());
}

#[test]
fn stop_is_idempotent() {
    let mut state = LoopState::Stopped;
    stop(&mut state);
    assert_eq!(state, LoopState::Stopped);
}
