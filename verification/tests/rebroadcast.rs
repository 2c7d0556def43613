use kobject_uevent::{ActionType, UEvent};
use mdev::event::{Action, Env, Event};
use mdev::rebroadcast::{serialize, Directive};
use mdev::{RebroadcastMessage, Rebroadcaster};

fn create_event() -> Event {
    let mut env = Env::new();
    for (key, value) in [
        ("ACTION", "add"),
        ("DEVPATH", "/dev/path"),
        ("SUBSYSTEM", "subsystem"),
        ("SEQNUM", "1234"),
    ] {
        env.insert(key.to_string(), value.to_string());
    }
    Event {
        action: Action::Add,
        device_path: String::from("/dev/path"),
        subsystem: String::from("subsystem"),
        env,
        sequence: 1234,
    }
}

const FRAME: &[u8] = b"ACTION=add\0DEVPATH=/dev/path\0SUBSYSTEM=subsystem\0SEQNUM=1234";

#[test]
fn rebroadcaster() {
    let mut rebroadcaster = Rebroadcaster::new(2);
    assert_eq!(rebroadcaster.capacity(), 2);
    assert_eq!(rebroadcaster.resume(), Directive::Receive);

    let mut frames: Vec<Vec<u8>> = Vec::new();
    let first = rebroadcaster.accept(Some(RebroadcastMessage::Event(create_event())));
    assert_eq!(first, Directive::Send);
    let received_data = rebroadcaster.pending().to_vec();
    frames.push(received_data.clone());
    assert_eq!(rebroadcaster.sent(received_data.len()), Directive::Receive);
    assert_eq!(rebroadcaster.pending(), b"");
    assert_eq!(rebroadcaster.accept(Some(RebroadcastMessage::Stop)), Directive::Finish);
    assert_eq!(frames.len(), 1);

    let decoded = UEvent::from_netlink_packet(&received_data).unwrap();
    let event = create_event();
    assert_eq!(decoded.action, ActionType::Add);
    assert_eq!(decoded.devpath.to_str(), Some(event.device_path.as_str()));
    assert_eq!(decoded.subsystem, event.subsystem);
    assert_eq!(decoded.seq, event.sequence);
    assert_eq!(decoded.env.len(), event.env.len());
    for (key, value) in &decoded.env {
        assert_eq!(event.env.get(key), Some(value));
    }
}

#[test]
fn frame_is_nul_separated_without_trailing_separator() {
    assert_eq!(serialize(&create_event().env), FRAME);
    assert_eq!(serialize(&Env::new()), b"");
    let mut one = Env::new();
    one.insert(String::from("K"), String::from("V"));
    assert_eq!(serialize(&one), b"K=V");
    one.insert(String::from("E"), String::new());
    assert_eq!(serialize(&one), b"K=V\0E=");
}

#[test]
fn frame_is_utf8() {
    let mut env = Env::new();
    env.insert(String::from("NAME"), String::from("größe €"));
    assert_eq!(serialize(&env), "NAME=größe €".as_bytes());
}

#[test]
fn partial_sends_go_on_from_the_unsent_offset() {
    let mut rebroadcaster = Rebroadcaster::new(16);
    let mut sent: Vec<u8> = Vec::new();
    let mut next = rebroadcaster.accept(Some(RebroadcastMessage::Event(create_event())));
    let mut sends = 0;
    for count in [0usize, 7, 1, 0, 20] {
        assert_eq!(next, Directive::Send);
        assert_eq!(rebroadcaster.resume(), Directive::Send);
        assert_eq!(rebroadcaster.pending(), &FRAME[sent.len()..]);
        sent.extend_from_slice(&rebroadcaster.pending()[..count]);
        next = rebroadcaster.sent(count);
        sends += 1;
    }
    assert_eq!(next, Directive::Send);
    let rest = rebroadcaster.pending().len();
    sent.extend_from_slice(rebroadcaster.pending());
    assert_eq!(rebroadcaster.sent(rest), Directive::Receive);
    assert_eq!(sends, 5);
    assert_eq!(sent, FRAME);
    assert_eq!(rebroadcaster.pending(), b"");
    assert_eq!(rebroadcaster.resume(), Directive::Receive);
    assert_eq!(rebroadcaster.capacity(), 16);
}

#[test]
fn events_are_sent_in_the_order_taken() {
    let mut rebroadcaster = Rebroadcaster::new(1);
    let mut second = create_event();
    second.env.insert(String::from("SEQNUM"), String::from("1235"));
    let mut frames: Vec<Vec<u8>> = Vec::new();
    for event in [create_event(), second] {
        assert_eq!(rebroadcaster.accept(Some(RebroadcastMessage::Event(event))), Directive::Send);
        frames.push(rebroadcaster.pending().to_vec());
        let all = rebroadcaster.pending().len();
        assert_eq!(rebroadcaster.sent(all), Directive::Receive);
    }
    assert_eq!(frames[0], FRAME);
    assert_eq!(
        frames[1],
        b"ACTION=add\0DEVPATH=/dev/path\0SUBSYSTEM=subsystem\0SEQNUM=1235"
    );
}

#[test]
fn closed_queue_ends_the_task() {
    let mut rebroadcaster = Rebroadcaster::new(2);
    assert_eq!(rebroadcaster.accept(None), Directive::Finish);
    assert_eq!(rebroadcaster.pending(), b"");
}

#[test]
fn event_without_variables_sends_nothing() {
    let mut rebroadcaster = Rebroadcaster::new(2);
    let mut event = create_event();
    event.env = Env::new();
    assert_eq!(
        rebroadcaster.accept(Some(RebroadcastMessage::Event(event))),
        Directive::Receive
    );
    assert_eq!(rebroadcaster.pending(), b"");
    assert_eq!(rebroadcaster.accept(Some(RebroadcastMessage::Stop)), Directive::Finish);
}
