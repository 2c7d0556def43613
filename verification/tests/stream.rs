use mdev::event::{Action, Env, Event};
use mdev::stream::{decode_datagram, Error, Polled, UEventsStream};

const BODY: &[u8] = b"ACTION=add\0\
                      DEVPATH=/devices/platform/serial8250/tty/ttyS6\0\
                      SUBSYSTEM=tty\0\
                      SYNTH_UUID=0\0\
                      MAJOR=4\0\
                      MINOR=70\0\
                      DEVNAME=ttyS6\0\
                      SEQNUM=3469";

fn framed(declared: u32, body: &[u8]) -> Vec<u8> {
    let mut datagram = declared.to_le_bytes().to_vec();
    datagram.extend_from_slice(body);
    datagram
}

fn expected() -> Event {
    let mut env = Env::new();
    for (key, value) in [
        ("ACTION", "add"),
        ("DEVPATH", "/devices/platform/serial8250/tty/ttyS6"),
        ("SUBSYSTEM", "tty"),
        ("SYNTH_UUID", "0"),
        ("MAJOR", "4"),
        ("MINOR", "70"),
        ("DEVNAME", "ttyS6"),
        ("SEQNUM", "3469"),
    ] {
        env.insert(key.to_string(), value.to_string());
    }
    Event {
        action: Action::Add,
        device_path: String::from("/devices/platform/serial8250/tty/ttyS6"),
        subsystem: String::from("tty"),
        env,
        sequence: 3469,
    }
}

#[test]
fn datagram_with_a_right_length_decodes() {
    let datagram = framed(4 + BODY.len() as u32, BODY);
    assert_eq!(decode_datagram(datagram), Ok(expected()));
}

#[test]
fn datagram_with_a_wrong_length_still_decodes() {
    for declared in [0, 3, 20, 4 + BODY.len() as u32 - 1, 4 + BODY.len() as u32 + 1, u32::MAX] {
        assert_eq!(decode_datagram(framed(declared, BODY)), Ok(expected()));
    }
}

#[test]
fn datagram_that_opens_with_the_kernel_summary_decodes() {
    let mut datagram = b"add@/devices/platform/serial8250/tty/ttyS6\0".to_vec();
    datagram.extend_from_slice(BODY);
    assert_eq!(decode_datagram(datagram), Ok(expected()));
}

#[test]
fn every_action_is_decoded() {
    for (word, action) in [
        ("add", Action::Add),
        ("remove", Action::Remove),
        ("change", Action::Change),
        ("move", Action::Move),
        ("online", Action::Online),
        ("offline", Action::Offline),
        ("bind", Action::Other(String::from("bind"))),
        ("unbind", Action::Other(String::from("unbind"))),
    ] {
        let body = format!("ACTION={}\0DEVPATH=/devices/x\0SUBSYSTEM=tty\0SEQNUM=7", word);
        let event = decode_datagram(framed(0, body.as_bytes())).unwrap();
        assert_eq!(event.action, action);
        assert_eq!(event.device_path, "/devices/x");
        assert_eq!(event.subsystem, "tty");
        assert_eq!(event.sequence, 7);
        assert_eq!(event.env.len(), 4);
        assert_eq!(event.env.get("ACTION"), Some(&String::from(word)));
    }
}

#[test]
fn datagram_that_is_no_event_is_refused() {
    let no_action = b"DEVPATH=/devices/x\0SUBSYSTEM=tty\0SEQNUM=7";
    assert_eq!(
        decode_datagram(framed(0, no_action)),
        Err(Error::NetlinkPacket(String::from("action not found")))
    );
    let strange = b"ACTION=hello\0DEVPATH=/devices/x\0SUBSYSTEM=tty\0SEQNUM=7";
    assert_eq!(
        decode_datagram(framed(0, strange)),
        Err(Error::NetlinkPacket(String::from("Unexpected action: hello")))
    );
    assert_eq!(
        decode_datagram(framed(0, &[0xff, 0xfe])),
        Err(Error::NetlinkPacket(String::from("Packet not UTF-8")))
    );
    assert_eq!(
        decode_datagram(vec![1, 2]),
        Err(Error::NetlinkPacket(String::from("action not found")))
    );
}

#[test]
fn source_asks_for_one_receive_at_a_time() {
    let mut stream = UEventsStream::new();
    assert_eq!(stream, UEventsStream::Idle);
    assert!(!stream.is_terminated());
    assert_eq!(stream.poll_next(None), Polled::Receive);
    assert_eq!(stream, UEventsStream::InFlight);
    assert_eq!(stream.poll_next(None), Polled::Pending);
    assert_eq!(stream.poll_next(None), Polled::Pending);
    assert_eq!(stream, UEventsStream::InFlight);
}

#[test]
fn source_yields_the_event_and_rests() {
    let mut stream = UEventsStream::new();
    assert_eq!(stream.poll_next(None), Polled::Receive);
    let datagram = framed(0, BODY);
    assert_eq!(stream.poll_next(Some(Ok(datagram))), Polled::Item(Ok(expected())));
    assert_eq!(stream, UEventsStream::Idle);
    assert_eq!(stream.poll_next(None), Polled::Receive);
}

#[test]
fn source_goes_on_after_a_failure() {
    let mut stream = UEventsStream::new();
    assert_eq!(stream.poll_next(None), Polled::Receive);
    assert_eq!(
        stream.poll_next(Some(Err(String::from("no buffer space")))),
        Polled::Item(Err(Error::Receive(String::from("no buffer space"))))
    );
    assert_eq!(stream, UEventsStream::Idle);
    assert!(!stream.is_terminated());
    assert_eq!(stream.poll_next(None), Polled::Receive);
    assert_eq!(
        stream.poll_next(Some(Ok(framed(0, b"garbage")))),
        Polled::Item(Err(Error::NetlinkPacket(String::from("action not found"))))
    );
    assert_eq!(stream.poll_next(None), Polled::Receive);
    assert_eq!(stream.poll_next(Some(Ok(framed(0, BODY)))), Polled::Item(Ok(expected())));
}

#[test]
fn source_ends_on_an_empty_receive_and_stays_ended() {
    let mut stream = UEventsStream::new();
    assert_eq!(stream.poll_next(None), Polled::Receive);
    assert_eq!(stream.poll_next(Some(Ok(vec![]))), Polled::End);
    assert!(stream.is_terminated());
    assert_eq!(stream.poll_next(None), Polled::End);
    assert_eq!(stream.poll_next(Some(Ok(framed(0, BODY)))), Polled::End);
    assert_eq!(stream.poll_next(Some(Err(String::from("late")))), Polled::End);
    assert!(stream.is_terminated());
}

#[test]
fn source_at_rest_takes_a_completed_receive() {
    let mut stream = UEventsStream::new();
    assert_eq!(stream.poll_next(Some(Ok(framed(0, BODY)))), Polled::Item(Ok(expected())));
    assert_eq!(stream, UEventsStream::Idle);
}

#[test]
fn failures_are_told_apart_by_where_they_arose() {
    let words = String::from("permission denied");
    let all = [
        Error::Open(words.clone()),
        Error::Bind(words.clone()),
        Error::Receive(words.clone()),
        Error::NetlinkPacket(words.clone()),
    ];
    for (i, one) in all.iter().enumerate() {
        for (j, other) in all.iter().enumerate() {
            assert_eq!(one == other, i == j);
        }
    }
    assert_ne!(Error::Open(words), Error::Open(String::from("no such protocol")));
}
