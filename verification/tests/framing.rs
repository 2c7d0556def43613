use mdev::framing::{declared, patch_length, payload, LENGTH_FIELD};

fn framed(declared: u32, body: &[u8]) -> Vec<u8> {
    let mut datagram = declared.to_le_bytes().to_vec();
    datagram.extend_from_slice(body);
    datagram
}

#[test]
fn declared_reads_the_first_four_bytes() {
    assert_eq!(LENGTH_FIELD, 4);
    assert_eq!(declared(&[0x0a, 0, 0, 0, 1, 2]), Some(10));
    assert_eq!(declared(&[0x01, 0x02, 0x03, 0x04]), Some(0x04030201));
    assert_eq!(declared(&[0xff, 0xff, 0xff, 0xff, 9]), Some(u32::MAX));
    assert_eq!(declared(&[1, 2, 3]), None);
    assert_eq!(declared(&[]), None);
}

#[test]
fn patch_sets_the_field_to_the_received_length() {
    let mut datagram = framed(6, b"ACTION=add");
    assert!(patch_length(&mut datagram));
    assert_eq!(datagram, framed(14, b"ACTION=add"));
    assert_eq!(declared(&datagram), Some(14));
}

#[test]
fn patch_corrects_a_field_that_declares_too_much() {
    let mut datagram = framed(4000, b"ACTION=add");
    assert!(patch_length(&mut datagram));
    assert_eq!(datagram, framed(14, b"ACTION=add"));
}

#[test]
fn patch_leaves_a_right_field_alone() {
    let mut datagram = framed(14, b"ACTION=add");
    assert!(!patch_length(&mut datagram));
    assert_eq!(datagram, framed(14, b"ACTION=add"));
}

#[test]
fn patch_is_idempotent() {
    let mut datagram = framed(1, b"ACTION=add");
    assert!(patch_length(&mut datagram));
    let once = datagram.clone();
    assert!(!patch_length(&mut datagram));
    assert_eq!(datagram, once);
}

#[test]
fn patch_writes_every_byte_of_the_field() {
    let body = vec![b'x'; 0x1_02_03 - 4];
    let mut datagram = framed(0xffff_ffff, &body);
    assert!(patch_length(&mut datagram));
    assert_eq!(&datagram[..4], &[0x03, 0x02, 0x01, 0x00]);
    assert_eq!(&datagram[4..], &body[..]);
}

#[test]
fn patch_leaves_a_datagram_without_field_alone() {
    for short in [vec![], vec![1u8], vec![1u8, 2, 3]] {
        let mut datagram = short.clone();
        assert!(!patch_length(&mut datagram));
        assert_eq!(datagram, short);
    }
    let mut just_the_field = vec![9u8, 9, 9, 9];
    assert!(patch_length(&mut just_the_field));
    assert_eq!(just_the_field, vec![4u8, 0, 0, 0]);
}

#[test]
fn payload_ends_at_the_declared_length() {
    assert_eq!(payload(&framed(14, b"ACTION=add")), b"ACTION=add");
    assert_eq!(payload(&framed(10, b"ACTION=add")), b"ACTION");
    assert_eq!(payload(&framed(5, b"ACTION=add")), b"A");
    assert_eq!(payload(&framed(4, b"ACTION=add")), b"");
    assert_eq!(payload(&framed(0, b"ACTION=add")), b"");
    assert_eq!(payload(&framed(15, b"ACTION=add")), b"ACTION=add");
    assert_eq!(payload(&framed(u32::MAX, b"ACTION=add")), b"ACTION=add");
    assert_eq!(payload(&[1, 2, 3]), b"");
    assert_eq!(payload(&[]), b"");
}

#[test]
fn patched_datagram_keeps_its_whole_payload() {
    let mut datagram = framed(7, b"ACTION=add\0SEQNUM=1");
    assert_eq!(payload(&datagram), b"ACT");
    patch_length(&mut datagram);
    assert_eq!(payload(&datagram), b"ACTION=add\0SEQNUM=1");
}
