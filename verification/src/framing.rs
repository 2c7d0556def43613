//! The framing of kernel datagrams.
//!
//! A datagram begins with a length field: four bytes that declare, least
//! significant byte first, how long the whole datagram is. What follows the
//! field, up to the declared length, is the payload that is decoded. The
//! kernel is known to declare less than it sends, which would cut the payload
//! short; so the field is set to the length received before the payload is
//! taken.

use vstd::prelude::*;
use vstd::slice::slice_subrange;

verus! {

/// The number of bytes of the length field.
pub const LENGTH_FIELD: usize = 4;

/// Whether a datagram is long enough to hold a length field.
pub open spec fn has_length_field(datagram: Seq<u8>) -> bool {
    datagram.len() >= LENGTH_FIELD
}

/// The length that the datagram declares.
pub open spec fn declared_length(datagram: Seq<u8>) -> nat
    recommends
        has_length_field(datagram),
{
    (datagram[0] as nat) + 256 * (datagram[1] as nat) + 65536 * (datagram[2] as nat) + 16777216
        * (datagram[3] as nat)
}

/// The four bytes that declare the length `n`.
pub open spec fn length_bytes(n: nat) -> Seq<u8>
    recommends
        n <= u32::MAX,
{
    seq![
        (n % 256) as u8,
        ((n / 256) % 256) as u8,
        ((n / 65536) % 256) as u8,
        ((n / 16777216) % 256) as u8,
    ]
}

/// Whether the length field of a datagram can be set to the length of the
/// datagram: it has such a field, and its length fits in it.
pub open spec fn can_declare_own_length(datagram: Seq<u8>) -> bool {
    has_length_field(datagram) && datagram.len() <= u32::MAX
}

/// The datagram with its length field set to its own length, where that can
/// be done, and as it is otherwise. Nothing but the length field changes.
pub open spec fn patched(datagram: Seq<u8>) -> Seq<u8> {
    if can_declare_own_length(datagram) {
        length_bytes(datagram.len()) + datagram.skip(LENGTH_FIELD as int)
    } else {
        datagram
    }
}

/// The payload of a datagram: what follows the length field, up to the
/// declared length or the end of the datagram, whichever comes first. A
/// datagram without length field has none.
pub open spec fn payload_of(datagram: Seq<u8>) -> Seq<u8> {
    if !has_length_field(datagram) {
        Seq::empty()
    } else if declared_length(datagram) <= LENGTH_FIELD {
        Seq::empty()
    } else if declared_length(datagram) >= datagram.len() {
        datagram.skip(LENGTH_FIELD as int)
    } else {
        datagram.subrange(LENGTH_FIELD as int, declared_length(datagram) as int)
    }
}

/// The bytes of a length declare that length.
pub proof fn lemma_length_bytes_declare(n: nat)
    requires
        n <= u32::MAX,
    ensures
        length_bytes(n).len() == LENGTH_FIELD,
        declared_length(length_bytes(n)) == n,
{
    let b0 = n % 256;
    let b1 = (n / 256) % 256;
    let b2 = (n / 65536) % 256;
    let b3 = (n / 16777216) % 256;
    assert(n / 16777216 < 256);
    assert(b0 + 256 * b1 + 65536 * b2 + 16777216 * b3 == n);
    assert(length_bytes(n)[0] == b0);
    assert(length_bytes(n)[1] == b1);
    assert(length_bytes(n)[2] == b2);
    assert(length_bytes(n)[3] == b3);
}

/// The length that a datagram declares, where it has a length field.
pub fn declared(datagram: &[u8]) -> (r: Option<u32>)
    ensures
        match r {
            Some(n) => has_length_field(datagram@) && n == declared_length(datagram@),
            None => !has_length_field(datagram@),
        },
{
    if datagram.len() < LENGTH_FIELD {
        return None;
    }
    let b0: u32 = datagram[0] as u32;
    let b1: u32 = datagram[1] as u32;
    let b2: u32 = datagram[2] as u32;
    let b3: u32 = datagram[3] as u32;
    Some(b0 + 256 * b1 + 65536 * b2 + 16777216 * b3)
}

/// Sets the length field of the datagram to the length of the datagram,
/// where the two differ, and says whether it had to.
pub fn patch_length(datagram: &mut Vec<u8>) -> (changed: bool)
    ensures
        final(datagram)@ == patched(old(datagram)@),
        changed == (can_declare_own_length(old(datagram)@) && declared_length(old(datagram)@)
            != old(datagram)@.len()),
        !changed ==> final(datagram)@ == old(datagram)@,
{
    let n = datagram.len();
    if n < LENGTH_FIELD || n > 0xffff_ffff {
        return false;
    }
    let before = declared(datagram.as_slice());
    let ghost old_bytes = datagram@;
    proof {
        lemma_length_bytes_declare(n as nat);
    }
    datagram.set(0, (n % 256) as u8);
    datagram.set(1, ((n / 256) % 256) as u8);
    datagram.set(2, ((n / 65536) % 256) as u8);
    datagram.set(3, ((n / 16777216) % 256) as u8);
    assert(datagram@ == patched(old_bytes));
    match before {
        Some(was) => {
            if was as usize == n {
                assert(old_bytes == patched(old_bytes)) by {
                    lemma_declared_bytes(old_bytes);
                }
                false
            } else {
                true
            }
        },
        None => false,
    }
}

/// A datagram begins with the bytes of the length that it declares.
pub proof fn lemma_declared_bytes(datagram: Seq<u8>)
    requires
        has_length_field(datagram),
    ensures
        datagram == length_bytes(declared_length(datagram)) + datagram.skip(LENGTH_FIELD as int),
{
    let n = declared_length(datagram);
    let b0 = datagram[0] as nat;
    let b1 = datagram[1] as nat;
    let b2 = datagram[2] as nat;
    let b3 = datagram[3] as nat;
    assert(n % 256 == b0);
    assert((n / 256) % 256 == b1);
    assert((n / 65536) % 256 == b2);
    assert((n / 16777216) % 256 == b3);
    let again = length_bytes(n) + datagram.skip(LENGTH_FIELD as int);
    assert(again.len() == datagram.len());
    assert forall|i: int| 0 <= i < datagram.len() implies again[i] == datagram[i] by {
        if i >= 4 {
            assert(again[i] == datagram.skip(LENGTH_FIELD as int)[i - 4]);
        }
    }
    assert(again == datagram);
}

/// The payload of a datagram: computes `payload_of`.
pub fn payload(datagram: &[u8]) -> (part: &[u8])
    ensures
        part@ == payload_of(datagram@),
{
    match declared(datagram) {
        None => slice_subrange(datagram, 0, 0),
        Some(length) => {
            if length as usize <= LENGTH_FIELD {
                slice_subrange(datagram, 0, 0)
            } else if length as usize >= datagram.len() {
                slice_subrange(datagram, LENGTH_FIELD, datagram.len())
            } else {
                slice_subrange(datagram, LENGTH_FIELD, length as usize)
            }
        },
    }
}

/// Once the length field is set, the datagram declares the length that was
/// received and nothing of what follows the field is cut off, whatever the
/// field declared before.
pub proof fn lemma_patched_declares_length(datagram: Seq<u8>)
    requires
        can_declare_own_length(datagram),
    ensures
        patched(datagram).len() == datagram.len(),
        declared_length(patched(datagram)) == datagram.len(),
        patched(datagram).skip(LENGTH_FIELD as int) == datagram.skip(LENGTH_FIELD as int),
        payload_of(patched(datagram)) == datagram.skip(LENGTH_FIELD as int),
{
    let n = datagram.len();
    lemma_length_bytes_declare(n);
    let after = patched(datagram);
    assert(after[0] == length_bytes(n)[0]);
    assert(after[1] == length_bytes(n)[1]);
    assert(after[2] == length_bytes(n)[2]);
    assert(after[3] == length_bytes(n)[3]);
    assert(after.skip(LENGTH_FIELD as int) == datagram.skip(LENGTH_FIELD as int));
    if n == LENGTH_FIELD {
        assert(datagram.skip(LENGTH_FIELD as int) == Seq::<u8>::empty());
    }
}

/// Setting the length field twice is setting it once, and a datagram that
/// declares its own length is left as it is.
pub proof fn lemma_patch_settles(datagram: Seq<u8>)
    ensures
        patched(patched(datagram)) == patched(datagram),
        has_length_field(datagram) && declared_length(datagram) == datagram.len() ==> patched(
            datagram,
        ) == datagram,
{
    if can_declare_own_length(datagram) {
        lemma_patched_declares_length(datagram);
        lemma_declared_bytes(patched(datagram));
    }
    if has_length_field(datagram) && declared_length(datagram) == datagram.len() {
        lemma_declared_bytes(datagram);
        assert(declared_length(datagram) <= u32::MAX);
    }
}

} // verus!
