//! The rebroadcaster: it turns each event handed to it into one frame and
//! sees the frame sent whole, in as many pieces as the socket takes it,
//! before it turns to the next.

use crate::event::{Env, Event};
use crate::text::{chars_of, string_of};
use vstd::prelude::*;
use vstd::slice::slice_subrange;
use vstd::string::StrSliceExecFns;
use vstd::utf8::encode_utf8;

verus! {

/// The multicast group on which the kernel sends its events.
pub const KERNEL_GROUP: u32 = 1;

/// The multicast group to which events are sent on. It is not the kernel's.
pub const REBROADCAST_GROUP: u32 = 4;

/// What the reactor hands to the rebroadcaster.
#[derive(Debug, Clone, PartialEq)]
pub enum RebroadcastMessage {
    /// An event to send on.
    Event(Event),
    /// No event follows.
    Stop,
}

/// What the driver of the rebroadcaster is to do next.
#[derive(Debug, Clone, Copy, PartialEq, Eq)]
pub enum Directive {
    /// Send the pending bytes, and report how many were taken.
    Send,
    /// Take the next message from the queue, and hand it over.
    Receive,
    /// The task is done.
    Finish,
}

/// One variable as it stands in a frame: name, equals sign, value.
pub open spec fn pair_text(pair: (Seq<char>, Seq<char>)) -> Seq<char> {
    pair.0 + seq!['='] + pair.1
}

/// The text of the frame of a list of variables: each as name, equals sign
/// and value, with a NUL character between one and the next and none at
/// either end.
pub open spec fn frame_text(pairs: Seq<(Seq<char>, Seq<char>)>) -> Seq<char>
    decreases pairs.len(),
{
    if pairs.len() == 0 {
        Seq::empty()
    } else if pairs.len() == 1 {
        pair_text(pairs[0])
    } else {
        frame_text(pairs.drop_last()) + seq!['\0'] + pair_text(pairs.last())
    }
}

/// The bytes of the frame of a list of variables: its text in UTF-8.
pub open spec fn frame_of(pairs: Seq<(Seq<char>, Seq<char>)>) -> Seq<u8> {
    encode_utf8(frame_text(pairs))
}

/// The frame of the variables of an event: computes `frame_of`, with the
/// variables in the order in which the environment holds them.
pub fn serialize(env: &Env) -> (frame: Vec<u8>)
    ensures
        frame@ == frame_of(env.pairs()),
{
    let mut text: Vec<char> = Vec::new();
    let count = env.len();
    let mut i: usize = 0;
    assert(env.pairs().take(0) == Seq::<(Seq<char>, Seq<char>)>::empty());
    while i < count
        invariant
            i <= count,
            count == env.pairs().len(),
            text@ == frame_text(env.pairs().take(i as int)),
        decreases count - i,
    {
        let ghost before = text@;
        let ghost pair = env.pairs()[i as int];
        assert(env.pairs().take(i + 1).drop_last() == env.pairs().take(i as int));
        assert(env.pairs().take(i + 1).last() == pair);
        if i > 0 {
            text.push('\0');
        }
        let (name, value) = env.entry(i);
        let mut name = chars_of(name.as_str());
        let mut value = chars_of(value.as_str());
        text.append(&mut name);
        text.push('=');
        text.append(&mut value);
        assert(text@ == frame_text(env.pairs().take(i + 1))) by {
            if i == 0 {
                assert(before == Seq::<char>::empty());
                assert(env.pairs().take(1)[0] == pair);
                assert(text@ == pair_text(pair));
            } else {
                assert(text@ == before + seq!['\0'] + pair_text(pair));
            }
        }
        i += 1;
    }
    assert(env.pairs().take(count as int) == env.pairs());
    string_of(&text).as_str().as_bytes_vec()
}

/// The state of the rebroadcaster: the frame that is being sent and how much
/// of it the socket has taken.
#[derive(Debug)]
pub struct Rebroadcaster {
    buffer: Vec<u8>,
    offset: usize,
    capacity: usize,
}

impl Rebroadcaster {
    /// The bytes of the frame that are still to be sent.
    pub closed spec fn unsent(&self) -> Seq<u8> {
        self.buffer@.skip(self.offset as int)
    }

    /// The number of messages that the queue to the rebroadcaster holds.
    pub closed spec fn queue_capacity(&self) -> usize {
        self.capacity
    }

    #[verifier::type_invariant]
    spec fn offset_is_within(&self) -> bool {
        self.offset <= self.buffer@.len() && self.capacity > 0
    }

    /// A rebroadcaster with nothing to send, behind a queue that holds
    /// `buffer` messages.
    pub fn new(buffer: usize) -> (r: Rebroadcaster)
        requires
            buffer > 0,
        ensures
            r.unsent() == Seq::<u8>::empty(),
            r.queue_capacity() == buffer,
    {
        let r = Rebroadcaster { buffer: Vec::new(), offset: 0, capacity: buffer };
        assert(r.unsent() == Seq::<u8>::empty());
        r
    }

    /// The number of messages that the queue holds.
    pub fn capacity(&self) -> (n: usize)
        ensures
            n == self.queue_capacity(),
            n > 0,
    {
        proof {
            use_type_invariant(self);
        }
        self.capacity
    }

    /// The bytes that are still to be sent.
    pub fn pending(&self) -> (bytes: &[u8])
        ensures
            bytes@ == self.unsent(),
    {
        proof {
            use_type_invariant(self);
        }
        slice_subrange(self.buffer.as_slice(), self.offset, self.buffer.len())
    }

    /// What is to be done as things stand: send where bytes are pending,
    /// else take the next message.
    pub fn resume(&self) -> (next: Directive)
        ensures
            next == if self.unsent().len() > 0 {
                Directive::Send
            } else {
                Directive::Receive
            },
    {
        proof {
            use_type_invariant(self);
        }
        if self.offset < self.buffer.len() {
            Directive::Send
        } else {
            Directive::Receive
        }
    }

    /// Takes a message from the queue, or `None` where the queue has closed.
    /// An event becomes the frame to send; a frame without bytes is not
    /// sent. The order to stop, like the closing of the queue, ends the task.
    pub fn accept(&mut self, message: Option<RebroadcastMessage>) -> (next: Directive)
        requires
            old(self).unsent().len() == 0,
        ensures
            final(self).queue_capacity() == old(self).queue_capacity(),
            match message {
                Some(RebroadcastMessage::Event(event)) => {
                    &&& final(self).unsent() == frame_of(event.env.pairs())
                    &&& next == if frame_of(event.env.pairs()).len() > 0 {
                        Directive::Send
                    } else {
                        Directive::Receive
                    }
                },
                _ => final(self).unsent() == Seq::<u8>::empty() && next == Directive::Finish,
            },
    {
        proof {
            use_type_invariant(&*self);
        }
        match message {
            Some(RebroadcastMessage::Event(event)) => {
                let frame = serialize(&event.env);
                let any = frame.len() > 0;
                assert(frame@.skip(0) == frame@);
                *self = Rebroadcaster { buffer: frame, offset: 0, capacity: self.capacity };
                if any {
                    Directive::Send
                } else {
                    Directive::Receive
                }
            },
            _ => {
                *self = Rebroadcaster { buffer: Vec::new(), offset: 0, capacity: self.capacity };
                assert(self.unsent() == Seq::<u8>::empty());
                Directive::Finish
            },
        }
    }

    /// Records that the socket took the first `count` of the pending bytes.
    /// What is left is sent next, from where the socket stopped; once
    /// nothing is left, the next message is taken.
    pub fn sent(&mut self, count: usize) -> (next: Directive)
        requires
            count <= old(self).unsent().len(),
        ensures
            final(self).queue_capacity() == old(self).queue_capacity(),
            final(self).unsent() == old(self).unsent().skip(count as int),
            next == if count < old(self).unsent().len() {
                Directive::Send
            } else {
                Directive::Receive
            },
    {
        proof {
            use_type_invariant(&*self);
        }
        let ghost before = self.unsent();
        assert(self.buffer@.skip(self.offset as int).skip(count as int) == self.buffer@.skip(
            self.offset + count,
        ));
        assert(before.len() == self.buffer@.len() - self.offset);
        if count < self.buffer.len() - self.offset {
            self.offset = self.offset + count;
            Directive::Send
        } else {
            *self = Rebroadcaster { buffer: Vec::new(), offset: 0, capacity: self.capacity };
            assert(self.unsent() == Seq::<u8>::empty());
            assert(before.skip(count as int) == Seq::<u8>::empty());
            Directive::Receive
        }
    }
}

} // verus!
