//! The source of kernel events: the decoding of datagrams, and the state of
//! the one receive that is in flight at any time.

use crate::event::{pairs_map, Action, ActionView, Env, Event, EventView};
use crate::framing::{patch_length, patched, payload, payload_of};
use kobject_uevent::UEvent;
use vstd::prelude::*;

verus! {

/// What can go wrong at the source of events. Each failure carries the
/// words of what reported it.
#[derive(Debug, Clone, PartialEq, Eq)]
pub enum Error {
    /// The socket could not be opened.
    Open(String),
    /// The socket could not be bound.
    Bind(String),
    /// A datagram could not be received.
    Receive(String),
    /// A datagram is no event.
    NetlinkPacket(String),
}

/// The view of a failure at the source.
pub enum ErrorView {
    Open(Seq<char>),
    Bind(Seq<char>),
    Receive(Seq<char>),
    NetlinkPacket(Seq<char>),
}

impl View for Error {
    type V = ErrorView;

    open spec fn view(&self) -> ErrorView {
        match *self {
            Error::Open(words) => ErrorView::Open(words@),
            Error::Bind(words) => ErrorView::Bind(words@),
            Error::Receive(words) => ErrorView::Receive(words@),
            Error::NetlinkPacket(words) => ErrorView::NetlinkPacket(words@),
        }
    }
}

/// What `kobject_uevent::UEvent::from_netlink_packet` makes of a packet:
/// the place of the action among the crate's action types, the object path,
/// the subsystem, the variables and the sequence number of the event; or the
/// words of its refusal.
pub uninterp spec fn parsed_packet(packet: Seq<u8>) -> Result<
    (u8, Seq<char>, Seq<char>, Map<Seq<char>, Seq<char>>, u64),
    Seq<char>,
>;

/// The texts of a list of pairs of strings.
pub open spec fn pair_views(pairs: Seq<(String, String)>) -> Seq<(Seq<char>, Seq<char>)> {
    pairs.map_values(|p: (String, String)| (p.0@, p.1@))
}

/// Calls `kobject_uevent::UEvent::from_netlink_packet` and hands out the
/// fields of the event it gives: the action as its place among the crate's
/// eight action types, the object path as text, and the variables as a list
/// of pairs in no stated order; or, where the crate refuses the packet, the
/// words of its error. Nothing is claimed of either but that it is what the
/// crate gives for these bytes.
#[verifier::external_body]
fn parse_packet(packet: &[u8]) -> (r: Result<
    (u8, String, String, Vec<(String, String)>, u64),
    String,
>)
    ensures
        match r {
            Ok(fields) => parsed_packet(packet@) == Ok::<
                (u8, Seq<char>, Seq<char>, Map<Seq<char>, Seq<char>>, u64),
                Seq<char>,
            >((fields.0, fields.1@, fields.2@, pairs_map(pair_views(fields.3@)), fields.4)),
            Err(words) => parsed_packet(packet@) == Err::<
                (u8, Seq<char>, Seq<char>, Map<Seq<char>, Seq<char>>, u64),
                Seq<char>,
            >(words@),
        },
{
    match UEvent::from_netlink_packet(packet) {
        Ok(event) => Ok(
            (
                event.action as u8,
                event.devpath.to_string_lossy().into_owned(),
                event.subsystem,
                event.env.into_iter().collect(),
                event.seq,
            ),
        ),
        Err(refusal) => Err(refusal.to_string()),
    }
}

/// The action at a place among the action types of the decoder. The two
/// that have no name of their own here keep the kernel's word for them.
pub open spec fn action_at(place: u8) -> ActionView {
    if place == 0 {
        ActionView::Add
    } else if place == 1 {
        ActionView::Remove
    } else if place == 2 {
        ActionView::Change
    } else if place == 3 {
        ActionView::Move
    } else if place == 4 {
        ActionView::Online
    } else if place == 5 {
        ActionView::Offline
    } else if place == 6 {
        ActionView::Other("bind"@)
    } else {
        ActionView::Other("unbind"@)
    }
}

fn action_of(place: u8) -> (action: Action)
    ensures
        action@ == action_at(place),
{
    if place == 0 {
        Action::Add
    } else if place == 1 {
        Action::Remove
    } else if place == 2 {
        Action::Change
    } else if place == 3 {
        Action::Move
    } else if place == 4 {
        Action::Online
    } else if place == 5 {
        Action::Offline
    } else if place == 6 {
        Action::Other("bind".to_owned())
    } else {
        Action::Other("unbind".to_owned())
    }
}

/// The event that a datagram holds: what the decoder makes of its payload
/// once its length field is set to the length received.
pub open spec fn decoded(datagram: Seq<u8>) -> Result<EventView, ErrorView> {
    match parsed_packet(payload_of(patched(datagram))) {
        Ok((place, device_path, subsystem, env, sequence)) => Ok(
            EventView { action: action_at(place), device_path, subsystem, env, sequence },
        ),
        Err(words) => Err(ErrorView::NetlinkPacket(words)),
    }
}

/// The view of an event or of what stood in its way.
pub open spec fn item_view(item: Result<Event, Error>) -> Result<EventView, ErrorView> {
    match item {
        Ok(event) => Ok(event@),
        Err(error) => Err(error@),
    }
}

/// Decodes a datagram: sets its length field to the length received, takes
/// the payload and has it decoded.
pub fn decode_datagram(datagram: Vec<u8>) -> (r: Result<Event, Error>)
    ensures
        item_view(r) == decoded(datagram@),
{
    let mut datagram = datagram;
    let _ = patch_length(&mut datagram);
    match parse_packet(payload(datagram.as_slice())) {
        Ok((place, device_path, subsystem, pairs, sequence)) => {
            let env = Env::from_pairs(pairs);
            Ok(Event { action: action_of(place), device_path, subsystem, env, sequence })
        },
        Err(refusal) => Err(Error::NetlinkPacket(refusal)),
    }
}

/// The state of the source: it owns one socket, and at most one receive on
/// it is in flight at any time.
#[derive(Debug, Clone, Copy, PartialEq, Eq)]
pub enum UEventsStream {
    /// The socket is at rest.
    Idle,
    /// A receive is in flight.
    InFlight,
    /// The channel has closed; the source yields nothing more.
    Terminated,
}

/// What the driver of the source is to do next.
#[derive(Debug, PartialEq)]
pub enum Polled {
    /// Start a receive, and poll again with what it gives.
    Receive,
    /// The receive in flight has not completed: keep waiting for it.
    Pending,
    /// Yield this item.
    Item(Result<Event, Error>),
    /// The source has ended.
    End,
}

/// The view of what a poll gave.
pub enum PolledView {
    Receive,
    Pending,
    Item(Result<EventView, ErrorView>),
    End,
}

impl View for Polled {
    type V = PolledView;

    open spec fn view(&self) -> PolledView {
        match *self {
            Polled::Receive => PolledView::Receive,
            Polled::Pending => PolledView::Pending,
            Polled::Item(item) => PolledView::Item(item_view(item)),
            Polled::End => PolledView::End,
        }
    }
}

/// The view of what a receive gave: the bytes of a datagram, or the words of
/// a failure.
pub open spec fn completion_view(completion: Option<Result<Vec<u8>, String>>) -> Option<
    Result<Seq<u8>, Seq<char>>,
> {
    match completion {
        Some(Ok(datagram)) => Some(Ok(datagram@)),
        Some(Err(words)) => Some(Err(words@)),
        None => None,
    }
}

/// One poll of the source: the state after it and what the driver is to do.
///
/// A source that has ended stays so. Without a completed receive, a source
/// at rest asks for a receive and one with a receive in flight waits for it.
/// A receive that gave no bytes ends the source. One that gave a datagram
/// yields the event it holds, or why it holds none; one that failed yields
/// the failure; after either the source is at rest again and goes on.
pub open spec fn polled(
    state: UEventsStream,
    completion: Option<Result<Seq<u8>, Seq<char>>>,
) -> (UEventsStream, PolledView) {
    match state {
        UEventsStream::Terminated => (UEventsStream::Terminated, PolledView::End),
        _ => match completion {
            None => (
                UEventsStream::InFlight,
                if state is Idle {
                    PolledView::Receive
                } else {
                    PolledView::Pending
                },
            ),
            Some(Ok(datagram)) => if datagram.len() == 0 {
                (UEventsStream::Terminated, PolledView::End)
            } else {
                (UEventsStream::Idle, PolledView::Item(decoded(datagram)))
            },
            Some(Err(words)) => (
                UEventsStream::Idle,
                PolledView::Item(Err(ErrorView::Receive(words))),
            ),
        },
    }
}

impl UEventsStream {
    /// The source over a socket that was just opened.
    pub fn new() -> (stream: UEventsStream)
        ensures
            stream is Idle,
    {
        UEventsStream::Idle
    }

    /// Whether the source has ended.
    pub fn is_terminated(&self) -> (r: bool)
        ensures
            r == (*self is Terminated),
    {
        match self {
            UEventsStream::Terminated => true,
            _ => false,
        }
    }

    /// Polls the source: computes `polled`. `completion` is what the receive
    /// in flight gave, where it has completed.
    pub fn poll_next(&mut self, completion: Option<Result<Vec<u8>, String>>) -> (next: Polled)
        ensures
            (*final(self), next@) == polled(*old(self), completion_view(completion)),
    {
        match self {
            UEventsStream::Terminated => Polled::End,
            _ => match completion {
                None => {
                    let started = match self {
                        UEventsStream::Idle => true,
                        _ => false,
                    };
                    *self = UEventsStream::InFlight;
                    if started {
                        Polled::Receive
                    } else {
                        Polled::Pending
                    }
                },
                Some(Ok(datagram)) => {
                    if datagram.len() == 0 {
                        *self = UEventsStream::Terminated;
                        Polled::End
                    } else {
                        *self = UEventsStream::Idle;
                        Polled::Item(decode_datagram(datagram))
                    }
                },
                Some(Err(words)) => {
                    *self = UEventsStream::Idle;
                    Polled::Item(Err(Error::Receive(words)))
                },
            },
        }
    }
}

/// A source that has ended never starts again: whatever it is polled with,
/// it stays ended and yields nothing.
pub proof fn lemma_ended_source_stays_ended(completion: Option<Result<Seq<u8>, Seq<char>>>)
    ensures
        polled(UEventsStream::Terminated, completion) == (
            UEventsStream::Terminated,
            PolledView::End,
        ),
{
}

/// At most one receive is in flight: a receive is asked for only by a source
/// at rest, which then has one in flight, and a source with one in flight
/// asks for none.
pub proof fn lemma_one_receive_in_flight(
    state: UEventsStream,
    completion: Option<Result<Seq<u8>, Seq<char>>>,
)
    ensures
        polled(state, completion).1 is Receive ==> state is Idle && polled(state, completion).0
            is InFlight,
        state is InFlight ==> !(polled(state, completion).1 is Receive),
{
}

/// A failed receive does not end the source: the failure is yielded and the
/// source is at rest, ready for the next receive.
pub proof fn lemma_failure_is_not_fatal(state: UEventsStream, words: Seq<char>)
    requires
        !(state is Terminated),
    ensures
        polled(state, Some(Err(words))) == (
            UEventsStream::Idle,
            PolledView::Item(Err(ErrorView::Receive(words))),
        ),
        polled(UEventsStream::Idle, None).1 is Receive,
{
}

} // verus!
