//! The scan of the devices that are already there: which entries of the
//! device tree stand for a device, and how the events made for them count.

use crate::event::{Event, EventView};
use crate::text::same_text;
use vstd::prelude::*;

verus! {

/// How deep below its root the tree of devices is walked.
pub const DEVICE_TREE_DEPTH: usize = 3;

/// How deep below its root the tree of device classes is walked for the
/// files that make the kernel send its events again.
pub const CLASS_TREE_DEPTH: usize = 4;

/// How deep below its root the tree of buses is walked for them.
pub const BUS_TREE_DEPTH: usize = 3;

/// An entry of the walk stands for a device where it is named `dev` and is
/// not the root of the walk.
pub open spec fn marks_device(file_name: Seq<char>, depth: nat) -> bool {
    file_name == "dev"@ && depth != 0
}

/// Decides `marks_device`.
pub fn is_device_marker(file_name: &str, depth: usize) -> (r: bool)
    ensures
        r == marks_device(file_name@, depth as nat),
{
    depth != 0 && same_text(file_name, "dev")
}

/// An entry of the walk is a file that makes the kernel send an event again
/// where it is named `uevent`.
pub fn is_event_trigger(file_name: &str) -> (r: bool)
    ensures
        r == (file_name@ == "uevent"@),
{
    same_text(file_name, "uevent")
}

/// The event made for a device found by the scan, numbered by its place in
/// the walk: nothing but the sequence number changes.
pub fn numbered(event: Event, position: u64) -> (r: Event)
    ensures
        r@ == (EventView { sequence: position, ..event@ }),
{
    Event { sequence: position, ..event }
}

} // verus!
