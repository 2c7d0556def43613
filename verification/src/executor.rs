//! What carrying out an action descriptor consists of: the steps to take on
//! the file system, in order, and which of their failures do no harm.
//!
//! Paths in the steps are relative to the directory in which the device
//! nodes live; the empty path is that directory itself.

use crate::engine::{
    ActionDescriptor, ActionDescriptorView, Disposition, DispositionView, NodeKind,
};
use crate::rule::{parent_directory, parent_of};
use crate::text::{chars_of, string_of};
use nix::sys::stat::makedev;
use vstd::prelude::*;

verus! {

/// One step on the file system.
#[derive(Debug, Clone, PartialEq, Eq)]
pub enum Step {
    /// Look up the user and the group by name; an unknown name fails the
    /// action before anything was changed.
    ResolveOwner { owner: String, group: String },
    /// Make the directory and those above it, where they are missing.
    EnsureDirectory { path: String },
    /// Make the special file of the device `device`.
    MakeNode { path: String, kind: NodeKind, device: u64, mode: u32 },
    /// Give the node to the user and the group looked up before.
    SetOwner { path: String, owner: String, group: String },
    /// Take the node away.
    Unlink { path: String },
    /// Move the node.
    Rename { from: String, to: String },
    /// Make a link at `link` that points to `node`.
    Symlink { node: String, link: String },
}

/// The view of a step.
pub enum StepView {
    ResolveOwner { owner: Seq<char>, group: Seq<char> },
    EnsureDirectory { path: Seq<char> },
    MakeNode { path: Seq<char>, kind: NodeKind, device: u64, mode: u32 },
    SetOwner { path: Seq<char>, owner: Seq<char>, group: Seq<char> },
    Unlink { path: Seq<char> },
    Rename { from: Seq<char>, to: Seq<char> },
    Symlink { node: Seq<char>, link: Seq<char> },
}

impl View for Step {
    type V = StepView;

    open spec fn view(&self) -> StepView {
        match *self {
            Step::ResolveOwner { owner, group } => StepView::ResolveOwner {
                owner: owner@,
                group: group@,
            },
            Step::EnsureDirectory { path } => StepView::EnsureDirectory { path: path@ },
            Step::MakeNode { path, kind, device, mode } => StepView::MakeNode {
                path: path@,
                kind,
                device,
                mode,
            },
            Step::SetOwner { path, owner, group } => StepView::SetOwner {
                path: path@,
                owner: owner@,
                group: group@,
            },
            Step::Unlink { path } => StepView::Unlink { path: path@ },
            Step::Rename { from, to } => StepView::Rename { from: from@, to: to@ },
            Step::Symlink { node, link } => StepView::Symlink {
                node: node@,
                link: link@,
            },
        }
    }
}

/// The views of a list of steps.
pub open spec fn step_views(steps: Seq<Step>) -> Seq<StepView> {
    steps.map_values(|s: Step| s@)
}

/// The number under which the system knows the device with the major number
/// `major` and the minor number `minor`.
pub open spec fn device_of(major: u32, minor: u32) -> u64 {
    ((major as u64 & 0xffff_f000) << 32) | ((major as u64 & 0x0000_0fff) << 8) | ((minor as u64
        & 0xffff_ff00) << 12) | (minor as u64 & 0x0000_00ff)
}

/// Calls `nix::sys::stat::makedev`, which lays the bits of the two numbers
/// out as `device_of` says.
#[verifier::external_body]
fn device_number(major: u32, minor: u32) -> (device: u64)
    ensures
        device == device_of(major, minor),
{
    makedev(u64::from(major), u64::from(minor))
}

/// The permission bits of a rule name a bit that no file mode has.
#[derive(Debug, Clone, Copy, PartialEq, Eq)]
pub struct InvalidMode;

/// The highest value that the permission bits of a node can take: the nine
/// permission bits and the three bits above them.
pub const MODE_MAX: u32 = 0o7777;

/// The steps that carry out a descriptor.
///
/// A suppressed event takes no step, nor does a node that is left as it is.
/// A node is made after its owner was looked up and its directory made, and
/// is then given to its owner; its permission bits must be file mode bits.
/// A node is moved, or linked to, after the directory of the target was made.
pub open spec fn planned(descriptor: ActionDescriptorView) -> Result<Seq<StepView>, InvalidMode> {
    match descriptor {
        ActionDescriptorView::Suppressed => Ok(Seq::empty()),
        ActionDescriptorView::Node {
            device_name,
            final_device_name,
            disposition,
            owner,
            group,
            mode,
        } => match disposition {
            DispositionView::Create { major, minor, kind } => if mode > MODE_MAX {
                Err(InvalidMode)
            } else {
                Ok(
                    seq![
                        StepView::ResolveOwner { owner, group },
                        StepView::EnsureDirectory { path: parent_directory(final_device_name) },
                        StepView::MakeNode {
                            path: final_device_name,
                            kind,
                            device: device_of(major, minor),
                            mode,
                        },
                        StepView::SetOwner { path: final_device_name, owner, group },
                    ],
                )
            },
            DispositionView::Remove => Ok(seq![StepView::Unlink { path: final_device_name }]),
            DispositionView::Relocate { directory, target } => Ok(
                seq![
                    StepView::EnsureDirectory { path: directory },
                    StepView::Rename { from: device_name, to: target },
                ],
            ),
            DispositionView::LinkAt { directory, target } => Ok(
                seq![
                    StepView::EnsureDirectory { path: directory },
                    StepView::Symlink { node: device_name, link: target },
                ],
            ),
            DispositionView::Retain => Ok(Seq::empty()),
        },
    }
}

/// Computes `planned`.
pub fn plan(descriptor: &ActionDescriptor) -> (r: Result<Vec<Step>, InvalidMode>)
    ensures
        planned(descriptor@) == match r {
            Ok(steps) => Ok::<Seq<StepView>, InvalidMode>(step_views(steps@)),
            Err(refusal) => Err(refusal),
        },
{
    let mut steps: Vec<Step> = Vec::new();
    match descriptor {
        ActionDescriptor::Suppressed => {
            assert(step_views(steps@) == Seq::<StepView>::empty());
        },
        ActionDescriptor::Node {
            device_name,
            final_device_name,
            disposition,
            owner,
            group,
            mode,
        } => match disposition {
            Disposition::Create { major, minor, kind } => {
                if *mode > MODE_MAX {
                    return Err(InvalidMode);
                }
                let parent = string_of(&parent_of(&chars_of(final_device_name.as_str())));
                steps.push(Step::ResolveOwner { owner: owner.clone(), group: group.clone() });
                steps.push(Step::EnsureDirectory { path: parent });
                steps.push(
                    Step::MakeNode {
                        path: final_device_name.clone(),
                        kind: *kind,
                        device: device_number(*major, *minor),
                        mode: *mode,
                    },
                );
                steps.push(
                    Step::SetOwner {
                        path: final_device_name.clone(),
                        owner: owner.clone(),
                        group: group.clone(),
                    },
                );
                assert(step_views(steps@) == planned(descriptor@)->Ok_0);
            },
            Disposition::Remove => {
                steps.push(Step::Unlink { path: final_device_name.clone() });
                assert(step_views(steps@) == planned(descriptor@)->Ok_0);
            },
            Disposition::Relocate { directory, target } => {
                steps.push(Step::EnsureDirectory { path: directory.clone() });
                steps.push(Step::Rename { from: device_name.clone(), to: target.clone() });
                assert(step_views(steps@) == planned(descriptor@)->Ok_0);
            },
            Disposition::LinkAt { directory, target } => {
                steps.push(Step::EnsureDirectory { path: directory.clone() });
                steps.push(Step::Symlink { node: device_name.clone(), link: target.clone() });
                assert(step_views(steps@) == planned(descriptor@)->Ok_0);
            },
            Disposition::Retain => {
                assert(step_views(steps@) == Seq::<StepView>::empty());
            },
        },
    }
    Ok(steps)
}

/// How a step failed, as far as the executor tells failures apart.
#[derive(Debug, Clone, Copy, PartialEq, Eq)]
pub enum Failure {
    /// What the step was to act on does not exist.
    NotFound,
    /// Anything else.
    Other,
}

/// A failure that counts as success: taking away a node that does not exist.
pub open spec fn tolerated(step: StepView, failure: Failure) -> bool {
    step is Unlink && failure == Failure::NotFound
}

/// Decides `tolerated`.
pub fn tolerates(step: &Step, failure: Failure) -> (r: bool)
    ensures
        r == tolerated(step@, failure),
{
    match step {
        Step::Unlink { .. } => match failure {
            Failure::NotFound => true,
            Failure::Other => false,
        },
        _ => false,
    }
}

/// Removal is idempotent: every step of removing a node tolerates that the
/// node does not exist.
pub proof fn lemma_removal_is_idempotent(descriptor: ActionDescriptorView)
    requires
        descriptor is Node,
        descriptor->disposition is Remove,
    ensures
        planned(descriptor) is Ok,
        forall|i: int|
            0 <= i < planned(descriptor)->Ok_0.len() ==> tolerated(
                #[trigger] planned(descriptor)->Ok_0[i],
                Failure::NotFound,
            ),
{
}

} // verus!
