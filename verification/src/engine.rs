//! The rule engine: from one event and the ordered rules to what is to
//! happen to the device node.

use crate::event::{Action, ActionView, Env};
use crate::rule::{
    applied, apply, Outcome, OutcomeView, Placement, PlacementView, Rule, RuleView,
};
use crate::text::{
    chars_of, find_char, first_index, matches_at, occurs_at, parse_u32, parsed_u32, pieces,
    slice_of, split, split_by, string_of, trim, trimmed,
};
use vstd::prelude::*;

verus! {

/// The value that a line gives to `key`: what follows `key` and an equals
/// sign at the start of the line.
pub open spec fn line_value(line: Seq<char>, key: Seq<char>) -> Option<Seq<char>> {
    if occurs_at(line, 0, key.push('=')) {
        Some(line.skip(key.len() as int + 1))
    } else {
        None
    }
}

/// The value that the last of the lines that give one gives to `key`.
pub open spec fn last_value(lines: Seq<Seq<char>>, key: Seq<char>) -> Option<Seq<char>>
    decreases lines.len(),
{
    if lines.len() == 0 {
        None
    } else {
        match line_value(lines.last(), key) {
            Some(value) => Some(value),
            None => last_value(lines.drop_last(), key),
        }
    }
}

/// The last of `parts` that is not empty; the empty text where all are.
pub open spec fn last_nonempty(parts: Seq<Seq<char>>) -> Seq<char>
    decreases parts.len(),
{
    if parts.len() == 0 {
        Seq::empty()
    } else if parts.last().len() > 0 {
        parts.last()
    } else {
        last_nonempty(parts.drop_last())
    }
}

/// The final segment of a path: what stands between its last two separators,
/// or after the last one, separators at the end not counted.
pub open spec fn final_segment(path: Seq<char>) -> Seq<char> {
    last_nonempty(split_by(path, '/'))
}

/// The name of the device of an event: the variable `DEVNAME`; else what the
/// last `DEVNAME=` line of the object's own attributes gives; else the final
/// segment of the object's path.
pub open spec fn device_name_of(
    env: Map<Seq<char>, Seq<char>>,
    attributes: Option<Seq<char>>,
    device_path: Seq<char>,
) -> Seq<char> {
    if env.contains_key("DEVNAME"@) {
        env["DEVNAME"@]
    } else {
        match attributes {
            Some(text) => match last_value(split_by(text, '\n'), "DEVNAME"@) {
                Some(name) => name,
                None => final_segment(device_path),
            },
            None => final_segment(device_path),
        }
    }
}

fn find_last_value(lines: &Vec<Vec<char>>, key: &Vec<char>) -> (r: Option<Vec<char>>)
    ensures
        match r {
            Some(value) => last_value(pieces(lines@), key@) == Some(value@),
            None => last_value(pieces(lines@), key@) is None,
        },
{
    let mut prefix: Vec<char> = Vec::new();
    let mut k: usize = 0;
    while k < key.len()
        invariant
            k <= key.len(),
            prefix@ == key@.take(k as int),
        decreases key.len() - k,
    {
        prefix.push(key[k]);
        assert(key@.take(k + 1) == key@.take(k as int).push(key@[k as int]));
        k += 1;
    }
    assert(key@.take(key.len() as int) == key@);
    prefix.push('=');
    let mut i: usize = lines.len();
    assert(pieces(lines@).take(i as int) == pieces(lines@));
    while i > 0
        invariant
            i <= lines.len(),
            prefix@ == key@.push('='),
            last_value(pieces(lines@), key@) == last_value(pieces(lines@).take(i as int), key@),
        decreases i,
    {
        let line = &lines[i - 1];
        assert(pieces(lines@).take(i as int).last() == line@);
        assert(pieces(lines@).take(i as int).drop_last() == pieces(lines@).take(i - 1));
        if matches_at(line, 0, &prefix) {
            let value = slice_of(line, prefix.len(), line.len());
            return Some(value);
        }
        i -= 1;
    }
    None
}

fn find_last_nonempty(parts: &Vec<Vec<char>>) -> (r: Vec<char>)
    ensures
        r@ == last_nonempty(pieces(parts@)),
{
    let mut i: usize = parts.len();
    assert(pieces(parts@).take(i as int) == pieces(parts@));
    while i > 0
        invariant
            i <= parts.len(),
            last_nonempty(pieces(parts@)) == last_nonempty(pieces(parts@).take(i as int)),
        decreases i,
    {
        let part = &parts[i - 1];
        assert(pieces(parts@).take(i as int).last() == part@);
        assert(pieces(parts@).take(i as int).drop_last() == pieces(parts@).take(i - 1));
        if part.len() > 0 {
            return slice_of(part, 0, part.len());
        }
        i -= 1;
    }
    Vec::new()
}

/// The name of the device of an event: computes `device_name_of`.
/// `attributes` is the text of the object's own attributes, where it could
/// be read.
pub fn resolve_device_name(env: &Env, attributes: Option<&str>, device_path: &str) -> (name: String)
    ensures
        name@ == device_name_of(
            env@,
            match attributes {
                Some(text) => Some(text@),
                None => None,
            },
            device_path@,
        ),
{
    if let Some(name) = env.get("DEVNAME") {
        return name.clone();
    }
    if let Some(text) = attributes {
        let lines = split(&chars_of(text), '\n');
        let key = chars_of("DEVNAME");
        if let Some(name) = find_last_value(&lines, &key) {
            return string_of(&name);
        }
    }
    let segments = split(&chars_of(device_path), '/');
    string_of(&find_last_nonempty(&segments))
}

/// The text of a device-number attribute is not two numbers.
#[derive(Debug, Clone, Copy, PartialEq, Eq)]
pub struct InvalidDeviceNumber;

/// The device number that the text of a `dev` attribute gives: with the
/// white space around it taken off, the major and the minor number on either
/// side of its first colon. A text without colon gives no number; one whose
/// sides are not both numbers is refused.
pub open spec fn device_number_of(text: Seq<char>) -> Result<Option<(u32, u32)>, InvalidDeviceNumber> {
    let body = trimmed(text);
    let colon = first_index(body, ':');
    if colon == body.len() {
        Ok(None)
    } else {
        match (parsed_u32(body.take(colon)), parsed_u32(body.skip(colon + 1))) {
            (Some(major), Some(minor)) => Ok(Some((major, minor))),
            _ => Err(InvalidDeviceNumber),
        }
    }
}

/// Computes `device_number_of`.
pub fn parse_device_number(text: &str) -> (r: Result<Option<(u32, u32)>, InvalidDeviceNumber>)
    ensures
        r == device_number_of(text@),
{
    let body = trim(&chars_of(text));
    let colon = find_char(&body, ':');
    if colon == body.len() {
        return Ok(None);
    }
    let major = parse_u32(&slice_of(&body, 0, colon));
    let minor = parse_u32(&slice_of(&body, colon + 1, body.len()));
    match (major, minor) {
        (Some(major), Some(minor)) => Ok(Some((major, minor))),
        _ => Err(InvalidDeviceNumber),
    }
}

/// The kind of special file that a device gets.
#[derive(Debug, Clone, Copy, PartialEq, Eq)]
pub enum NodeKind {
    Block,
    Character,
}

/// A device is a block device where a segment of its object path is
/// `block`, and a character device otherwise.
pub open spec fn node_kind_of(device_path: Seq<char>) -> NodeKind {
    if split_by(device_path, '/').contains("block"@) {
        NodeKind::Block
    } else {
        NodeKind::Character
    }
}

/// Computes `node_kind_of`.
pub fn node_kind(device_path: &str) -> (kind: NodeKind)
    ensures
        kind == node_kind_of(device_path@),
{
    let segments = split(&chars_of(device_path), '/');
    let name = chars_of("block");
    let mut i: usize = 0;
    while i < segments.len()
        invariant
            i <= segments.len(),
            name@ == "block"@,
            pieces(segments@) == split_by(device_path@, '/'),
            forall|k: int| 0 <= k < i ==> (#[trigger] pieces(segments@)[k]) != "block"@,
        decreases segments.len() - i,
    {
        let segment = &segments[i];
        assert(pieces(segments@)[i as int] == segment@);
        if segment.len() == name.len() && matches_at(segment, 0, &name) {
            assert(segment@.subrange(0, segment@.len() as int) == segment@);
            assert(pieces(segments@)[i as int] == "block"@);
            return NodeKind::Block;
        }
        assert(segment@ != "block"@) by {
            if segment@ == "block"@ {
                assert(segment@.subrange(0, segment@.len() as int) == segment@);
            }
        }
        i += 1;
    }
    NodeKind::Character
}

/// What is done about the node.
#[derive(Debug, Clone, PartialEq, Eq)]
pub enum Disposition {
    /// Make the special file of this device number and kind.
    Create { major: u32, minor: u32, kind: NodeKind },
    /// Take the node away.
    Remove,
    /// Move the node to `target`, inside `directory`.
    Relocate { directory: String, target: String },
    /// Make a link to the node at `target`, inside `directory`.
    LinkAt { directory: String, target: String },
    /// Leave the file system as it is.
    Retain,
}

/// What is to happen for one event.
#[derive(Debug, Clone, PartialEq, Eq)]
pub enum ActionDescriptor {
    /// No node is to exist or to be touched.
    Suppressed,
    /// The rule that decided names the node and says what is done about it.
    Node {
        /// The name of the device before any rule moved it.
        device_name: String,
        final_device_name: String,
        disposition: Disposition,
        owner: String,
        group: String,
        mode: u32,
    },
}

/// The view of a disposition.
pub enum DispositionView {
    Create { major: u32, minor: u32, kind: NodeKind },
    Remove,
    Relocate { directory: Seq<char>, target: Seq<char> },
    LinkAt { directory: Seq<char>, target: Seq<char> },
    Retain,
}

/// The view of an action descriptor.
pub enum ActionDescriptorView {
    Suppressed,
    Node {
        device_name: Seq<char>,
        final_device_name: Seq<char>,
        disposition: DispositionView,
        owner: Seq<char>,
        group: Seq<char>,
        mode: u32,
    },
}

impl View for Disposition {
    type V = DispositionView;

    open spec fn view(&self) -> DispositionView {
        match *self {
            Disposition::Create { major, minor, kind } => DispositionView::Create {
                major,
                minor,
                kind,
            },
            Disposition::Remove => DispositionView::Remove,
            Disposition::Relocate { directory, target } => DispositionView::Relocate {
                directory: directory@,
                target: target@,
            },
            Disposition::LinkAt { directory, target } => DispositionView::LinkAt {
                directory: directory@,
                target: target@,
            },
            Disposition::Retain => DispositionView::Retain,
        }
    }
}

impl View for ActionDescriptor {
    type V = ActionDescriptorView;

    open spec fn view(&self) -> ActionDescriptorView {
        match *self {
            ActionDescriptor::Suppressed => ActionDescriptorView::Suppressed,
            ActionDescriptor::Node {
                device_name,
                final_device_name,
                disposition,
                owner,
                group,
                mode,
            } => ActionDescriptorView::Node {
                device_name: device_name@,
                final_device_name: final_device_name@,
                disposition: disposition@,
                owner: owner@,
                group: group@,
                mode,
            },
        }
    }
}

/// What an event has to say to every rule: its variables, the number and
/// the kind of its device, what happened, and the name of the device.
pub struct Subject {
    pub env: Map<Seq<char>, Seq<char>>,
    pub number: Option<(u32, u32)>,
    pub action: ActionView,
    pub kind: NodeKind,
    pub device_name: Seq<char>,
}

/// What is done about a node that stays where a rule found it: a device that
/// is added and has a number gets its special file, one that is removed
/// loses it, and nothing is done otherwise.
pub open spec fn disposition_in_place(
    action: ActionView,
    number: Option<(u32, u32)>,
    kind: NodeKind,
) -> DispositionView {
    match action {
        ActionView::Add => match number {
            Some((major, minor)) => DispositionView::Create { major, minor, kind },
            None => DispositionView::Retain,
        },
        ActionView::Remove => DispositionView::Remove,
        _ => DispositionView::Retain,
    }
}

/// What a rule that applies to the device, and does not forbid the node,
/// decides for the event: the rule gives the owner, the group and the
/// permission bits, and where it moves the node or links to it, that is what
/// is done.
pub open spec fn described(
    rule: RuleView,
    final_device_name: Seq<char>,
    placement: PlacementView,
    device_name: Seq<char>,
    action: ActionView,
    number: Option<(u32, u32)>,
    kind: NodeKind,
) -> ActionDescriptorView {
    ActionDescriptorView::Node {
        device_name,
        final_device_name,
        disposition: match placement {
            PlacementView::InPlace => disposition_in_place(action, number, kind),
            PlacementView::Relocate { directory, target } => DispositionView::Relocate {
                directory,
                target,
            },
            PlacementView::LinkAt { directory, target } => DispositionView::LinkAt {
                directory,
                target,
            },
        },
        owner: rule.owner,
        group: rule.group,
        mode: rule.mode,
    }
}

/// What the rule `rule` decides for the event, where it applies with the
/// final device name `final_device_name` and the placement `placement`.
pub open spec fn decided(
    rule: RuleView,
    final_device_name: Seq<char>,
    placement: PlacementView,
    subject: Subject,
) -> ActionDescriptorView {
    described(
        rule,
        final_device_name,
        placement,
        subject.device_name,
        subject.action,
        subject.number,
        subject.kind,
    )
}

/// What the rules decide, taken in order, when `current` is what the rules
/// before them have decided.
///
/// A rule that does not apply changes nothing. A rule that forbids the node
/// suppresses the event, whatever follows it. Any other rule that applies
/// overrides what was decided before it, and ends the evaluation where it
/// says stop.
pub open spec fn evaluated_from(
    rules: Seq<RuleView>,
    subject: Subject,
    current: ActionDescriptorView,
) -> ActionDescriptorView
    decreases rules.len(),
{
    if rules.len() == 0 {
        current
    } else {
        match applied(rules[0], subject.env, subject.number, subject.device_name) {
            OutcomeView::NoMatch => evaluated_from(rules.skip(1), subject, current),
            OutcomeView::Prevent => ActionDescriptorView::Suppressed,
            OutcomeView::Matched { device_name, placement } => {
                let decision = decided(rules[0], device_name, placement, subject);
                if rules[0].stop {
                    decision
                } else {
                    evaluated_from(rules.skip(1), subject, decision)
                }
            },
        }
    }
}

/// What the rules decide for an event: the event is suppressed where no rule
/// applies.
pub open spec fn evaluated(rules: Seq<RuleView>, subject: Subject) -> ActionDescriptorView {
    evaluated_from(rules, subject, ActionDescriptorView::Suppressed)
}

/// The views of a list of rules.
pub open spec fn rule_views(rules: Seq<Rule>) -> Seq<RuleView> {
    rules.map_values(|r: Rule| r@)
}

fn describe(
    rule: &Rule,
    final_device_name: String,
    placement: Placement,
    action: &Action,
    device_number: Option<(u32, u32)>,
    kind: NodeKind,
    device_name: &str,
) -> (decision: ActionDescriptor)
    ensures
        decision@ == described(
            rule@,
            final_device_name@,
            placement@,
            device_name@,
            action@,
            device_number,
            kind,
        ),
{
    let disposition = match placement {
        Placement::InPlace => match action {
            Action::Add => match device_number {
                Some((major, minor)) => Disposition::Create { major, minor, kind },
                None => Disposition::Retain,
            },
            Action::Remove => Disposition::Remove,
            _ => Disposition::Retain,
        },
        Placement::Relocate { directory, target } => Disposition::Relocate { directory, target },
        Placement::LinkAt { directory, target } => Disposition::LinkAt { directory, target },
    };
    ActionDescriptor::Node {
        device_name: device_name.to_owned(),
        final_device_name,
        disposition,
        owner: rule.owner.clone(),
        group: rule.group.clone(),
        mode: rule.mode,
    }
}

/// Evaluates the rules in order for one event: computes `evaluated`.
pub fn evaluate(
    rules: &Vec<Rule>,
    env: &Env,
    device_number: Option<(u32, u32)>,
    action: &Action,
    kind: NodeKind,
    device_name: &str,
) -> (decision: ActionDescriptor)
    ensures
        decision@ == evaluated(
            rule_views(rules@),
            Subject {
                env: env@,
                number: device_number,
                action: action@,
                kind,
                device_name: device_name@,
            },
        ),
{
    let ghost subject = Subject {
        env: env@,
        number: device_number,
        action: action@,
        kind,
        device_name: device_name@,
    };
    let ghost all = rule_views(rules@);
    let mut current = ActionDescriptor::Suppressed;
    let mut i: usize = 0;
    assert(all.skip(0) == all);
    while i < rules.len()
        invariant
            i <= rules.len(),
            all == rule_views(rules@),
            subject == (Subject {
                env: env@,
                number: device_number,
                action: action@,
                kind,
                device_name: device_name@,
            }),
            evaluated_from(all.skip(i as int), subject, current@) == evaluated(all, subject),
        decreases rules.len() - i,
    {
        let rule = &rules[i];
        assert(all.skip(i as int)[0] == rule@);
        assert(all.skip(i as int).skip(1) == all.skip(i + 1));
        match apply(rule, env, device_number, device_name) {
            Outcome::NoMatch => {},
            Outcome::Prevent => {
                return ActionDescriptor::Suppressed;
            },
            Outcome::Matched { device_name: final_device_name, placement } => {
                let decision = describe(
                    rule,
                    final_device_name,
                    placement,
                    action,
                    device_number,
                    kind,
                    device_name,
                );
                if rule.stop {
                    return decision;
                }
                current = decision;
            },
        }
        i += 1;
    }
    current
}

/// What is to happen for an event, from what was received and read: the
/// device number comes from the text of the object's `dev` attribute, where
/// it could be read, and the device name from the variables, the object's
/// own attributes or its path. A `dev` attribute that is not a device number
/// fails the event.
pub open spec fn reacted(
    device_path: Seq<char>,
    env: Map<Seq<char>, Seq<char>>,
    action: ActionView,
    rules: Seq<RuleView>,
    number_attribute: Option<Seq<char>>,
    attributes: Option<Seq<char>>,
) -> Result<ActionDescriptorView, InvalidDeviceNumber> {
    let number = match number_attribute {
        Some(text) => device_number_of(text),
        None => Ok(None),
    };
    match number {
        Err(refusal) => Err(refusal),
        Ok(number) => Ok(
            evaluated(
                rules,
                Subject {
                    env,
                    number,
                    action,
                    kind: node_kind_of(device_path),
                    device_name: device_name_of(env, attributes, device_path),
                },
            ),
        ),
    }
}

/// Decides what is to happen for one event: computes `reacted`.
///
/// `number_attribute` is the text of the object's `dev` attribute and
/// `attributes` that of its own attributes, each where it could be read.
pub fn react_to_event(
    device_path: &str,
    env: &Env,
    action: &Action,
    rules: &Vec<Rule>,
    number_attribute: Option<&str>,
    attributes: Option<&str>,
) -> (r: Result<ActionDescriptor, InvalidDeviceNumber>)
    ensures
        reacted(
            device_path@,
            env@,
            action@,
            rule_views(rules@),
            match number_attribute {
                Some(text) => Some(text@),
                None => None,
            },
            match attributes {
                Some(text) => Some(text@),
                None => None,
            },
        ) == match r {
            Ok(decision) => Ok::<ActionDescriptorView, InvalidDeviceNumber>(decision@),
            Err(refusal) => Err(refusal),
        },
{
    let device_name = resolve_device_name(env, attributes, device_path);
    let device_number = match number_attribute {
        Some(text) => match parse_device_number(text) {
            Ok(number) => number,
            Err(refusal) => {
                return Err(refusal);
            },
        },
        None => None,
    };
    let kind = node_kind(device_path);
    Ok(evaluate(rules, env, device_number, action, kind, device_name.as_str()))
}

/// Rule order is significant: of two rules that both apply to an event, the
/// first without saying stop and neither forbidding the node, the second
/// decides.
pub proof fn lemma_later_rule_overrides(first: RuleView, second: RuleView, subject: Subject)
    requires
        applied(first, subject.env, subject.number, subject.device_name) is Matched,
        applied(second, subject.env, subject.number, subject.device_name) is Matched,
        !first.stop,
    ensures
        evaluated(seq![first, second], subject) == decided(
            second,
            applied(second, subject.env, subject.number, subject.device_name)->device_name,
            applied(second, subject.env, subject.number, subject.device_name)->placement,
            subject,
        ),
{
    let rules = seq![first, second];
    assert(rules[0] == first);
    assert(rules.skip(1)[0] == second);
    assert(rules.skip(1).skip(1).len() == 0);
    reveal_with_fuel(evaluated_from, 3);
}

/// A rule that applies and says stop ends the evaluation: the rules after it
/// have no say, whatever they are.
pub proof fn lemma_stop_ends_evaluation(
    before: Seq<RuleView>,
    rule: RuleView,
    after: Seq<RuleView>,
    subject: Subject,
    current: ActionDescriptorView,
)
    requires
        rule.stop,
        !(applied(rule, subject.env, subject.number, subject.device_name) is NoMatch),
    ensures
        evaluated_from(before + seq![rule] + after, subject, current) == evaluated_from(
            before + seq![rule],
            subject,
            current,
        ),
    decreases before.len(),
{
    let long = before + seq![rule] + after;
    let short = before + seq![rule];
    if before.len() == 0 {
        assert(long[0] == rule);
        assert(short[0] == rule);
    } else {
        assert(long[0] == before[0]);
        assert(short[0] == before[0]);
        assert(long.skip(1) == before.skip(1) + seq![rule] + after);
        assert(short.skip(1) == before.skip(1) + seq![rule]);
        match applied(before[0], subject.env, subject.number, subject.device_name) {
            OutcomeView::NoMatch => {
                lemma_stop_ends_evaluation(before.skip(1), rule, after, subject, current);
            },
            OutcomeView::Prevent => {},
            OutcomeView::Matched { device_name, placement } => {
                lemma_stop_ends_evaluation(
                    before.skip(1),
                    rule,
                    after,
                    subject,
                    decided(before[0], device_name, placement, subject),
                );
            },
        }
    }
}

/// A rule that applies and forbids the node suppresses the event, whether or
/// not it says stop and whatever rules follow it, provided that the
/// evaluation reaches it: no rule before it applies and says stop.
pub proof fn lemma_prevent_suppresses(
    before: Seq<RuleView>,
    rule: RuleView,
    after: Seq<RuleView>,
    subject: Subject,
    current: ActionDescriptorView,
)
    requires
        applied(rule, subject.env, subject.number, subject.device_name) is Prevent,
        forall|i: int|
            0 <= i < before.len() && applied(
                #[trigger] before[i],
                subject.env,
                subject.number,
                subject.device_name,
            ) is Matched ==> !before[i].stop,
    ensures
        evaluated_from(before + seq![rule] + after, subject, current)
            == ActionDescriptorView::Suppressed,
    decreases before.len(),
{
    let rules = before + seq![rule] + after;
    if before.len() == 0 {
        assert(rules[0] == rule);
    } else {
        assert(rules[0] == before[0]);
        assert(rules.skip(1) == before.skip(1) + seq![rule] + after);
        assert forall|i: int|
            0 <= i < before.skip(1).len() && applied(
                #[trigger] before.skip(1)[i],
                subject.env,
                subject.number,
                subject.device_name,
            ) is Matched implies !before.skip(1)[i].stop by {
            assert(before.skip(1)[i] == before[i + 1]);
        }
        match applied(before[0], subject.env, subject.number, subject.device_name) {
            OutcomeView::NoMatch => {
                lemma_prevent_suppresses(before.skip(1), rule, after, subject, current);
            },
            OutcomeView::Prevent => {},
            OutcomeView::Matched { device_name, placement } => {
                assert(!before[0].stop);
                lemma_prevent_suppresses(
                    before.skip(1),
                    rule,
                    after,
                    subject,
                    decided(before[0], device_name, placement, subject),
                );
            },
        }
    }
}

/// Where no rule applies, the event is suppressed.
pub proof fn lemma_no_match_suppresses(rules: Seq<RuleView>, subject: Subject)
    requires
        forall|i: int|
            0 <= i < rules.len() ==> applied(
                #[trigger] rules[i],
                subject.env,
                subject.number,
                subject.device_name,
            ) is NoMatch,
    ensures
        evaluated(rules, subject) == ActionDescriptorView::Suppressed,
    decreases rules.len(),
{
    if rules.len() > 0 {
        assert forall|i: int| 0 <= i < rules.skip(1).len() implies applied(
            #[trigger] rules.skip(1)[i],
            subject.env,
            subject.number,
            subject.device_name,
        ) is NoMatch by {
            assert(rules.skip(1)[i] == rules[i + 1]);
        }
        lemma_no_match_suppresses(rules.skip(1), subject);
    }
}

} // verus!
