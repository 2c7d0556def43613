//! Rules, and what one rule decides about one device.

use crate::event::Env;
use crate::pattern::{find_all, is_match, regex_is_match, regex_matches, texts};
use crate::text::{
    chars_of, decimal, decimal_of, digit_value, lemma_decimal_length, lemma_decimal_value,
    lemma_replaced_whole, lemma_replaced_without_occurrence, occurs_at, replace_all, replaced,
    slice_of, string_of,
};
use vstd::prelude::*;

verus! {

/// A variable that must be set and must match a pattern.
#[derive(Debug, Clone, PartialEq, Eq)]
pub struct EnvMatch {
    pub variable: String,
    pub regex: String,
}

/// What a rule asks of the device itself.
#[derive(Debug, Clone, PartialEq, Eq)]
pub enum Filter {
    /// The device number: `major` exactly, the minor from `min` to
    /// `max_minor`, or `min` alone where no upper end is given.
    MajorMinor { major: u32, min: u32, max_minor: Option<u32> },
    /// A pattern for the variable `source_variable`, or for the device name
    /// where none is given.
    DeviceRegex { regex: String, source_variable: Option<String> },
}

/// What a rule asks for when the node is made.
#[derive(Debug, Clone, PartialEq, Eq)]
pub enum OnCreation {
    MoveTo(String),
    SymlinkTo(String),
    Prevent,
}

/// One rule of the rule set.
#[derive(Debug, Clone, PartialEq, Eq)]
pub struct Rule {
    pub env_matches: Vec<EnvMatch>,
    pub filter: Filter,
    pub owner: String,
    pub group: String,
    pub mode: u32,
    pub on_creation: Option<OnCreation>,
    pub stop: bool,
}

/// Where the node goes.
#[derive(Debug, Clone, PartialEq, Eq)]
pub enum Placement {
    /// At the device name.
    InPlace,
    /// At `target`, inside `directory`.
    Relocate { directory: String, target: String },
    /// At the device name, with a link to it at `target`, inside `directory`.
    LinkAt { directory: String, target: String },
}

/// What one rule decides about one device.
#[derive(Debug, Clone, PartialEq, Eq)]
pub enum Outcome {
    /// The rule does not apply to the device.
    NoMatch,
    /// The rule applies and forbids the node.
    Prevent,
    /// The rule applies: the node is named `device_name`.
    Matched { device_name: String, placement: Placement },
}

/// The view of a variable match.
pub struct EnvMatchView {
    pub variable: Seq<char>,
    pub regex: Seq<char>,
}

/// The view of a filter.
pub enum FilterView {
    MajorMinor { major: u32, min: u32, max_minor: Option<u32> },
    DeviceRegex { regex: Seq<char>, source_variable: Option<Seq<char>> },
}

/// The view of a wish for the node.
pub enum OnCreationView {
    MoveTo(Seq<char>),
    SymlinkTo(Seq<char>),
    Prevent,
}

/// The view of a rule.
pub struct RuleView {
    pub env_matches: Seq<EnvMatchView>,
    pub filter: FilterView,
    pub owner: Seq<char>,
    pub group: Seq<char>,
    pub mode: u32,
    pub on_creation: Option<OnCreationView>,
    pub stop: bool,
}

/// The view of a placement.
pub enum PlacementView {
    InPlace,
    Relocate { directory: Seq<char>, target: Seq<char> },
    LinkAt { directory: Seq<char>, target: Seq<char> },
}

/// The view of an outcome.
pub enum OutcomeView {
    NoMatch,
    Prevent,
    Matched { device_name: Seq<char>, placement: PlacementView },
}

impl View for EnvMatch {
    type V = EnvMatchView;

    open spec fn view(&self) -> EnvMatchView {
        EnvMatchView { variable: self.variable@, regex: self.regex@ }
    }
}

impl View for Filter {
    type V = FilterView;

    open spec fn view(&self) -> FilterView {
        match *self {
            Filter::MajorMinor { major, min, max_minor } => FilterView::MajorMinor {
                major,
                min,
                max_minor,
            },
            Filter::DeviceRegex { regex, source_variable } => FilterView::DeviceRegex {
                regex: regex@,
                source_variable: match source_variable {
                    Some(name) => Some(name@),
                    None => None,
                },
            },
        }
    }
}

impl View for OnCreation {
    type V = OnCreationView;

    open spec fn view(&self) -> OnCreationView {
        match *self {
            OnCreation::MoveTo(path) => OnCreationView::MoveTo(path@),
            OnCreation::SymlinkTo(path) => OnCreationView::SymlinkTo(path@),
            OnCreation::Prevent => OnCreationView::Prevent,
        }
    }
}

/// The view of what a rule asks for when the node is made, if anything.
pub open spec fn on_creation_view(on_creation: Option<OnCreation>) -> Option<OnCreationView> {
    match on_creation {
        Some(wish) => Some(wish@),
        None => None,
    }
}

impl View for Rule {
    type V = RuleView;

    open spec fn view(&self) -> RuleView {
        RuleView {
            env_matches: self.env_matches@.map_values(|m: EnvMatch| m@),
            filter: self.filter@,
            owner: self.owner@,
            group: self.group@,
            mode: self.mode,
            on_creation: on_creation_view(self.on_creation),
            stop: self.stop,
        }
    }
}

impl View for Placement {
    type V = PlacementView;

    open spec fn view(&self) -> PlacementView {
        match *self {
            Placement::InPlace => PlacementView::InPlace,
            Placement::Relocate { directory, target } => PlacementView::Relocate {
                directory: directory@,
                target: target@,
            },
            Placement::LinkAt { directory, target } => PlacementView::LinkAt {
                directory: directory@,
                target: target@,
            },
        }
    }
}

impl View for Outcome {
    type V = OutcomeView;

    open spec fn view(&self) -> OutcomeView {
        match *self {
            Outcome::NoMatch => OutcomeView::NoMatch,
            Outcome::Prevent => OutcomeView::Prevent,
            Outcome::Matched { device_name, placement } => OutcomeView::Matched {
                device_name: device_name@,
                placement: placement@,
            },
        }
    }
}

/// A path that ends in a separator names a directory.
pub open spec fn is_directory(path: Seq<char>) -> bool {
    path.len() > 0 && path.last() == '/'
}

/// Decides `is_directory`.
pub fn is_dir(path: &str) -> (r: bool)
    ensures
        r == is_directory(path@),
{
    let chars = chars_of(path);
    chars.len() > 0 && chars[chars.len() - 1] == '/'
}

/// The position of the last separator in `path`, or -1 where it has none.
pub open spec fn last_separator(path: Seq<char>) -> int
    decreases path.len(),
{
    if path.len() == 0 {
        -1
    } else if path.last() == '/' {
        path.len() - 1
    } else {
        last_separator(path.drop_last())
    }
}

/// What stands before the last separator of `path`; nothing where it has
/// none.
pub open spec fn parent_directory(path: Seq<char>) -> Seq<char> {
    if last_separator(path) < 0 {
        Seq::empty()
    } else {
        path.take(last_separator(path))
    }
}

/// The directory that a path template names: itself where it names a
/// directory, else what contains it.
pub open spec fn directory_of(path: Seq<char>) -> Seq<char> {
    if is_directory(path) {
        path
    } else {
        parent_directory(path)
    }
}

/// The full path that a path template names for a device: the device name
/// inside it where it names a directory, else itself.
pub open spec fn target_of(path: Seq<char>, device_name: Seq<char>) -> Seq<char> {
    if is_directory(path) {
        path + device_name
    } else {
        path
    }
}

/// Computes `parent_directory`.
pub fn parent_of(path: &Vec<char>) -> (parent: Vec<char>)
    ensures
        parent@ == parent_directory(path@),
{
    let mut end: usize = path.len();
    assert(path@.take(end as int) == path@);
    while end > 0 && path[end - 1] != '/'
        invariant
            end <= path.len(),
            last_separator(path@) == last_separator(path@.take(end as int)),
        decreases end,
    {
        assert(path@.take(end as int).drop_last() == path@.take(end - 1));
        end -= 1;
    }
    if end > 0 {
        assert(path@.take(end as int).last() == '/');
        slice_of(path, 0, end - 1)
    } else {
        assert(path@.take(0).len() == 0);
        Vec::new()
    }
}

/// Computes `directory_of` and `target_of`.
pub fn destination(path: &str, device_name: &str) -> (r: (String, String))
    ensures
        r.0@ == directory_of(path@),
        r.1@ == target_of(path@, device_name@),
{
    let chars = chars_of(path);
    if chars.len() > 0 && chars[chars.len() - 1] == '/' {
        let name = chars_of(device_name);
        let mut target = chars_of(path);
        let mut i: usize = 0;
        while i < name.len()
            invariant
                i <= name.len(),
                target@ == path@ + name@.take(i as int),
            decreases name.len() - i,
        {
            target.push(name[i]);
            assert(name@.take(i + 1) == name@.take(i as int).push(name@[i as int]));
            i += 1;
        }
        assert(name@.take(name.len() as int) == name@);
        (path.to_owned(), string_of(&target))
    } else {
        let parent = parent_of(&chars);
        (string_of(&parent), path.to_owned())
    }
}

/// The text that stands in a path template for the match numbered `n`.
pub open spec fn placeholder(n: nat) -> Seq<char> {
    seq!['%'] + decimal(n)
}

/// `template` with the placeholders of the matches numbered `upto` down to 1
/// replaced by those matches, the highest number first, so that the
/// placeholder of match 10 is not taken for that of match 1.
pub open spec fn substituted(template: Seq<char>, captures: Seq<Seq<char>>, upto: nat) -> Seq<
    char,
>
    decreases upto,
{
    if upto == 0 {
        template
    } else {
        substituted(
            replaced(template, placeholder(upto), captures[upto - 1]),
            captures,
            (upto - 1) as nat,
        )
    }
}

/// Replaces in `path` the placeholder of each match by the match: `%1` by the
/// first of `matches`, `%2` by the second, and so on, the highest number
/// first.
pub fn replace_in_path(path: &mut String, matches: &Vec<String>)
    ensures
        final(path)@ == substituted(old(path)@, texts(matches@), matches@.len()),
{
    let mut current = chars_of(path.as_str());
    let mut k: usize = matches.len();
    while k > 0
        invariant
            k <= matches.len(),
            substituted(current@, texts(matches@), k as nat) == substituted(
                old(path)@,
                texts(matches@),
                matches@.len(),
            ),
        decreases k,
    {
        let mut key: Vec<char> = Vec::new();
        key.push('%');
        let mut digits = decimal_of(k);
        key.append(&mut digits);
        assert(key@ == placeholder(k as nat));
        let value = chars_of(matches[k - 1].as_str());
        assert(value@ == texts(matches@)[k - 1]);
        current = replace_all(&current, &key, &value);
        k -= 1;
    }
    *path = string_of(&current);
}

/// What a rule's wish for the node, taken as it stands, means for a device.
pub open spec fn placed(on_creation: Option<OnCreationView>, device_name: Seq<char>) -> OutcomeView {
    match on_creation {
        None => OutcomeView::Matched { device_name, placement: PlacementView::InPlace },
        Some(OnCreationView::Prevent) => OutcomeView::Prevent,
        Some(OnCreationView::MoveTo(path)) => OutcomeView::Matched {
            device_name: target_of(path, device_name),
            placement: PlacementView::Relocate {
                directory: directory_of(path),
                target: target_of(path, device_name),
            },
        },
        Some(OnCreationView::SymlinkTo(path)) => OutcomeView::Matched {
            device_name,
            placement: PlacementView::LinkAt {
                directory: directory_of(path),
                target: target_of(path, device_name),
            },
        },
    }
}

/// Computes `placed`.
pub fn place(on_creation: Option<&OnCreation>, device_name: &str) -> (outcome: Outcome)
    ensures
        outcome@ == placed(
            match on_creation {
                Some(wish) => Some(wish@),
                None => None,
            },
            device_name@,
        ),
{
    match on_creation {
        None => Outcome::Matched {
            device_name: device_name.to_owned(),
            placement: Placement::InPlace,
        },
        Some(OnCreation::Prevent) => Outcome::Prevent,
        Some(OnCreation::MoveTo(path)) => {
            let (directory, target) = destination(path.as_str(), device_name);
            let name = target.clone();
            Outcome::Matched { device_name: name, placement: Placement::Relocate { directory, target } }
        },
        Some(OnCreation::SymlinkTo(path)) => {
            let (directory, target) = destination(path.as_str(), device_name);
            Outcome::Matched {
                device_name: device_name.to_owned(),
                placement: Placement::LinkAt { directory, target },
            }
        },
    }
}

/// A rule's wish for the node with the matches put into its path template.
pub open spec fn expanded(on_creation: OnCreationView, captures: Seq<Seq<char>>) -> OnCreationView {
    match on_creation {
        OnCreationView::MoveTo(path) => OnCreationView::MoveTo(
            substituted(path, captures, captures.len()),
        ),
        OnCreationView::SymlinkTo(path) => OnCreationView::SymlinkTo(
            substituted(path, captures, captures.len()),
        ),
        OnCreationView::Prevent => OnCreationView::Prevent,
    }
}

/// What a rule with a wish for the node decides once the matches of its
/// pattern in the subject are known: without a match it does not apply; else
/// the matches go into the path template and the wish is carried out.
pub open spec fn placed_with_captures(
    on_creation: OnCreationView,
    captures: Seq<Seq<char>>,
    device_name: Seq<char>,
) -> OutcomeView {
    if captures.len() == 0 {
        OutcomeView::NoMatch
    } else {
        placed(Some(expanded(on_creation, captures)), device_name)
    }
}

/// Computes `placed_with_captures`.
pub fn place_with_captures(on_creation: &OnCreation, captures: &Vec<String>, device_name: &str) -> (outcome:
    Outcome)
    ensures
        outcome@ == placed_with_captures(on_creation@, texts(captures@), device_name@),
{
    if captures.len() == 0 {
        return Outcome::NoMatch;
    }
    match on_creation {
        OnCreation::MoveTo(path) => {
            let mut path = path.clone();
            replace_in_path(&mut path, captures);
            let wish = OnCreation::MoveTo(path);
            place(Some(&wish), device_name)
        },
        OnCreation::SymlinkTo(path) => {
            let mut path = path.clone();
            replace_in_path(&mut path, captures);
            let wish = OnCreation::SymlinkTo(path);
            place(Some(&wish), device_name)
        },
        OnCreation::Prevent => Outcome::Prevent,
    }
}

/// The variable is set and its value matches the pattern.
pub open spec fn env_match_holds(m: EnvMatchView, env: Map<Seq<char>, Seq<char>>) -> bool {
    env.contains_key(m.variable) && regex_is_match(m.regex, env[m.variable]) == Some(true)
}

/// Every one of the variable matches holds.
pub open spec fn env_admits(matches: Seq<EnvMatchView>, env: Map<Seq<char>, Seq<char>>) -> bool {
    forall|i: int| 0 <= i < matches.len() ==> env_match_holds(#[trigger] matches[i], env)
}

/// Decides `env_admits`.
pub fn admits_env(matches: &Vec<EnvMatch>, env: &Env) -> (r: bool)
    ensures
        r == env_admits(matches@.map_values(|m: EnvMatch| m@), env@),
{
    let ghost views = matches@.map_values(|m: EnvMatch| m@);
    let mut i: usize = 0;
    while i < matches.len()
        invariant
            i <= matches.len(),
            views == matches@.map_values(|m: EnvMatch| m@),
            forall|k: int| 0 <= k < i ==> env_match_holds(#[trigger] views[k], env@),
        decreases matches.len() - i,
    {
        let holds = match env.get(matches[i].variable.as_str()) {
            Some(value) => match is_match(matches[i].regex.as_str(), value.as_str()) {
                Some(found) => found,
                None => false,
            },
            None => false,
        };
        assert(holds == env_match_holds(views[i as int], env@));
        if !holds {
            return false;
        }
        i += 1;
    }
    true
}

/// Whether a device number passes a filter on the number. A device without a
/// known number passes every such filter.
pub open spec fn major_minor_admits(
    major: u32,
    min: u32,
    max_minor: Option<u32>,
    number: Option<(u32, u32)>,
) -> bool {
    match number {
        None => true,
        Some((device_major, device_minor)) => {
            &&& device_major == major
            &&& min <= device_minor
            &&& device_minor <= match max_minor {
                Some(max) => max,
                None => min,
            }
        },
    }
}

/// The text that a pattern filter looks at: the value of the variable it
/// names, or the device name where it names none. There is none where the
/// variable is not set.
pub open spec fn match_subject(
    source_variable: Option<Seq<char>>,
    env: Map<Seq<char>, Seq<char>>,
    device_name: Seq<char>,
) -> Option<Seq<char>> {
    match source_variable {
        Some(name) => if env.contains_key(name) {
            Some(env[name])
        } else {
            None
        },
        None => Some(device_name),
    }
}

/// What `rule` decides about the device named `device_name`, with the
/// variables `env` and the device number `number`.
///
/// The rule does not apply unless all its variable matches hold and its
/// filter lets the device pass. A filter on the number leaves the path
/// template as it stands. A pattern filter of a rule with a wish for the node
/// needs at least one match, and the matches go into the path template; of a
/// rule without such a wish it needs a match somewhere in the subject.
pub open spec fn applied(
    rule: RuleView,
    env: Map<Seq<char>, Seq<char>>,
    number: Option<(u32, u32)>,
    device_name: Seq<char>,
) -> OutcomeView {
    if !env_admits(rule.env_matches, env) {
        OutcomeView::NoMatch
    } else {
        match rule.filter {
            FilterView::MajorMinor { major, min, max_minor } => if major_minor_admits(
                major,
                min,
                max_minor,
                number,
            ) {
                placed(rule.on_creation, device_name)
            } else {
                OutcomeView::NoMatch
            },
            FilterView::DeviceRegex { regex, source_variable } => match match_subject(
                source_variable,
                env,
                device_name,
            ) {
                None => OutcomeView::NoMatch,
                Some(subject) => match rule.on_creation {
                    Some(wish) => match regex_matches(regex, subject) {
                        Some(captures) => placed_with_captures(wish, captures, device_name),
                        None => OutcomeView::NoMatch,
                    },
                    None => if regex_is_match(regex, subject) == Some(true) {
                        placed(None, device_name)
                    } else {
                        OutcomeView::NoMatch
                    },
                },
            },
        }
    }
}

/// Applies one rule to one device: computes `applied`.
pub fn apply(rule: &Rule, env: &Env, device_number: Option<(u32, u32)>, device_name: &str) -> (outcome:
    Outcome)
    ensures
        outcome@ == applied(rule@, env@, device_number, device_name@),
{
    if !admits_env(&rule.env_matches, env) {
        return Outcome::NoMatch;
    }
    match &rule.filter {
        Filter::MajorMinor { major, min, max_minor } => {
            if let Some((device_major, device_minor)) = device_number {
                if device_major != *major {
                    return Outcome::NoMatch;
                }
                let max = match max_minor {
                    Some(max) => *max,
                    None => *min,
                };
                if device_minor < *min || device_minor > max {
                    return Outcome::NoMatch;
                }
            }
            place(rule.on_creation.as_ref(), device_name)
        },
        Filter::DeviceRegex { regex, source_variable } => {
            let subject: &str = match source_variable {
                Some(name) => match env.get(name.as_str()) {
                    Some(value) => value.as_str(),
                    None => {
                        return Outcome::NoMatch;
                    },
                },
                None => device_name,
            };
            match &rule.on_creation {
                Some(wish) => match find_all(regex.as_str(), subject) {
                    Some(captures) => place_with_captures(wish, &captures, device_name),
                    None => Outcome::NoMatch,
                },
                None => match is_match(regex.as_str(), subject) {
                    Some(true) => place(None, device_name),
                    _ => Outcome::NoMatch,
                },
            }
        },
    }
}

/// The placeholder of one match occurs nowhere in that of a lower one.
proof fn lemma_higher_placeholder_is_absent(low: nat, high: nat)
    requires
        low < high,
    ensures
        forall|pos: int| !occurs_at(placeholder(low), pos, placeholder(high)),
{
    lemma_decimal_value(low);
    lemma_decimal_value(high);
    lemma_decimal_length(low, high);
    let text = placeholder(low);
    let key = placeholder(high);
    assert forall|pos: int| !occurs_at(text, pos, key) by {
        if occurs_at(text, pos, key) {
            assert(text.subrange(pos, pos + key.len())[0] == key[0]);
            assert(key[0] == '%');
            if pos > 0 {
                assert(text[pos] == decimal(low)[pos - 1]);
                assert(digit_value(decimal(low)[pos - 1]) is Some);
            } else {
                assert(key.len() == text.len());
                assert(text.subrange(0, text.len() as int) == text);
                assert(decimal(low) == text.skip(1));
                assert(decimal(high) == key.skip(1));
            }
        }
    }
}

/// A text without percent sign holds no placeholder.
proof fn lemma_placeholder_needs_percent(text: Seq<char>, n: nat)
    requires
        !text.contains('%'),
    ensures
        forall|pos: int| !occurs_at(text, pos, placeholder(n)),
{
    let key = placeholder(n);
    assert forall|pos: int| !occurs_at(text, pos, key) by {
        if occurs_at(text, pos, key) {
            assert(text.subrange(pos, pos + key.len())[0] == key[0]);
            assert(text[pos] == '%');
        }
    }
}

/// A text without percent sign is left as it is, whatever the matches are.
proof fn lemma_substituted_without_percent(text: Seq<char>, captures: Seq<Seq<char>>, upto: nat)
    requires
        !text.contains('%'),
    ensures
        substituted(text, captures, upto) == text,
    decreases upto,
{
    if upto > 0 {
        lemma_placeholder_needs_percent(text, upto);
        lemma_replaced_without_occurrence(text, placeholder(upto), captures[upto - 1]);
        lemma_substituted_without_percent(text, captures, (upto - 1) as nat);
    }
}

proof fn lemma_placeholder_survives_higher(k: nat, captures: Seq<Seq<char>>, upto: nat)
    requires
        1 <= k <= upto <= captures.len(),
        !captures[k - 1].contains('%'),
    ensures
        substituted(placeholder(k), captures, upto) == captures[k - 1],
    decreases upto,
{
    if upto == k {
        lemma_replaced_whole(placeholder(k), captures[k - 1]);
        lemma_substituted_without_percent(captures[k - 1], captures, (k - 1) as nat);
    } else {
        lemma_higher_placeholder_is_absent(k, upto);
        lemma_replaced_without_occurrence(placeholder(k), placeholder(upto), captures[upto - 1]);
        lemma_placeholder_survives_higher(k, captures, (upto - 1) as nat);
    }
}

/// A placeholder is replaced whole: a template that is the placeholder of
/// one of the matches becomes that match, however many matches there are,
/// provided that the match holds no percent sign. So the placeholder of
/// match 10 is not taken for that of match 1 and a zero.
pub proof fn lemma_placeholder_is_replaced_whole(k: nat, captures: Seq<Seq<char>>)
    requires
        1 <= k <= captures.len(),
        !captures[k - 1].contains('%'),
    ensures
        substituted(placeholder(k), captures, captures.len()) == captures[k - 1],
{
    lemma_placeholder_survives_higher(k, captures, captures.len());
}

/// A path template that ends in a separator names a directory: the node
/// goes inside it under the device's own name.
pub proof fn lemma_directory_template(path: Seq<char>, device_name: Seq<char>)
    requires
        is_directory(path),
    ensures
        placed(Some(OnCreationView::MoveTo(path)), device_name) == (OutcomeView::Matched {
            device_name: path + device_name,
            placement: PlacementView::Relocate { directory: path, target: path + device_name },
        }),
        placed(Some(OnCreationView::SymlinkTo(path)), device_name) == (OutcomeView::Matched {
            device_name,
            placement: PlacementView::LinkAt { directory: path, target: path + device_name },
        }),
{
}

/// A filter on the number without an upper end lets a numbered device pass
/// on the one minor number alone; with an upper end, on every minor number
/// from the lower end to the upper, both included.
pub proof fn lemma_major_minor_range(
    major: u32,
    min: u32,
    max_minor: Option<u32>,
    device_major: u32,
    device_minor: u32,
)
    ensures
        max_minor is None ==> (major_minor_admits(
            major,
            min,
            max_minor,
            Some((device_major, device_minor)),
        ) <==> device_major == major && device_minor == min),
        max_minor matches Some(max) ==> (major_minor_admits(
            major,
            min,
            max_minor,
            Some((device_major, device_minor)),
        ) <==> device_major == major && min <= device_minor <= max),
        major_minor_admits(major, min, max_minor, None),
{
}

/// A filter on the number and a wish for the node are independent: such a
/// filter finds no matches, so that a rule with one takes its path template
/// as it stands.
pub proof fn lemma_number_filter_takes_template_literally(
    rule: RuleView,
    env: Map<Seq<char>, Seq<char>>,
    number: Option<(u32, u32)>,
    device_name: Seq<char>,
)
    requires
        rule.filter is MajorMinor,
    ensures
        applied(rule, env, number, device_name) == placed(rule.on_creation, device_name)
            || applied(rule, env, number, device_name) is NoMatch,
        applied(rule, env, number, device_name) is NoMatch <==> !(env_admits(
            rule.env_matches,
            env,
        ) && major_minor_admits(
            rule.filter->major,
            rule.filter->min,
            rule.filter->max_minor,
            number,
        )),
{
}

/// Whether a rule says stop has no say in whether and how it applies: a rule
/// that forbids the node does so either way.
pub proof fn lemma_applying_ignores_stop(
    rule: RuleView,
    stop: bool,
    env: Map<Seq<char>, Seq<char>>,
    number: Option<(u32, u32)>,
    device_name: Seq<char>,
)
    ensures
        applied(RuleView { stop, ..rule }, env, number, device_name) == applied(
            rule,
            env,
            number,
            device_name,
        ),
{
}

} // verus!
