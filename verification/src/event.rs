//! Hotplug events and their environment.

use crate::text::same_text;
use vstd::prelude::*;
use vstd::std_specs::cmp::PartialEqSpecImpl;

verus! {

/// No key occurs twice among `pairs`.
pub open spec fn distinct_keys(pairs: Seq<(Seq<char>, Seq<char>)>) -> bool {
    forall|i: int, j: int|
        0 <= i < pairs.len() && 0 <= j < pairs.len() && i != j ==> (#[trigger] pairs[i]).0 != (
        #[trigger] pairs[j]).0
}

/// The mapping that a list of key/value pairs stands for.
pub open spec fn pairs_map(pairs: Seq<(Seq<char>, Seq<char>)>) -> Map<Seq<char>, Seq<char>>
    decreases pairs.len(),
{
    if pairs.len() == 0 {
        Map::empty()
    } else {
        pairs_map(pairs.drop_last()).insert(pairs.last().0, pairs.last().1)
    }
}

/// A key that no pair holds is not in the mapping.
pub proof fn lemma_absent_key(pairs: Seq<(Seq<char>, Seq<char>)>, key: Seq<char>)
    requires
        forall|i: int| 0 <= i < pairs.len() ==> (#[trigger] pairs[i]).0 != key,
    ensures
        !pairs_map(pairs).contains_key(key),
    decreases pairs.len(),
{
    if pairs.len() > 0 {
        let front = pairs.drop_last();
        assert forall|i: int| 0 <= i < front.len() implies (#[trigger] front[i]).0 != key by {
            assert(front[i] == pairs[i]);
        }
        lemma_absent_key(front, key);
        assert(pairs.last() == pairs[pairs.len() - 1]);
    }
}

/// Among pairs with distinct keys, each pair is what the mapping holds for
/// its key.
pub proof fn lemma_present_key(pairs: Seq<(Seq<char>, Seq<char>)>, at: int)
    requires
        distinct_keys(pairs),
        0 <= at < pairs.len(),
    ensures
        pairs_map(pairs).contains_key(pairs[at].0),
        pairs_map(pairs)[pairs[at].0] == pairs[at].1,
    decreases pairs.len(),
{
    let front = pairs.drop_last();
    if at < pairs.len() - 1 {
        assert forall|i: int, j: int|
            0 <= i < front.len() && 0 <= j < front.len() && i != j implies (#[trigger] front[i]).0
            != (#[trigger] front[j]).0 by {
            assert(front[i] == pairs[i]);
            assert(front[j] == pairs[j]);
        }
        lemma_present_key(front, at);
        assert(front[at] == pairs[at]);
        assert(pairs.last() == pairs[pairs.len() - 1]);
        assert(pairs[pairs.len() - 1].0 != pairs[at].0);
    }
}

/// The order in which two variables of different names are inserted does not
/// matter to the mapping.
pub proof fn lemma_insertion_order_is_irrelevant(
    pairs: Seq<(Seq<char>, Seq<char>)>,
    one: (Seq<char>, Seq<char>),
    other: (Seq<char>, Seq<char>),
)
    requires
        one.0 != other.0,
    ensures
        pairs_map(pairs.push(one).push(other)) == pairs_map(pairs.push(other).push(one)),
{
    let first = pairs.push(one);
    let second = pairs.push(other);
    assert(first.push(other).drop_last() == first);
    assert(second.push(one).drop_last() == second);
    assert(first.drop_last() == pairs);
    assert(second.drop_last() == pairs);
    assert(first.push(other).last() == other);
    assert(second.push(one).last() == one);
    assert(first.last() == one);
    assert(second.last() == other);
    assert(pairs_map(first) == pairs_map(pairs).insert(one.0, one.1));
    assert(pairs_map(second) == pairs_map(pairs).insert(other.0, other.1));
    assert(pairs_map(first.push(other)) == pairs_map(first).insert(other.0, other.1));
    assert(pairs_map(second.push(one)) == pairs_map(second).insert(one.0, one.1));
    assert(pairs_map(pairs).insert(one.0, one.1).insert(other.0, other.1) == pairs_map(
        pairs,
    ).insert(other.0, other.1).insert(one.0, one.1));
}

/// Giving the pair at `at` a new value keeps the keys distinct and changes
/// the mapping at that key alone.
pub proof fn lemma_update_pair(pairs: Seq<(Seq<char>, Seq<char>)>, at: int, value: Seq<char>)
    requires
        distinct_keys(pairs),
        0 <= at < pairs.len(),
    ensures
        distinct_keys(pairs.update(at, (pairs[at].0, value))),
        pairs_map(pairs.update(at, (pairs[at].0, value))) == pairs_map(pairs).insert(
            pairs[at].0,
            value,
        ),
    decreases pairs.len(),
{
    let key = pairs[at].0;
    let after = pairs.update(at, (key, value));
    assert forall|i: int, j: int|
        0 <= i < after.len() && 0 <= j < after.len() && i != j implies (#[trigger] after[i]).0 != (
    #[trigger] after[j]).0 by {
        assert(after[i].0 == pairs[i].0);
        assert(after[j].0 == pairs[j].0);
    }
    let front = pairs.drop_last();
    if at == pairs.len() - 1 {
        assert(after.drop_last() == front);
        assert(pairs_map(after) == pairs_map(front).insert(key, value));
        assert(pairs_map(pairs) == pairs_map(front).insert(key, pairs[at].1));
        assert(pairs_map(front).insert(key, pairs[at].1).insert(key, value) == pairs_map(
            front,
        ).insert(key, value));
    } else {
        assert forall|i: int, j: int|
            0 <= i < front.len() && 0 <= j < front.len() && i != j implies (#[trigger] front[i]).0
            != (#[trigger] front[j]).0 by {
            assert(front[i] == pairs[i]);
            assert(front[j] == pairs[j]);
        }
        assert(front[at] == pairs[at]);
        lemma_update_pair(front, at, value);
        assert(after.drop_last() == front.update(at, (key, value)));
        assert(after.last() == pairs.last());
        assert(pairs.last() == pairs[pairs.len() - 1]);
        assert(pairs.last().0 != key);
        let last = pairs.last();
        assert(pairs_map(front).insert(key, value).insert(last.0, last.1) == pairs_map(
            front,
        ).insert(last.0, last.1).insert(key, value));
    }
}

/// The variables of an event: a mapping from names to values. The order in
/// which the pairs are held is that of their first insertion.
#[derive(Debug)]
pub struct Env {
    entries: Vec<(String, String)>,
}

impl Clone for Env {
    fn clone(&self) -> (copy: Env)
        ensures
            copy.pairs() == self.pairs(),
            copy@ == self@,
    {
        proof {
            use_type_invariant(self);
        }
        let mut entries: Vec<(String, String)> = Vec::new();
        let mut i: usize = 0;
        while i < self.entries.len()
            invariant
                i <= self.entries.len(),
                entries@.map_values(|p: (String, String)| (p.0@, p.1@)) == self.pairs().take(
                    i as int,
                ),
            decreases self.entries.len() - i,
        {
            let ghost before = entries@.map_values(|p: (String, String)| (p.0@, p.1@));
            entries.push((self.entries[i].0.clone(), self.entries[i].1.clone()));
            assert(entries@.map_values(|p: (String, String)| (p.0@, p.1@)) == before.push(
                self.pairs()[i as int],
            ));
            assert(self.pairs().take(i + 1) == self.pairs().take(i as int).push(
                self.pairs()[i as int],
            ));
            i += 1;
        }
        assert(self.pairs().take(self.entries.len() as int) == self.pairs());
        Env { entries }
    }
}

impl Env {
    /// Whether every variable of `self` is held by `other` with the same
    /// value.
    fn within(&self, other: &Env) -> (r: bool)
        ensures
            r == (forall|key: Seq<char>| #[trigger]
                self@.contains_key(key) ==> other@.contains_key(key) && other@[key] == self@[key]),
    {
        proof {
            use_type_invariant(self);
        }
        let mut i: usize = 0;
        while i < self.entries.len()
            invariant
                i <= self.entries.len(),
                self.wf(),
                forall|k: int|
                    0 <= k < i ==> other@.contains_key((#[trigger] self.pairs()[k]).0) && other@[self.pairs()[k].0]
                        == self.pairs()[k].1,
            decreases self.entries.len() - i,
        {
            proof {
                lemma_present_key(self.pairs(), i as int);
            }
            let same = match other.get(self.entries[i].0.as_str()) {
                Some(value) => same_text(value.as_str(), self.entries[i].1.as_str()),
                None => false,
            };
            if !same {
                assert(self@.contains_key(self.pairs()[i as int].0));
                return false;
            }
            i += 1;
        }
        assert forall|key: Seq<char>| #[trigger] self@.contains_key(key) implies other@.contains_key(
            key,
        ) && other@[key] == self@[key] by {
            if forall|k: int| 0 <= k < self.pairs().len() ==> (#[trigger] self.pairs()[k]).0 != key {
                lemma_absent_key(self.pairs(), key);
            } else {
                let k = choose|k: int| 0 <= k < self.pairs().len() && (#[trigger] self.pairs()[k]).0 == key;
                lemma_present_key(self.pairs(), k);
            }
        }
        true
    }
}

impl PartialEq for Env {
    /// Two environments are equal where they are the same mapping, in
    /// whatever order they hold their pairs.
    fn eq(&self, other: &Env) -> (r: bool) {
        let r = self.within(other) && other.within(self);
        assert(r == (self@ =~= other@));
        r
    }
}

impl PartialEqSpecImpl for Env {
    open spec fn obeys_eq_spec() -> bool {
        true
    }

    open spec fn eq_spec(&self, other: &Env) -> bool {
        self@ == other@
    }
}

impl View for Env {
    type V = Map<Seq<char>, Seq<char>>;

    open spec fn view(&self) -> Map<Seq<char>, Seq<char>> {
        pairs_map(self.pairs())
    }
}

impl Env {
    /// The pairs in the order in which they are held.
    pub closed spec fn pairs(&self) -> Seq<(Seq<char>, Seq<char>)> {
        self.entries@.map_values(|p: (String, String)| (p.0@, p.1@))
    }

    /// Every key is held once.
    pub open spec fn wf(&self) -> bool {
        distinct_keys(self.pairs())
    }

    #[verifier::type_invariant]
    spec fn keys_are_distinct(&self) -> bool {
        distinct_keys(self.pairs())
    }

    /// An environment without variables.
    pub fn new() -> (env: Env)
        ensures
            env.pairs() == Seq::<(Seq<char>, Seq<char>)>::empty(),
            env@ == Map::<Seq<char>, Seq<char>>::empty(),
            env.wf(),
    {
        let env = Env { entries: Vec::new() };
        assert(env.pairs() == Seq::<(Seq<char>, Seq<char>)>::empty());
        env
    }

    /// The environment that a list of pairs stands for: each pair is
    /// inserted in turn, so that of two pairs with one key the later counts.
    pub fn from_pairs(pairs: Vec<(String, String)>) -> (env: Env)
        ensures
            env@ == pairs_map(pairs@.map_values(|p: (String, String)| (p.0@, p.1@))),
            env.wf(),
    {
        let ghost all = pairs@.map_values(|p: (String, String)| (p.0@, p.1@));
        let mut env = Env::new();
        let mut i: usize = 0;
        assert(all.take(0) == Seq::<(Seq<char>, Seq<char>)>::empty());
        while i < pairs.len()
            invariant
                i <= pairs.len(),
                all == pairs@.map_values(|p: (String, String)| (p.0@, p.1@)),
                env@ == pairs_map(all.take(i as int)),
            decreases pairs.len() - i,
        {
            assert(all.take(i + 1).drop_last() == all.take(i as int));
            assert(all.take(i + 1).last() == all[i as int]);
            env.insert(pairs[i].0.clone(), pairs[i].1.clone());
            i += 1;
        }
        assert(all.take(pairs.len() as int) == all);
        proof {
            use_type_invariant(&env);
        }
        env
    }

    /// The number of variables.
    pub fn len(&self) -> (n: usize)
        ensures
            n == self.pairs().len(),
            self.wf(),
    {
        proof {
            use_type_invariant(self);
        }
        self.entries.len()
    }

    /// Where `key` is held, if it is.
    fn position(&self, key: &str) -> (at: Option<usize>)
        ensures
            self.wf(),
            match at {
                Some(i) => i < self.pairs().len() && self.pairs()[i as int].0 == key@,
                None => forall|i: int|
                    0 <= i < self.pairs().len() ==> (#[trigger] self.pairs()[i]).0 != key@,
            },
    {
        proof {
            use_type_invariant(self);
        }
        let mut i: usize = 0;
        while i < self.entries.len()
            invariant
                i <= self.entries.len(),
                self.wf(),
                forall|k: int| 0 <= k < i ==> (#[trigger] self.pairs()[k]).0 != key@,
            decreases self.entries.len() - i,
        {
            if same_text(self.entries[i].0.as_str(), key) {
                return Some(i);
            }
            i += 1;
        }
        None
    }

    /// The value of the variable `key`.
    pub fn get(&self, key: &str) -> (value: Option<&String>)
        ensures
            match value {
                Some(v) => self@.contains_key(key@) && self@[key@] == v@,
                None => !self@.contains_key(key@),
            },
    {
        match self.position(key) {
            Some(i) => {
                proof {
                    lemma_present_key(self.pairs(), i as int);
                }
                Some(&self.entries[i].1)
            },
            None => {
                proof {
                    lemma_absent_key(self.pairs(), key@);
                }
                None
            },
        }
    }

    /// Sets the variable `key` to `value`. A variable that is already held
    /// keeps its place and takes the new value; a new one goes to the end.
    pub fn insert(&mut self, key: String, value: String)
        ensures
            final(self)@ == old(self)@.insert(key@, value@),
            final(self).wf(),
            old(self)@.contains_key(key@) ==> final(self).pairs().len() == old(self).pairs().len(),
            !old(self)@.contains_key(key@) ==> final(self).pairs() == old(self).pairs().push(
                (key@, value@),
            ),
    {
        let ghost before = self.pairs();
        let found = self.position(key.as_str());
        let mut taken = Env::new();
        std::mem::swap(self, &mut taken);
        let mut entries = taken.entries;
        match found {
            Some(i) => {
                proof {
                    lemma_present_key(before, i as int);
                    lemma_update_pair(before, i as int, value@);
                }
                entries.set(i, (key, value));
                assert(entries@.map_values(|p: (String, String)| (p.0@, p.1@)) == before.update(
                    i as int,
                    (key@, value@),
                ));
            },
            None => {
                proof {
                    lemma_absent_key(before, key@);
                }
                entries.push((key, value));
                proof {
                    let after = entries@.map_values(|p: (String, String)| (p.0@, p.1@));
                    assert(after == before.push((key@, value@)));
                    assert(after.drop_last() == before);
                    assert forall|i: int, j: int|
                        0 <= i < after.len() && 0 <= j < after.len() && i != j implies (
                    #[trigger] after[i]).0 != (#[trigger] after[j]).0 by {
                        if i < before.len() {
                            assert(after[i] == before[i]);
                        }
                        if j < before.len() {
                            assert(after[j] == before[j]);
                        }
                    }
                }
            },
        }
        *self = Env { entries };
    }

    /// The name and the value held at `index`, in the order of `pairs`.
    pub fn entry(&self, index: usize) -> (pair: (&String, &String))
        requires
            index < self.pairs().len(),
        ensures
            (pair.0@, pair.1@) == self.pairs()[index as int],
    {
        (&self.entries[index].0, &self.entries[index].1)
    }
}

/// What happened to the kernel object.
#[derive(Debug, Clone, PartialEq, Eq)]
pub enum Action {
    Add,
    Remove,
    Change,
    Move,
    Online,
    Offline,
    Other(String),
}

/// The view of an action.
pub enum ActionView {
    Add,
    Remove,
    Change,
    Move,
    Online,
    Offline,
    Other(Seq<char>),
}

impl View for Action {
    type V = ActionView;

    open spec fn view(&self) -> ActionView {
        match *self {
            Action::Add => ActionView::Add,
            Action::Remove => ActionView::Remove,
            Action::Change => ActionView::Change,
            Action::Move => ActionView::Move,
            Action::Online => ActionView::Online,
            Action::Offline => ActionView::Offline,
            Action::Other(name) => ActionView::Other(name@),
        }
    }
}

/// One hotplug or coldplug occurrence.
#[derive(Debug, Clone, PartialEq)]
pub struct Event {
    pub action: Action,
    /// The path of the kernel object.
    pub device_path: String,
    pub subsystem: String,
    pub env: Env,
    /// The kernel's counter, or the place in a scan.
    pub sequence: u64,
}

/// The view of an event.
pub struct EventView {
    pub action: ActionView,
    pub device_path: Seq<char>,
    pub subsystem: Seq<char>,
    pub env: Map<Seq<char>, Seq<char>>,
    pub sequence: u64,
}

impl View for Event {
    type V = EventView;

    open spec fn view(&self) -> EventView {
        EventView {
            action: self.action@,
            device_path: self.device_path@,
            subsystem: self.subsystem@,
            env: self.env@,
            sequence: self.sequence,
        }
    }
}

} // verus!
