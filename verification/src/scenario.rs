//! The scenario model: screens keyed by id, an ordered list of
//! chord-labeled transitions, and the pure resolver that advances the
//! current screen id on a keystroke.

use vstd::prelude::*;

use crate::chord::Key;

verus! {

/// A screen id: an opaque string, unique within a scenario.
pub type Id = String;

/// A screen's content: multi-line display text.
pub type Screen = String;

/// A directed edge between two screens, triggered by one chord.
pub struct Transition {
    pub from: Id,
    pub to: Id,
    pub key: Key,
}

/// The mathematical value of a transition.
pub struct TransitionV {
    pub from: Seq<char>,
    pub to: Seq<char>,
    pub key: Key,
}

impl View for Transition {
    type V = TransitionV;

    open spec fn view(&self) -> TransitionV {
        TransitionV { from: self.from@, to: self.to@, key: self.key }
    }
}

/// The finite map denoted by an association list; a later entry with the
/// same key wins.
pub open spec fn map_of(s: Seq<(Seq<char>, Seq<char>)>) -> Map<Seq<char>, Seq<char>>
    decreases s.len(),
{
    if s.len() == 0 {
        Map::empty()
    } else {
        map_of(s.drop_last()).insert(s.last().0, s.last().1)
    }
}

/// Keys of an association list are pairwise distinct.
pub open spec fn unique_keys(s: Seq<(Seq<char>, Seq<char>)>) -> bool {
    forall|i: int, j: int| 0 <= i < j < s.len() ==> s[i].0 != s[j].0
}

/// An association list's map contains a key exactly when some entry holds it.
pub proof fn lemma_map_of_contains(s: Seq<(Seq<char>, Seq<char>)>, k: Seq<char>)
    ensures
        map_of(s).contains_key(k) <==> exists|i: int| 0 <= i < s.len() && s[i].0 == k,
    decreases s.len(),
{
    if s.len() > 0 {
        lemma_map_of_contains(s.drop_last(), k);
        if map_of(s).contains_key(k) {
            if s.last().0 == k {
                assert(s[s.len() - 1].0 == k);
            } else {
                let i = choose|i: int| 0 <= i < s.drop_last().len() && s.drop_last()[i].0 == k;
                assert(s[i].0 == k);
            }
        }
        if exists|i: int| 0 <= i < s.len() && s[i].0 == k {
            let i = choose|i: int| 0 <= i < s.len() && s[i].0 == k;
            if i < s.len() - 1 {
                assert(s.drop_last()[i].0 == k);
            }
        }
    }
}

/// Under unique keys, the map of an association list sends each entry's key
/// to that entry's value.
pub proof fn lemma_map_of_index(s: Seq<(Seq<char>, Seq<char>)>, i: int)
    requires
        unique_keys(s),
        0 <= i < s.len(),
    ensures
        map_of(s).contains_key(s[i].0),
        map_of(s)[s[i].0] == s[i].1,
    decreases s.len(),
{
    if i == s.len() - 1 {
    } else {
        assert(unique_keys(s.drop_last())) by {
            assert(forall|a: int, b: int|
                0 <= a < b < s.drop_last().len() ==> s.drop_last()[a].0 == s[a].0
                    && s.drop_last()[b].0 == s[b].0);
        }
        lemma_map_of_index(s.drop_last(), i);
        assert(s.last().0 != s[i].0);
    }
}

/// Replacing the entry that holds a key updates the denoted map at that key.
pub proof fn lemma_map_of_update(s: Seq<(Seq<char>, Seq<char>)>, j: int, k: Seq<char>, v: Seq<char>)
    requires
        unique_keys(s),
        0 <= j < s.len(),
        s[j].0 == k,
    ensures
        map_of(s.update(j, (k, v))) == map_of(s).insert(k, v),
    decreases s.len(),
{
    let u = s.update(j, (k, v));
    if j == s.len() - 1 {
        assert(u.drop_last() =~= s.drop_last());
        assert(u.last() == (k, v));
        assert(map_of(s.drop_last()).insert(s.last().0, s.last().1).insert(k, v) =~= map_of(
            s.drop_last(),
        ).insert(k, v));
    } else {
        assert(unique_keys(s.drop_last())) by {
            assert(forall|a: int, b: int|
                0 <= a < b < s.drop_last().len() ==> s.drop_last()[a].0 == s[a].0
                    && s.drop_last()[b].0 == s[b].0);
        }
        assert(s.drop_last()[j].0 == k);
        lemma_map_of_update(s.drop_last(), j, k, v);
        assert(u.drop_last() =~= s.drop_last().update(j, (k, v)));
        assert(u.last() == s.last());
        assert(s.last().0 != k);
        assert(map_of(s.drop_last()).insert(k, v).insert(s.last().0, s.last().1) =~= map_of(
            s.drop_last(),
        ).insert(s.last().0, s.last().1).insert(k, v));
    }
}

/// Appending a fresh entry inserts its pair into the denoted map.
pub proof fn lemma_map_of_push(s: Seq<(Seq<char>, Seq<char>)>, k: Seq<char>, v: Seq<char>)
    ensures
        map_of(s.push((k, v))) == map_of(s).insert(k, v),
{
    assert(s.push((k, v)).drop_last() =~= s);
    assert(s.push((k, v)).last() == (k, v));
}

/// Under unique keys, the denoted map has exactly one entry per list entry.
pub proof fn lemma_map_of_len(s: Seq<(Seq<char>, Seq<char>)>)
    requires
        unique_keys(s),
    ensures
        map_of(s).dom().finite(),
        map_of(s).dom().len() == s.len(),
    decreases s.len(),
{
    broadcast use vstd::set::group_set_axioms;

    if s.len() == 0 {
        assert(Map::<Seq<char>, Seq<char>>::empty().dom() =~= Set::<Seq<char>>::empty());
    } else {
        assert(unique_keys(s.drop_last())) by {
            assert(forall|a: int, b: int|
                0 <= a < b < s.drop_last().len() ==> s.drop_last()[a].0 == s[a].0
                    && s.drop_last()[b].0 == s[b].0);
        }
        lemma_map_of_len(s.drop_last());
        lemma_map_of_contains(s.drop_last(), s.last().0);
        assert(!map_of(s.drop_last()).contains_key(s.last().0)) by {
            if exists|i: int| 0 <= i < s.drop_last().len() && s.drop_last()[i].0 == s.last().0 {
                let i = choose|i: int|
                    0 <= i < s.drop_last().len() && s.drop_last()[i].0 == s.last().0;
                assert(s[i].0 == s[s.len() - 1].0);
            }
        }
        assert(map_of(s).dom() =~= map_of(s.drop_last()).dom().insert(s.last().0));
    }
}

/// Screens keyed by id.  The entries' keys are kept pairwise distinct, so
/// the list denotes its map unambiguously and lookups are well defined.
pub struct ScreenMap {
    entries: Vec<(Id, Screen)>,
}

impl View for ScreenMap {
    type V = Map<Seq<char>, Seq<char>>;

    closed spec fn view(&self) -> Map<Seq<char>, Seq<char>> {
        map_of(self.entry_seq())
    }
}

impl ScreenMap {
    /// The association list the map is stored as, at the spec level.
    pub closed spec fn entry_seq(&self) -> Seq<(Seq<char>, Seq<char>)> {
        self.entries@.map_values(|p: (Id, Screen)| (p.0@, p.1@))
    }

    /// Well-formedness: ids are stored at most once.
    pub closed spec fn wf(&self) -> bool {
        unique_keys(self.entry_seq())
    }

    /// The empty screen map.
    pub fn new() -> (r: ScreenMap)
        ensures
            r@ == Map::<Seq<char>, Seq<char>>::empty(),
            r.wf(),
    {
        ScreenMap { entries: Vec::new() }
    }

    /// How many screens the map holds.
    pub fn len(&self) -> (r: usize)
        requires
            self.wf(),
        ensures
            r == self@.dom().len(),
            self@.dom().finite(),
    {
        proof {
            lemma_map_of_len(self.entry_seq());
        }
        self.entries.len()
    }

    /// Looks a screen up by id; absent ids yield nothing rather than an
    /// error.
    pub fn get(&self, id: &Id) -> (r: Option<&String>)
        requires
            self.wf(),
        ensures
            match r {
                Some(t) => self@.contains_key(id@) && t@ == self@[id@],
                None => !self@.contains_key(id@),
            },
    {
        let n = self.entries.len();
        let mut i: usize = 0;
        while i < n
            invariant
                self.wf(),
                n == self.entries@.len(),
                i <= n,
                forall|j: int| 0 <= j < i ==> self.entry_seq()[j].0 != id@,
            decreases n - i,
        {
            if self.entries[i].0 == *id {
                proof {
                    lemma_map_of_index(self.entry_seq(), i as int);
                }
                return Some(&self.entries[i].1);
            }
            i += 1;
        }
        proof {
            lemma_map_of_contains(self.entry_seq(), id@);
        }
        None
    }

    /// The position at which an id is stored, if it is.
    fn find_index(&self, id: &Id) -> (r: Option<usize>)
        ensures
            match r {
                Some(j) => j < self.entry_seq().len() && self.entry_seq()[j as int].0 == id@,
                None => forall|j: int|
                    0 <= j < self.entry_seq().len() ==> self.entry_seq()[j].0 != id@,
            },
    {
        let n = self.entries.len();
        let mut i: usize = 0;
        while i < n
            invariant
                n == self.entries@.len(),
                i <= n,
                forall|j: int| 0 <= j < i ==> self.entry_seq()[j].0 != id@,
            decreases n - i,
        {
            if self.entries[i].0 == *id {
                return Some(i);
            }
            i += 1;
        }
        None
    }

    /// Inserts a screen, replacing any screen already stored under the id.
    pub fn insert(&mut self, id: Id, content: Screen)
        requires
            old(self).wf(),
        ensures
            final(self)@ == old(self)@.insert(id@, content@),
            final(self).wf(),
    {
        let ghost gid = id@;
        let ghost gcontent = content@;
        match self.find_index(&id) {
            Some(j) => {
                proof {
                    lemma_map_of_update(self.entry_seq(), j as int, gid, gcontent);
                }
                self.entries.set(j, (id, content));
                proof {
                    assert(self.entry_seq() =~= old(self).entry_seq().update(
                        j as int,
                        (gid, gcontent),
                    ));
                    assert(self.wf()) by {
                        assert(forall|a: int|
                            0 <= a < self.entry_seq().len() && a != j ==> self.entry_seq()[a]
                                == old(self).entry_seq()[a]);
                    }
                }
            },
            None => {
                proof {
                    lemma_map_of_push(self.entry_seq(), gid, gcontent);
                }
                self.entries.push((id, content));
                proof {
                    assert(self.entry_seq() =~= old(self).entry_seq().push((gid, gcontent)));
                    assert(self.wf()) by {
                        assert(forall|a: int|
                            0 <= a < old(self).entry_seq().len() ==> self.entry_seq()[a] == old(
                                self,
                            ).entry_seq()[a]);
                    }
                }
            },
        }
    }
}

/// First-match resolution: the target of the first transition, in
/// declaration order, whose source and chord both match; nothing when no
/// transition matches.
pub open spec fn advance_spec(ts: Seq<TransitionV>, pos: Seq<char>, input: Key) -> Option<
    Seq<char>,
>
    decreases ts.len(),
{
    if ts.len() == 0 {
        None
    } else if ts[0].from == pos && ts[0].key == input {
        Some(ts[0].to)
    } else {
        advance_spec(ts.drop_first(), pos, input)
    }
}

/// The full immutable scenario: a start id, the screens, and the ordered
/// transitions.
pub struct Scenario {
    pub first: Id,
    pub screens: ScreenMap,
    pub transitions: Vec<Transition>,
}

/// The mathematical value of a scenario.
pub struct ScenarioV {
    pub first: Seq<char>,
    pub screens: Map<Seq<char>, Seq<char>>,
    pub transitions: Seq<TransitionV>,
}

impl View for Scenario {
    type V = ScenarioV;

    open spec fn view(&self) -> ScenarioV {
        ScenarioV {
            first: self.first@,
            screens: self.screens@,
            transitions: self.transitions@.map_values(|t: Transition| t@),
        }
    }
}

impl Scenario {
    /// Well-formedness: the screen store keeps ids unique.
    pub open spec fn wf(&self) -> bool {
        self.screens.wf()
    }

    /// The content of the screen with the given id, or nothing when the id
    /// is unknown (rendered as an empty screen, never an error).
    pub fn get(&self, pos: &Id) -> (r: Option<&str>)
        requires
            self.wf(),
        ensures
            match r {
                Some(t) => self@.screens.contains_key(pos@) && t@ == self@.screens[pos@],
                None => !self@.screens.contains_key(pos@),
            },
    {
        match self.screens.get(pos) {
            Some(content) => Some(content.as_str()),
            None => None,
        }
    }

    /// Scans the transitions in declaration order and returns the target of
    /// the first one matching the current id and the input chord; returns
    /// nothing when no transition matches (callers stay on their screen).
    pub fn advance(&self, pos: &Id, input: &Key) -> (r: Option<Id>)
        ensures
            match r {
                Some(id) => advance_spec(self@.transitions, pos@, *input) == Some(id@),
                None => advance_spec(self@.transitions, pos@, *input) is None,
            },
    {
        let n = self.transitions.len();
        proof {
            assert(self@.transitions.skip(0) =~= self@.transitions);
        }
        let mut i: usize = 0;
        while i < n
            invariant
                n == self.transitions@.len(),
                i <= n,
                advance_spec(self@.transitions, pos@, *input) == advance_spec(
                    self@.transitions.skip(i as int),
                    pos@,
                    *input,
                ),
            decreases n - i,
        {
            let t = &self.transitions[i];
            if t.from == *pos && t.key == *input {
                proof {
                    assert(self@.transitions.skip(i as int)[0] == self@.transitions[i as int]);
                }
                return Some(t.to.clone());
            }
            proof {
                assert(self@.transitions.skip(i as int)[0] == self@.transitions[i as int]);
                assert(self@.transitions.skip(i as int).drop_first() =~= self@.transitions.skip(
                    i as int + 1,
                ));
            }
            i += 1;
        }
        proof {
            assert(self@.transitions.skip(n as int) =~= Seq::<TransitionV>::empty());
        }
        None
    }
}

/// Whatever `advance` resolves a chord to is the target of some transition
/// whose source and chord match; an id `advance` returns therefore always
/// comes from the scenario's own transition table.
pub proof fn lemma_advance_returns_transition_target(
    ts: Seq<TransitionV>,
    pos: Seq<char>,
    input: Key,
)
    ensures
        advance_spec(ts, pos, input) matches Some(id) ==> exists|i: int|
            0 <= i < ts.len() && ts[i].from == pos && ts[i].key == input && ts[i].to == id,
    decreases ts.len(),
{
    if ts.len() == 0 {
    } else if ts[0].from == pos && ts[0].key == input {
        assert(ts[0].from == pos && ts[0].key == input && ts[0].to
            == advance_spec(ts, pos, input)->Some_0);
    } else {
        lemma_advance_returns_transition_target(ts.drop_first(), pos, input);
        if advance_spec(ts, pos, input) is Some {
            let id = advance_spec(ts, pos, input)->Some_0;
            let j = choose|j: int|
                0 <= j < ts.drop_first().len() && ts.drop_first()[j].from == pos
                    && ts.drop_first()[j].key == input && ts.drop_first()[j].to == id;
            assert(ts[j + 1].from == pos && ts[j + 1].key == input && ts[j + 1].to == id);
        }
    }
}

/// First match wins: when an index holds a matching transition and no
/// earlier index does, resolution returns exactly that transition's target.
pub proof fn lemma_advance_first_match(ts: Seq<TransitionV>, pos: Seq<char>, input: Key, i: int)
    requires
        0 <= i < ts.len(),
        ts[i].from == pos && ts[i].key == input,
        forall|j: int| 0 <= j < i ==> !(ts[j].from == pos && ts[j].key == input),
    ensures
        advance_spec(ts, pos, input) == Some(ts[i].to),
    decreases ts.len(),
{
    if i == 0 {
    } else {
        assert(!(ts[0].from == pos && ts[0].key == input));
        assert(forall|j: int|
            0 <= j < i - 1 ==> ts.drop_first()[j] == ts[j + 1] && !(ts[j + 1].from == pos && ts[j
                + 1].key == input));
        lemma_advance_first_match(ts.drop_first(), pos, input, i - 1);
        assert(ts.drop_first()[i - 1] == ts[i]);
    }
}

} // verus!
