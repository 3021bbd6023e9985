//! Load-time validation and wiring: raw transition records are classified
//! into the three declared shapes, chord strings are parsed, word
//! transitions get their intermediate screens synthesized, and the final
//! immutable scenario is assembled.

use vstd::prelude::*;

use crate::chord::{parse_spec, Key};
use crate::expand::{
    add_word_screens, file_word_to_transition, word_screens_spec, word_transitions_spec,
};
use crate::scenario::{map_of, Id, Scenario, Screen, ScreenMap, Transition, TransitionV};

verus! {

/// One raw transition record as it stands in the scenario file: a source,
/// a target, and whichever of the three shape fields were present.
pub struct RawTransition {
    pub from: Id,
    pub to: Id,
    pub key: Option<String>,
    pub keys: Option<Vec<String>>,
    pub word: Option<String>,
}

/// The mathematical value of a raw transition record.
pub struct RawTransitionV {
    pub from: Seq<char>,
    pub to: Seq<char>,
    pub key: Option<Seq<char>>,
    pub keys: Option<Seq<Seq<char>>>,
    pub word: Option<Seq<char>>,
}

impl View for RawTransition {
    type V = RawTransitionV;

    open spec fn view(&self) -> RawTransitionV {
        RawTransitionV {
            from: self.from@,
            to: self.to@,
            key: match self.key {
                Some(s) => Some(s@),
                None => None,
            },
            keys: match self.keys {
                Some(v) => Some(v@.map_values(|s: String| s@)),
                None => None,
            },
            word: match self.word {
                Some(s) => Some(s@),
                None => None,
            },
        }
    }
}

/// A declared transition in one of its three recognized shapes: a single
/// chord, several alternative chords, or a typed word.
pub enum FileTransition {
    Key { from: Id, to: Id, key: Key },
    Keys { from: Id, to: Id, keys: Vec<Key> },
    Word { from: Id, to: Id, word: String },
}

/// The mathematical value of a declared transition.
pub enum FileTransitionV {
    Key { from: Seq<char>, to: Seq<char>, key: Key },
    Keys { from: Seq<char>, to: Seq<char>, keys: Seq<Key> },
    Word { from: Seq<char>, to: Seq<char>, word: Seq<char> },
}

impl View for FileTransition {
    type V = FileTransitionV;

    open spec fn view(&self) -> FileTransitionV {
        match self {
            FileTransition::Key { from, to, key } => FileTransitionV::Key {
                from: from@,
                to: to@,
                key: *key,
            },
            FileTransition::Keys { from, to, keys } => FileTransitionV::Keys {
                from: from@,
                to: to@,
                keys: keys@,
            },
            FileTransition::Word { from, to, word } => FileTransitionV::Word {
                from: from@,
                to: to@,
                word: word@,
            },
        }
    }
}

/// Why one raw transition record was rejected.
#[derive(Clone, Copy, PartialEq, Eq, Structural, Debug)]
pub enum TransitionError {
    /// The record matches none, or more than one, of the three shapes.
    BadShape,
    /// A chord string matches no alternative of the chord grammar.
    BadChord,
    /// A declared word has no characters.
    EmptyWord,
}

/// The error a scenario fails to load with: the position of the first
/// offending transition record and why it was rejected.
#[derive(Clone, Copy, PartialEq, Eq, Structural, Debug)]
pub struct LoadError {
    pub index: usize,
    pub kind: TransitionError,
}

/// Classification of one raw record: exactly one of the three shape fields
/// must be present, every chord string must parse, and a declared word
/// must not be empty.
pub open spec fn classify_spec(rt: RawTransitionV) -> Result<FileTransitionV, TransitionError> {
    match (rt.key, rt.keys, rt.word) {
        (Some(k), None, None) => match parse_spec(k) {
            Some(c) => Ok(FileTransitionV::Key { from: rt.from, to: rt.to, key: c }),
            None => Err(TransitionError::BadChord),
        },
        (None, Some(ks), None) => if forall|i: int| 0 <= i < ks.len() ==> parse_spec(ks[i]) is Some {
            Ok(
                FileTransitionV::Keys {
                    from: rt.from,
                    to: rt.to,
                    keys: Seq::new(ks.len(), |i: int| parse_spec(ks[i])->Some_0),
                },
            )
        } else {
            Err(TransitionError::BadChord)
        },
        (None, None, Some(w)) => if w.len() >= 1 {
            Ok(FileTransitionV::Word { from: rt.from, to: rt.to, word: w })
        } else {
            Err(TransitionError::EmptyWord)
        },
        _ => Err(TransitionError::BadShape),
    }
}

/// Determines which shape a raw record has, parses its chord strings, and
/// rejects malformed records as classification says.
pub fn classify(rt: &RawTransition) -> (r: Result<FileTransition, TransitionError>)
    ensures
        match r {
            Ok(ft) => classify_spec(rt@) == Ok::<FileTransitionV, TransitionError>(ft@),
            Err(e) => classify_spec(rt@) == Err::<FileTransitionV, TransitionError>(e),
        },
{
    match &rt.key {
        Some(k) => {
            if rt.keys.is_some() || rt.word.is_some() {
                return Err(TransitionError::BadShape);
            }
            match Key::from_string(k.as_str()) {
                Ok(c) => Ok(
                    FileTransition::Key { from: rt.from.clone(), to: rt.to.clone(), key: c },
                ),
                Err(_) => Err(TransitionError::BadChord),
            }
        },
        None => match &rt.keys {
            Some(ks) => {
                if rt.word.is_some() {
                    return Err(TransitionError::BadShape);
                }
                let ghost ksv = ks@.map_values(|s: String| s@);
                let n = ks.len();
                let mut parsed: Vec<Key> = Vec::new();
                let mut i: usize = 0;
                while i < n
                    invariant
                        rt@.key is None,
                        rt@.word is None,
                        rt@.keys == Some(ksv),
                        ksv == ks@.map_values(|s: String| s@),
                        n == ks@.len(),
                        i <= n,
                        parsed@.len() == i,
                        forall|j: int| 0 <= j < i ==> parse_spec(#[trigger] ksv[j]) is Some,
                        forall|j: int|
                            0 <= j < i ==> parsed@[j] == parse_spec(#[trigger] ksv[j])->Some_0,
                    decreases n - i,
                {
                    proof {
                        assert(ksv[i as int] == ks@[i as int]@);
                    }
                    match Key::from_string(ks[i].as_str()) {
                        Ok(c) => {
                            parsed.push(c);
                        },
                        Err(_) => {
                            return Err(TransitionError::BadChord);
                        },
                    }
                    i += 1;
                }
                proof {
                    assert(parsed@ =~= Seq::new(ksv.len(), |i: int| parse_spec(ksv[i])->Some_0));
                }
                Ok(FileTransition::Keys { from: rt.from.clone(), to: rt.to.clone(), keys: parsed })
            },
            None => match &rt.word {
                Some(w) => {
                    if w.as_str().unicode_len() >= 1 {
                        Ok(
                            FileTransition::Word {
                                from: rt.from.clone(),
                                to: rt.to.clone(),
                                word: w.clone(),
                            },
                        )
                    } else {
                        Err(TransitionError::EmptyWord)
                    }
                },
                None => Err(TransitionError::BadShape),
            },
        },
    }
}

/// Converts a single-chord declaration into its one transition.
pub fn file_key_to_transition(from: &Id, to: &Id, key: &Key) -> (r: Vec<Transition>)
    ensures
        r@.map_values(|t: Transition| t@) == seq![
            TransitionV { from: from@, to: to@, key: *key },
        ],
{
    let mut r: Vec<Transition> = Vec::new();
    r.push(Transition { from: from.clone(), to: to.clone(), key: *key });
    proof {
        assert(r@.map_values(|t: Transition| t@) =~= seq![
            TransitionV { from: from@, to: to@, key: *key },
        ]);
    }
    r
}

/// Fans a multi-chord declaration out into one ordinary transition per
/// chord, all sharing the same source and target.
pub fn file_keys_to_transition(from: &Id, to: &Id, keys: &Vec<Key>) -> (r: Vec<Transition>)
    ensures
        r@.map_values(|t: Transition| t@) == Seq::new(
            keys@.len(),
            |i: int| TransitionV { from: from@, to: to@, key: keys@[i] },
        ),
{
    let n = keys.len();
    let mut r: Vec<Transition> = Vec::new();
    let mut i: usize = 0;
    while i < n
        invariant
            n == keys@.len(),
            i <= n,
            r@.len() == i,
            forall|a: int|
                0 <= a < i ==> r@.map_values(|t: Transition| t@)[a] == (TransitionV {
                    from: from@,
                    to: to@,
                    key: keys@[a],
                }),
        decreases n - i,
    {
        r.push(Transition { from: from.clone(), to: to.clone(), key: keys[i] });
        i += 1;
    }
    proof {
        assert(r@.map_values(|t: Transition| t@) =~= Seq::new(
            keys@.len(),
            |i: int| TransitionV { from: from@, to: to@, key: keys@[i] },
        ));
    }
    r
}

/// Every raw record classifies successfully.
pub open spec fn all_classify_ok(ts: Seq<RawTransitionV>) -> bool {
    forall|i: int| 0 <= i < ts.len() ==> classify_spec(ts[i]) is Ok
}

/// The classified transitions of a fully well-formed record sequence.
pub open spec fn classified_spec(ts: Seq<RawTransitionV>) -> Seq<FileTransitionV> {
    Seq::new(ts.len(), |i: int| classify_spec(ts[i])->Ok_0)
}

/// The screens map after the expander has processed every declared
/// transition in order: each word transition adds its intermediate
/// screens, the other shapes leave the screens unchanged.
pub open spec fn expand_screens_spec(
    m: Map<Seq<char>, Seq<char>>,
    ts: Seq<FileTransitionV>,
) -> Map<Seq<char>, Seq<char>>
    decreases ts.len(),
{
    if ts.len() == 0 {
        m
    } else {
        let prev = expand_screens_spec(m, ts.drop_last());
        match ts.last() {
            FileTransitionV::Word { from, to, word } => word_screens_spec(prev, from, to, word),
            _ => prev,
        }
    }
}

/// The ordinary transitions one declared transition expands to: a single
/// chord gives one edge, alternative chords fan out to one edge each, and
/// a word expands to its transition chain.
pub open spec fn file_transition_edges(ft: FileTransitionV) -> Seq<TransitionV> {
    match ft {
        FileTransitionV::Key { from, to, key } => seq![TransitionV { from, to, key }],
        FileTransitionV::Keys { from, to, keys } => Seq::new(
            keys.len(),
            |i: int| TransitionV { from, to, key: keys[i] },
        ),
        FileTransitionV::Word { from, to, word } => word_transitions_spec(from, to, word),
    }
}

/// The concatenated edges of all declared transitions, in declaration
/// order.
pub open spec fn edges_spec(ts: Seq<FileTransitionV>) -> Seq<TransitionV>
    decreases ts.len(),
{
    if ts.len() == 0 {
        Seq::empty()
    } else {
        edges_spec(ts.drop_last()) + file_transition_edges(ts.last())
    }
}

/// Synthesizes and stores the intermediate screens of every declared word
/// transition, in declaration order.
pub fn add_intermediate_word_screens(screens: &mut ScreenMap, transitions: &Vec<FileTransition>)
    requires
        old(screens).wf(),
        forall|i: int|
            0 <= i < transitions@.len() ==> ((#[trigger] transitions@[i])@ matches
            FileTransitionV::Word { word, .. } ==> word.len() >= 1),
    ensures
        final(screens).wf(),
        final(screens)@ == expand_screens_spec(
            old(screens)@,
            transitions@.map_values(|t: FileTransition| t@),
        ),
{
    let ghost ftv = transitions@.map_values(|t: FileTransition| t@);
    let n = transitions.len();
    proof {
        assert(ftv.take(0) =~= Seq::<FileTransitionV>::empty());
    }
    let mut i: usize = 0;
    while i < n
        invariant
            screens.wf(),
            ftv == transitions@.map_values(|t: FileTransition| t@),
            n == transitions@.len(),
            i <= n,
            forall|j: int|
                0 <= j < n ==> ((#[trigger] ftv[j]) matches FileTransitionV::Word { word, .. }
                    ==> word.len() >= 1),
            screens@ == expand_screens_spec(old(screens)@, ftv.take(i as int)),
        decreases n - i,
    {
        match &transitions[i] {
            FileTransition::Word { from, to, word } => {
                proof {
                    assert(ftv[i as int] matches FileTransitionV::Word { word: wv, .. } ==> wv
                        == word@);
                }
                add_word_screens(screens, from, to, word);
            },
            _ => {},
        }
        proof {
            assert(ftv.take(i + 1).drop_last() =~= ftv.take(i as int));
            assert(ftv.take(i + 1).last() == ftv[i as int]);
        }
        i += 1;
    }
    proof {
        assert(ftv.take(n as int) =~= ftv);
    }
}

/// The draft representation of a scenario file: the start id, the declared
/// screens in file order, and the raw transition records.
pub struct FileScenario {
    pub first: Id,
    pub screens: Vec<(Id, Screen)>,
    pub transitions: Vec<RawTransition>,
}

/// The screens a draft declares, as a map; a later duplicate id wins.
pub open spec fn draft_screens(raw: FileScenario) -> Map<Seq<char>, Seq<char>> {
    map_of(raw.screens@.map_values(|p: (Id, Screen)| (p.0@, p.1@)))
}

/// The raw transition records a draft declares, as mathematical values.
pub open spec fn raw_transitions(raw: FileScenario) -> Seq<RawTransitionV> {
    raw.transitions@.map_values(|t: RawTransition| t@)
}

/// Builds the final immutable scenario from a draft: every raw record is
/// classified and its chords parsed, every word transition gets its
/// intermediate screens synthesized, and the declared edges are expanded
/// in declaration order.  Loading succeeds if and only if every record
/// classifies; otherwise the error names the first offending record.
pub fn load(raw: FileScenario) -> (r: Result<Scenario, LoadError>)
    ensures
        (r is Ok) <==> all_classify_ok(raw_transitions(raw)),
        r matches Ok(s) ==> {
            &&& s.wf()
            &&& s@.first == raw.first@
            &&& s@.screens == expand_screens_spec(
                draft_screens(raw),
                classified_spec(raw_transitions(raw)),
            )
            &&& s@.transitions == edges_spec(classified_spec(raw_transitions(raw)))
        },
        r matches Err(e) ==> {
            &&& e.index < raw_transitions(raw).len()
            &&& classify_spec(raw_transitions(raw)[e.index as int]) == Err::<
                FileTransitionV,
                TransitionError,
            >(e.kind)
            &&& forall|j: int|
                0 <= j < e.index ==> classify_spec(raw_transitions(raw)[j]) is Ok
        },
{
    let ghost rts = raw_transitions(raw);
    let nt = raw.transitions.len();
    let mut fts: Vec<FileTransition> = Vec::new();
    let mut i: usize = 0;
    while i < nt
        invariant
            rts == raw_transitions(raw),
            nt == raw.transitions@.len(),
            i <= nt,
            fts@.len() == i,
            forall|j: int|
                0 <= j < i ==> classify_spec(rts[j]) is Ok && fts@.map_values(
                    |t: FileTransition| t@,
                )[j] == classify_spec(rts[j])->Ok_0,
        decreases nt - i,
    {
        match classify(&raw.transitions[i]) {
            Ok(ft) => {
                fts.push(ft);
            },
            Err(kind) => {
                return Err(LoadError { index: i, kind });
            },
        }
        i += 1;
    }
    let ghost ftv = fts@.map_values(|t: FileTransition| t@);
    proof {
        assert(ftv =~= classified_spec(rts));
    }

    let ns = raw.screens.len();
    let mut screens = ScreenMap::new();
    proof {
        assert(raw.screens@.take(0).map_values(|p: (Id, Screen)| (p.0@, p.1@))
            =~= Seq::<(Seq<char>, Seq<char>)>::empty());
    }
    let mut k: usize = 0;
    while k < ns
        invariant
            screens.wf(),
            ns == raw.screens@.len(),
            k <= ns,
            screens@ == map_of(raw.screens@.take(k as int).map_values(|p: (Id, Screen)| (p.0@, p.1@))),
        decreases ns - k,
    {
        screens.insert(raw.screens[k].0.clone(), raw.screens[k].1.clone());
        proof {
            let prefix = raw.screens@.take(k + 1).map_values(|p: (Id, Screen)| (p.0@, p.1@));
            assert(prefix.drop_last() =~= raw.screens@.take(k as int).map_values(
                |p: (Id, Screen)| (p.0@, p.1@),
            ));
            assert(prefix.last() == (raw.screens@[k as int].0@, raw.screens@[k as int].1@));
        }
        k += 1;
    }
    proof {
        assert(raw.screens@.take(ns as int) =~= raw.screens@);
    }

    proof {
        assert forall|a: int|
            0 <= a < fts@.len() implies ((#[trigger] fts@[a])@ matches FileTransitionV::Word {
            word,
            ..
        } ==> word.len() >= 1) by {
            assert(fts@[a]@ == ftv[a]);
            assert(ftv[a] == classify_spec(rts[a])->Ok_0);
            assert(classify_spec(rts[a]) is Ok);
        };
    }
    add_intermediate_word_screens(&mut screens, &fts);

    let mut edges: Vec<Transition> = Vec::new();
    proof {
        assert(ftv.take(0) =~= Seq::<FileTransitionV>::empty());
        assert(edges@.map_values(|t: Transition| t@) =~= edges_spec(ftv.take(0)));
    }
    let nf = fts.len();
    let mut e: usize = 0;
    while e < nf
        invariant
            ftv == fts@.map_values(|t: FileTransition| t@),
            nf == fts@.len(),
            e <= nf,
            forall|j: int|
                0 <= j < nf ==> ((#[trigger] ftv[j]) matches FileTransitionV::Word { word, .. }
                    ==> word.len() >= 1),
            edges@.map_values(|t: Transition| t@) == edges_spec(ftv.take(e as int)),
        decreases nf - e,
    {
        let mut chain = match &fts[e] {
            FileTransition::Key { from, to, key } => {
                let c = file_key_to_transition(from, to, key);
                proof {
                    assert(c@.map_values(|t: Transition| t@) == file_transition_edges(
                        ftv[e as int],
                    ));
                }
                c
            },
            FileTransition::Keys { from, to, keys } => {
                let c = file_keys_to_transition(from, to, keys);
                proof {
                    assert(c@.map_values(|t: Transition| t@) == file_transition_edges(
                        ftv[e as int],
                    ));
                }
                c
            },
            FileTransition::Word { from, to, word } => {
                let c = file_word_to_transition(from, to, word);
                proof {
                    assert(c@.map_values(|t: Transition| t@) == file_transition_edges(
                        ftv[e as int],
                    ));
                }
                c
            },
        };
        let ghost chainv = chain@.map_values(|t: Transition| t@);
        edges.append(&mut chain);
        proof {
            assert(edges@.map_values(|t: Transition| t@) =~= edges_spec(ftv.take(e as int))
                + chainv);
        }
        proof {
            assert(ftv.take(e + 1).drop_last() =~= ftv.take(e as int));
            assert(ftv.take(e + 1).last() == ftv[e as int]);
        }
        e += 1;
    }
    proof {
        assert(ftv.take(nf as int) =~= ftv);
    }

    Ok(Scenario { first: raw.first, screens, transitions: edges })
}

} // verus!
