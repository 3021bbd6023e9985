//! The word-transition expander: turns one declared "typed word" edge into
//! a chain of single-chord edges, and synthesizes the missing intermediate
//! screens by diffing the start screen against the end screen and
//! substituting the partially typed word.

use vstd::prelude::*;

use crate::chord::{no_modifiers, Key};
use crate::diffing::{diff, diff_chunks, Chunk, ChunkV};
use crate::scenario::{Id, ScreenMap, Transition, TransitionV};
use crate::text::{contains_str, contains_sub, mint_id, mint_id_spec, replace_str, replace_spec};

verus! {

/// The reserved placeholder with which an author marks where typing will
/// happen: a cursor glyph followed by an empty-document glyph.
pub open spec fn cursor_placeholder() -> Seq<char> {
    seq!['\u{2503}', '\u{1F5CC}']
}

/// The plain cursor glyph that replaces the placeholder before diffing.
pub open spec fn cursor_glyph() -> Seq<char> {
    seq!['\u{2503}']
}

/// A chunk sequence with its leading deletions dropped: content present
/// only in the start screen is not relevant to constructing the end screen.
pub open spec fn skip_leading_deletes(cs: Seq<ChunkV>) -> Seq<ChunkV>
    decreases cs.len(),
{
    if cs.len() == 0 {
        cs
    } else if cs[0] is Delete {
        skip_leading_deletes(cs.drop_first())
    } else {
        cs
    }
}

/// The text one chunk contributes to an intermediate screen: kept verbatim
/// when equal or deleted (text being typed over stays visible), the typed
/// prefix substituted for the word when inserted text contains the word,
/// and dropped entirely when inserted text does not.
pub open spec fn chunk_contribution(c: ChunkV, word: Seq<char>, typed: Seq<char>) -> Seq<char> {
    match c {
        ChunkV::Equal(s) => s,
        ChunkV::Delete(s) => s,
        ChunkV::Insert(s) => if contains_sub(s, word) {
            replace_spec(s, word, typed)
        } else {
            Seq::empty()
        },
    }
}

/// The concatenated contributions of a chunk sequence.
pub open spec fn render_chunks(cs: Seq<ChunkV>, word: Seq<char>, typed: Seq<char>) -> Seq<char>
    decreases cs.len(),
{
    if cs.len() == 0 {
        Seq::empty()
    } else {
        chunk_contribution(cs[0], word, typed) + render_chunks(cs.drop_first(), word, typed)
    }
}

/// The content synthesized for one intermediate screen: normalize the start
/// screen's placeholder to the plain cursor, diff it against the end
/// screen, drop leading deletions, and render each remaining chunk with the
/// typed prefix substituted for the word.
pub open spec fn intermediate_screen_spec(
    from: Seq<char>,
    to: Seq<char>,
    word: Seq<char>,
    typed: Seq<char>,
) -> Seq<char> {
    render_chunks(
        skip_leading_deletes(diff_chunks(replace_spec(from, cursor_placeholder(), cursor_glyph()), to)),
        word,
        typed,
    )
}

fn is_delete_chunk(c: &Chunk) -> (r: bool)
    ensures
        r == (c@ is Delete),
{
    match c {
        Chunk::Delete(_) => true,
        _ => false,
    }
}

/// Renders the intermediate screen content from an already computed chunk
/// sequence: leading deletions are dropped, then every chunk contributes
/// its text with the typed prefix substituted for the word.
pub fn render_intermediate(chunks: &Vec<Chunk>, word: &str, typed: &str) -> (r: String)
    ensures
        r@ == render_chunks(
            skip_leading_deletes(chunks@.map_values(|c: Chunk| c@)),
            word@,
            typed@,
        ),
{
    let ghost cs = chunks@.map_values(|c: Chunk| c@);
    let n = chunks.len();
    proof {
        assert(cs.skip(0) =~= cs);
    }
    let mut start: usize = 0;
    while start < n && is_delete_chunk(&chunks[start])
        invariant
            cs == chunks@.map_values(|c: Chunk| c@),
            n == chunks@.len(),
            n == cs.len(),
            start <= n,
            skip_leading_deletes(cs) == skip_leading_deletes(cs.skip(start as int)),
        decreases n - start,
    {
        proof {
            assert(cs.skip(start as int)[0] == cs[start as int]);
            assert(cs.skip(start as int).drop_first() =~= cs.skip(start as int + 1));
        }
        start += 1;
    }
    proof {
        assert(skip_leading_deletes(cs) =~= cs.skip(start as int));
    }
    let mut out = String::new();
    let ghost tail = cs.skip(start as int);
    let mut i: usize = start;
    proof {
        assert(tail.skip(0) =~= tail);
        assert(Seq::<char>::empty() + render_chunks(tail, word@, typed@) =~= render_chunks(
            tail,
            word@,
            typed@,
        ));
    }
    while i < n
        invariant
            cs == chunks@.map_values(|c: Chunk| c@),
            n == chunks@.len(),
            n == cs.len(),
            start <= i <= n,
            tail == cs.skip(start as int),
            n - start == tail.len(),
            render_chunks(tail, word@, typed@) == out@ + render_chunks(
                tail.skip(i - start as int),
                word@,
                typed@,
            ),
        decreases n - i,
    {
        let ghost rest = tail.skip(i - start as int);
        proof {
            assert(rest[0] == tail[i - start as int]);
            assert(tail[i - start as int] == cs[i as int]);
            assert(rest.drop_first() =~= tail.skip(i + 1 - start as int));
        }
        match &chunks[i] {
            Chunk::Equal(s) => {
                out.append(s.as_str());
            },
            Chunk::Delete(s) => {
                out.append(s.as_str());
            },
            Chunk::Insert(s) => {
                if contains_str(s.as_str(), word) {
                    let replaced = replace_str(s.as_str(), word, typed);
                    out.append(replaced.as_str());
                } else {
                    proof {
                        assert(out@ + Seq::<char>::empty() =~= out@);
                    }
                }
            },
        }
        proof {
            assert((out@ + render_chunks(rest.drop_first(), word@, typed@)) =~= render_chunks(
                tail,
                word@,
                typed@,
            ));
        }
        i += 1;
    }
    proof {
        assert(tail.skip(n - start as int) =~= Seq::<ChunkV>::empty());
        assert(out@ + Seq::<char>::empty() =~= out@);
    }
    out
}

/// Synthesizes the intermediate screen that looks like the end screen with
/// only the typed prefix of the word in place of the full word: the start
/// screen's placeholder is normalized, the two screens are diffed, and the
/// chunks are rendered.
pub fn generate_intermediate_screen(from: &str, to: &str, word: &str, intermediate: &str) -> (r:
    String)
    ensures
        r@ == intermediate_screen_spec(from@, to@, word@, intermediate@),
{
    let placeholder = "\u{2503}\u{1F5CC}";
    let cursor = "\u{2503}";
    proof {
        reveal_strlit("\u{2503}\u{1F5CC}");
        reveal_strlit("\u{2503}");
        assert(placeholder@ =~= cursor_placeholder());
        assert(cursor@ =~= cursor_glyph());
    }
    let normalized = replace_str(from, placeholder, cursor);
    let chunks = diff(normalized.as_str(), to);
    render_intermediate(&chunks, word, intermediate)
}

/// The screens map after generating this word's intermediate screens from
/// index `i` upward: each step requires both boundary screens to resolve
/// and stores the synthesized screen under a minted id; the first step
/// whose boundary screens are missing aborts this and all remaining steps.
pub open spec fn word_screens_from(
    m: Map<Seq<char>, Seq<char>>,
    from: Seq<char>,
    to: Seq<char>,
    word: Seq<char>,
    i: int,
) -> Map<Seq<char>, Seq<char>>
    decreases word.len() - i,
{
    if i < 0 || i + 1 >= word.len() {
        m
    } else if m.contains_key(from) && m.contains_key(to) {
        word_screens_from(
            m.insert(
                mint_id_spec(to, i),
                intermediate_screen_spec(m[from], m[to], word, word.take(i + 1)),
            ),
            from,
            to,
            word,
            i + 1,
        )
    } else {
        m
    }
}

/// The screens map after generating all of one word's intermediate
/// screens: a word of `n` characters yields indices `0` to `n - 2`.
pub open spec fn word_screens_spec(
    m: Map<Seq<char>, Seq<char>>,
    from: Seq<char>,
    to: Seq<char>,
    word: Seq<char>,
) -> Map<Seq<char>, Seq<char>> {
    word_screens_from(m, from, to, word, 0)
}

/// Generates and stores the intermediate screens for one declared word
/// transition.
pub fn add_word_screens(screens: &mut ScreenMap, from: &Id, to: &Id, word: &String)
    requires
        old(screens).wf(),
        word@.len() >= 1,
    ensures
        final(screens).wf(),
        final(screens)@ == word_screens_spec(old(screens)@, from@, to@, word@),
{
    let n = word.as_str().unicode_len();
    let mut i: usize = 0;
    while i + 1 < n
        invariant
            screens.wf(),
            1 <= n == word@.len(),
            i + 1 <= n,
            word_screens_spec(old(screens)@, from@, to@, word@) == word_screens_from(
                screens@,
                from@,
                to@,
                word@,
                i as int,
            ),
        decreases n - i,
    {
        let content = match (screens.get(from), screens.get(to)) {
            (Some(screen_from), Some(screen_to)) => Some(
                generate_intermediate_screen(
                    screen_from.as_str(),
                    screen_to.as_str(),
                    word.as_str(),
                    word.as_str().substring_char(0, i + 1),
                ),
            ),
            _ => None,
        };
        match content {
            Some(generated) => {
                let id = mint_id(to, i);
                screens.insert(id, generated);
                i += 1;
            },
            None => {
                return ;
            },
        }
    }
}

/// The single-chord transition a word expands to at character index `i`:
/// the chain starts at the declared source, threads through the minted
/// intermediate ids, and ends at the declared target.
pub open spec fn word_transition_at(
    from: Seq<char>,
    to: Seq<char>,
    word: Seq<char>,
    i: int,
) -> TransitionV {
    TransitionV {
        from: if i == 0 {
            from
        } else {
            mint_id_spec(to, i - 1)
        },
        to: if i == word.len() - 1 {
            to
        } else {
            mint_id_spec(to, i)
        },
        key: Key { key: word[i], modifiers: no_modifiers() },
    }
}

/// The transition chain a declared word expands to: one transition per
/// character of the word.
pub open spec fn word_transitions_spec(from: Seq<char>, to: Seq<char>, word: Seq<char>) -> Seq<
    TransitionV,
> {
    Seq::new(word.len(), |i: int| word_transition_at(from, to, word, i))
}

/// Expands a declared word transition into its chain of single-chord
/// transitions: a word of `n` characters yields exactly `n` transitions.
pub fn file_word_to_transition(from: &Id, to: &Id, word: &String) -> (r: Vec<Transition>)
    requires
        word@.len() >= 1,
    ensures
        r@.len() == word@.len(),
        r@.map_values(|t: Transition| t@) == word_transitions_spec(from@, to@, word@),
{
    let n = word.as_str().unicode_len();
    let mut r: Vec<Transition> = Vec::new();
    let mut i: usize = 0;
    while i < n
        invariant
            1 <= n == word@.len(),
            i <= n,
            r@.len() == i,
            forall|j: int|
                0 <= j < i ==> r@.map_values(|t: Transition| t@)[j] == word_transition_at(
                    from@,
                    to@,
                    word@,
                    j,
                ),
        decreases n - i,
    {
        let t_from = if i == 0 {
            from.clone()
        } else {
            mint_id(to, i - 1)
        };
        let t_to = if i == n - 1 {
            to.clone()
        } else {
            mint_id(to, i)
        };
        let c = word.as_str().get_char(i);
        r.push(Transition { from: t_from, to: t_to, key: Key::from(c) });
        i += 1;
    }
    proof {
        assert(r@.map_values(|t: Transition| t@) =~= word_transitions_spec(from@, to@, word@));
    }
    r
}

proof fn lemma_word_expansion_count_from(
    m: Map<Seq<char>, Seq<char>>,
    from: Seq<char>,
    to: Seq<char>,
    word: Seq<char>,
    i: int,
)
    requires
        m.dom().finite(),
        m.contains_key(from),
        m.contains_key(to),
        0 <= i,
        forall|j: int| i <= j < word.len() - 1 ==> !m.contains_key(#[trigger] mint_id_spec(to, j)),
    ensures
        word_screens_from(m, from, to, word, i).dom().finite(),
        word_screens_from(m, from, to, word, i).dom().len() == m.dom().len() + (if i < word.len()
            - 1 {
            word.len() - 1 - i
        } else {
            0
        }),
    decreases word.len() - i,
{
    broadcast use vstd::set::group_set_axioms;

    if i + 1 >= word.len() {
    } else {
        let id = mint_id_spec(to, i);
        let m2 = m.insert(id, intermediate_screen_spec(m[from], m[to], word, word.take(i + 1)));
        assert(m2.dom() =~= m.dom().insert(id));
        assert(m2.dom().len() == m.dom().len() + 1);
        assert forall|j: int|
            i + 1 <= j < word.len() - 1 implies !m2.contains_key(
            #[trigger] mint_id_spec(to, j),
        ) by {
            if mint_id_spec(to, j) == id {
                crate::text::lemma_mint_id_injective(to, j, i);
            }
        }
        lemma_word_expansion_count_from(m2, from, to, word, i + 1);
    }
}

/// A word of `n` characters, expanded between boundary screens that both
/// exist, generates exactly its `n - 1` intermediate screens: when none of
/// the minted ids is already taken, the screens map gains exactly `n - 1`
/// entries.
pub proof fn lemma_word_expansion_count(
    m: Map<Seq<char>, Seq<char>>,
    from: Seq<char>,
    to: Seq<char>,
    word: Seq<char>,
)
    requires
        m.dom().finite(),
        m.contains_key(from),
        m.contains_key(to),
        word.len() >= 1,
        forall|j: int| 0 <= j < word.len() - 1 ==> !m.contains_key(#[trigger] mint_id_spec(to, j)),
    ensures
        word_screens_spec(m, from, to, word).dom().finite(),
        word_screens_spec(m, from, to, word).dom().len() == m.dom().len() + (word.len() - 1),
{
    lemma_word_expansion_count_from(m, from, to, word, 0);
}

/// Once a step's boundary screens cannot both be resolved, no intermediate
/// screen is generated for that word at or after that step, even if later
/// steps would have had valid screens: generation aborts for the rest of
/// the word.
pub proof fn lemma_word_expansion_aborts(
    m: Map<Seq<char>, Seq<char>>,
    from: Seq<char>,
    to: Seq<char>,
    word: Seq<char>,
    i: int,
)
    requires
        !(m.contains_key(from) && m.contains_key(to)),
    ensures
        word_screens_from(m, from, to, word, i) == m,
{
}

} // verus!
