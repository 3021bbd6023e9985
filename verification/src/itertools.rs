//! Prefix iteration over a string's characters: a word of `n` characters
//! yields its `n` successive prefixes, shortest first.  The word expander
//! walks these to build the partially typed intermediate screens.

use vstd::prelude::*;

use crate::text::str_chars;

verus! {

/// Successive character prefixes of a text, shortest first.
pub struct NGram {
    string: Vec<char>,
    pos: usize,
}

impl NGram {
    /// The characters the prefixes are drawn from.
    pub closed spec fn text(&self) -> Seq<char> {
        self.string@
    }

    /// How many prefixes have been yielded so far.
    pub closed spec fn pos(&self) -> int {
        self.pos as int
    }

    /// Yields the next longer prefix: one more character of the text each
    /// time, until the whole text has been yielded.
    pub fn next(&mut self) -> (r: Option<String>)
        ensures
            final(self).text() == old(self).text(),
            old(self).pos() < old(self).text().len() ==> {
                &&& final(self).pos() == old(self).pos() + 1
                &&& r matches Some(p) && p@ == old(self).text().take(old(self).pos() + 1)
            },
            old(self).pos() >= old(self).text().len() ==> final(self).pos() == old(self).pos()
                && r is None,
    {
        if self.pos >= self.string.len() {
            return None;
        }
        self.pos += 1;
        let mut prefix = String::new();
        let mut j: usize = 0;
        proof {
            assert(self.string@.take(0) =~= Seq::<char>::empty());
        }
        while j < self.pos
            invariant
                self.pos <= self.string@.len(),
                j <= self.pos,
                prefix@ == self.string@.take(j as int),
            decreases self.pos - j,
        {
            let one = crate::text::char_to_string(self.string[j]);
            prefix.append(one.as_str());
            proof {
                assert(self.string@.take(j + 1) =~= self.string@.take(j as int).push(
                    self.string@[j as int],
                ));
            }
            j += 1;
        }
        Some(prefix)
    }
}

/// Texts that can be walked prefix by prefix.
pub trait NGramExt: View<V = Seq<char>> {
    /// The prefix iterator over this text's characters, starting before
    /// the first prefix.
    fn ngram(&self) -> (r: NGram)
        ensures
            r.text() == self@,
            r.pos() == 0,
    ;
}

impl NGramExt for String {
    fn ngram(&self) -> (r: NGram) {
        NGram { string: str_chars(self.as_str()), pos: 0 }
    }
}

} // verus!
