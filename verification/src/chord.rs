//! The key-chord model: one keystroke as a base character plus modifiers,
//! with a parser for the textual chord grammar and a (deliberately lossy)
//! serializer.

use vstd::prelude::*;

verus! {

/// One recognized modifier key.
#[derive(Clone, Copy, PartialEq, Eq, Structural, Debug)]
pub enum Modifier {
    Alt,
    Ctrl,
}

/// The modifiers held during a keystroke: a subset of { Alt, Ctrl }.
#[derive(Clone, Copy, PartialEq, Eq, Structural, Debug)]
pub struct ModifierSet {
    pub alt: bool,
    pub ctrl: bool,
}

/// The empty modifier set.
pub open spec fn no_modifiers() -> ModifierSet {
    ModifierSet { alt: false, ctrl: false }
}

/// The modifier set holding exactly one modifier.
pub open spec fn only_modifier(m: Modifier) -> ModifierSet {
    match m {
        Modifier::Alt => ModifierSet { alt: true, ctrl: false },
        Modifier::Ctrl => ModifierSet { alt: false, ctrl: true },
    }
}

impl ModifierSet {
    /// The empty modifier set.
    pub fn new() -> (r: ModifierSet)
        ensures
            r == no_modifiers(),
    {
        ModifierSet { alt: false, ctrl: false }
    }

    /// The set holding exactly the one given modifier.
    pub fn from_modifier(m: Modifier) -> (r: ModifierSet)
        ensures
            r == only_modifier(m),
    {
        match m {
            Modifier::Alt => ModifierSet { alt: true, ctrl: false },
            Modifier::Ctrl => ModifierSet { alt: false, ctrl: true },
        }
    }
}

/// One keystroke: a base character together with its modifiers.
#[derive(Clone, Copy, PartialEq, Eq, Structural, Debug)]
pub struct Key {
    pub key: char,
    pub modifiers: ModifierSet,
}

/// The error returned when a string matches no alternative of the chord
/// grammar.
#[derive(Clone, Copy, PartialEq, Eq, Structural, Debug)]
pub enum ParseError {
    InvalidChord,
}

/// The literal token that denotes a newline keystroke.
pub open spec fn enter_token() -> Seq<char> {
    seq!['<', 'E', 'n', 't', 'e', 'r', '>']
}

/// The literal token that denotes a tab keystroke.
pub open spec fn tab_token() -> Seq<char> {
    seq!['<', 'T', 'a', 'b', '>']
}

/// The chord grammar.  Alternatives are tried in order over the whole
/// string: `<A-c>` / `<C-c>` with any single base character, the literal
/// `<Enter>`, the literal `<Tab>`, then any single bare character.  A string
/// matching none of them parses to nothing.
pub open spec fn parse_spec(s: Seq<char>) -> Option<Key> {
    if s.len() == 5 && s[0] == '<' && (s[1] == 'A' || s[1] == 'C') && s[2] == '-' && s[4] == '>' {
        Some(
            Key {
                key: s[3],
                modifiers: if s[1] == 'A' {
                    only_modifier(Modifier::Alt)
                } else {
                    only_modifier(Modifier::Ctrl)
                },
            },
        )
    } else if s == enter_token() {
        Some(Key { key: '\n', modifiers: no_modifiers() })
    } else if s == tab_token() {
        Some(Key { key: '\t', modifiers: no_modifiers() })
    } else if s.len() == 1 {
        Some(Key { key: s[0], modifiers: no_modifiers() })
    } else {
        None
    }
}

/// Serialization emits only the base character; the modifiers are dropped
/// on purpose (a load-time convenience, not a general codec).
pub open spec fn serialize_spec(k: Key) -> Seq<char> {
    seq![k.key]
}

impl Key {
    /// A chord with no modifiers.
    pub fn from(key: char) -> (r: Self)
        ensures
            r == (Key { key, modifiers: no_modifiers() }),
    {
        Key { key, modifiers: ModifierSet::new() }
    }

    /// A chord with exactly one modifier.
    pub fn with_modifier(key: char, modifier: Modifier) -> (r: Self)
        ensures
            r == (Key { key, modifiers: only_modifier(modifier) }),
    {
        Key { key, modifiers: ModifierSet::from_modifier(modifier) }
    }

    /// Serializes the chord to text: only the base character is emitted.
    pub fn serialize(&self) -> (r: String)
        ensures
            r@ == serialize_spec(*self),
    {
        crate::text::char_to_string(self.key)
    }

    /// Parses a textual chord.  Succeeds exactly on the strings the grammar
    /// accepts, and returns the chord the grammar gives them.
    pub fn from_string(s: &str) -> (r: Result<Key, ParseError>)
        ensures
            match r {
                Ok(k) => parse_spec(s@) == Some(k),
                Err(_) => parse_spec(s@) is None,
            },
    {
        let n = s.unicode_len();
        if n == 5 {
            let c0 = s.get_char(0);
            let c1 = s.get_char(1);
            let c2 = s.get_char(2);
            let c3 = s.get_char(3);
            let c4 = s.get_char(4);
            if c0 == '<' && (c1 == 'A' || c1 == 'C') && c2 == '-' && c4 == '>' {
                let modifiers = if c1 == 'A' {
                    ModifierSet::from_modifier(Modifier::Alt)
                } else {
                    ModifierSet::from_modifier(Modifier::Ctrl)
                };
                Ok(Key { key: c3, modifiers })
            } else if c0 == '<' && c1 == 'T' && c2 == 'a' && c3 == 'b' && c4 == '>' {
                proof {
                    assert(s@ =~= tab_token());
                }
                Ok(Key { key: '\t', modifiers: ModifierSet::new() })
            } else {
                proof {
                    assert(s@ != tab_token());
                }
                Err(ParseError::InvalidChord)
            }
        } else if n == 7 {
            let c0 = s.get_char(0);
            let c1 = s.get_char(1);
            let c2 = s.get_char(2);
            let c3 = s.get_char(3);
            let c4 = s.get_char(4);
            let c5 = s.get_char(5);
            let c6 = s.get_char(6);
            if c0 == '<' && c1 == 'E' && c2 == 'n' && c3 == 't' && c4 == 'e' && c5 == 'r' && c6
                == '>' {
                proof {
                    assert(s@ =~= enter_token());
                }
                Ok(Key { key: '\n', modifiers: ModifierSet::new() })
            } else {
                proof {
                    assert(s@ != enter_token());
                }
                Err(ParseError::InvalidChord)
            }
        } else if n == 1 {
            Ok(Key { key: s.get_char(0), modifiers: ModifierSet::new() })
        } else {
            Err(ParseError::InvalidChord)
        }
    }
}

/// Parsing a serialized chord reproduces the base character, but the parsed
/// modifier set is always empty, whatever modifiers the original chord held:
/// serialization does not round-trip modifiers.
pub proof fn lemma_parse_of_serialized(k: Key)
    ensures
        parse_spec(serialize_spec(k)) == Some(Key { key: k.key, modifiers: no_modifiers() }),
{
    assert(serialize_spec(k).len() == 1);
}

} // verus!
