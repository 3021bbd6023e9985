//! Verified character-level text algorithms: substring containment,
//! occurrence replacement, and decimal rendering of indices for minted
//! screen ids.

use vstd::prelude::*;

verus! {

/// `pat` occurs in `s` starting at character position `i`.
pub open spec fn contains_at(s: Seq<char>, pat: Seq<char>, i: int) -> bool {
    0 <= i && i + pat.len() <= s.len() && s.subrange(i, i + pat.len() as int) == pat
}

/// `pat` occurs somewhere in `s` (every string contains the empty string).
pub open spec fn contains_sub(s: Seq<char>, pat: Seq<char>) -> bool {
    exists|i: int| contains_at(s, pat, i)
}

/// Replacement of the occurrences of a non-empty `pat` in `s` by `repl`:
/// leftmost first, non-overlapping, never rescanning the replacement text.
/// With an empty `pat`, `s` is returned unchanged.
pub open spec fn replace_spec(s: Seq<char>, pat: Seq<char>, repl: Seq<char>) -> Seq<char>
    decreases s.len(),
{
    if pat.len() == 0 {
        s
    } else if s.len() < pat.len() {
        s
    } else if s.subrange(0, pat.len() as int) == pat {
        repl + replace_spec(s.skip(pat.len() as int), pat, repl)
    } else {
        seq![s[0]] + replace_spec(s.skip(1), pat, repl)
    }
}

/// Whether `pat` occurs in `s` at character position `i`.
fn matches_at(s: &str, pat: &str, i: usize) -> (r: bool)
    requires
        i + pat@.len() <= s@.len(),
    ensures
        r == contains_at(s@, pat@, i as int),
{
    let n = s.unicode_len();
    let m = pat.unicode_len();
    let mut j: usize = 0;
    while j < m
        invariant
            j <= m,
            m == pat@.len(),
            n == s@.len(),
            i + m <= n,
            forall|k: int| 0 <= k < j ==> s@[i + k] == pat@[k],
        decreases m - j,
    {
        if s.get_char(i + j) != pat.get_char(j) {
            proof {
                assert(s@.subrange(i as int, i + m as int)[j as int] != pat@[j as int]);
            }
            return false;
        }
        j += 1;
    }
    proof {
        assert(s@.subrange(i as int, i + m as int) =~= pat@);
    }
    true
}

/// Whether `pat` occurs anywhere in `s`.
pub fn contains_str(s: &str, pat: &str) -> (r: bool)
    ensures
        r == contains_sub(s@, pat@),
{
    let n = s.unicode_len();
    let m = pat.unicode_len();
    if m == 0 {
        proof {
            assert(s@.subrange(0, 0) =~= pat@);
            assert(contains_at(s@, pat@, 0));
        }
        return true;
    }
    if m > n {
        proof {
            assert forall|k: int| !contains_at(s@, pat@, k) by {}
        }
        return false;
    }
    let mut i: usize = 0;
    while n - i >= m
        invariant
            0 < m == pat@.len(),
            m <= n == s@.len(),
            i <= n,
            forall|k: int| 0 <= k < i ==> !contains_at(s@, pat@, k),
        decreases n - i,
    {
        if matches_at(s, pat, i) {
            return true;
        }
        i += 1;
    }
    proof {
        assert forall|k: int| !contains_at(s@, pat@, k) by {
            if 0 <= k && k + pat@.len() <= s@.len() {
                assert(k < i);
            }
        }
    }
    false
}

/// Replaces every occurrence of `pat` in `s` by `repl`, leftmost first and
/// non-overlapping.
pub fn replace_str(s: &str, pat: &str, repl: &str) -> (r: String)
    ensures
        r@ == replace_spec(s@, pat@, repl@),
{
    let n = s.unicode_len();
    let m = pat.unicode_len();
    if m == 0 {
        return s.to_owned();
    }
    let mut out = String::new();
    proof {
        assert(s@.skip(0) =~= s@);
        assert(Seq::<char>::empty() + replace_spec(s@, pat@, repl@) =~= replace_spec(
            s@,
            pat@,
            repl@,
        ));
    }
    let mut i: usize = 0;
    while i < n
        invariant
            0 < m == pat@.len(),
            n == s@.len(),
            i <= n,
            replace_spec(s@, pat@, repl@) == out@ + replace_spec(s@.skip(i as int), pat@, repl@),
        decreases n - i,
    {
        if m <= n - i && matches_at(s, pat, i) {
            proof {
                let rest = s@.skip(i as int);
                assert(rest.subrange(0, m as int) =~= s@.subrange(i as int, i + m as int));
                assert(rest.skip(m as int) =~= s@.skip(i + m as int));
                assert(out@ + (repl@ + replace_spec(s@.skip(i + m as int), pat@, repl@)) =~= (out@
                    + repl@) + replace_spec(s@.skip(i + m as int), pat@, repl@));
            }
            out.append(repl);
            i += m;
        } else {
            proof {
                let rest = s@.skip(i as int);
                if rest.len() >= m {
                    assert(rest.subrange(0, m as int) =~= s@.subrange(i as int, i + m as int));
                }
                assert(rest.skip(1) =~= s@.skip(i + 1));
                assert(seq![s@[i as int]] =~= s@.subrange(i as int, i + 1));
                assert(out@ + (seq![s@[i as int]] + replace_spec(s@.skip(i + 1), pat@, repl@)) =~= (
                out@ + s@.subrange(i as int, i + 1)) + replace_spec(s@.skip(i + 1), pat@, repl@));
            }
            out.append(s.substring_char(i, i + 1));
            i += 1;
        }
    }
    proof {
        assert(s@.skip(n as int) =~= Seq::<char>::empty());
        assert(out@ + Seq::<char>::empty() =~= out@);
    }
    out
}

/// The characters of a string, in order.
pub fn str_chars(s: &str) -> (r: Vec<char>)
    ensures
        r@ == s@,
{
    let n = s.unicode_len();
    let mut r: Vec<char> = Vec::new();
    proof {
        assert(s@.take(0) =~= Seq::<char>::empty());
    }
    let mut i: usize = 0;
    while i < n
        invariant
            n == s@.len(),
            i <= n,
            r@ == s@.take(i as int),
        decreases n - i,
    {
        r.push(s.get_char(i));
        proof {
            assert(s@.take(i + 1) =~= s@.take(i as int).push(s@[i as int]));
        }
        i += 1;
    }
    proof {
        assert(s@.take(n as int) =~= s@);
    }
    r
}

/// Relies on `String::from` for `char`: a string of exactly that character.
#[verifier::external_body]
pub(crate) fn char_to_string(c: char) -> (r: String)
    ensures
        r@ == seq![c],
{
    String::from(c)
}

/// The decimal digit character for a value below ten.
pub open spec fn dec_digit(d: int) -> char {
    if d == 0 {
        '0'
    } else if d == 1 {
        '1'
    } else if d == 2 {
        '2'
    } else if d == 3 {
        '3'
    } else if d == 4 {
        '4'
    } else if d == 5 {
        '5'
    } else if d == 6 {
        '6'
    } else if d == 7 {
        '7'
    } else if d == 8 {
        '8'
    } else {
        '9'
    }
}

/// The decimal representation of a natural number, most significant digit
/// first and without leading zeros (zero itself is "0").
pub open spec fn dec_digits(n: int) -> Seq<char>
    decreases n,
{
    if n < 10 {
        seq![dec_digit(n)]
    } else {
        dec_digits(n / 10) + seq![dec_digit(n % 10)]
    }
}

/// The id minted for the intermediate screen of index `i` on the way to
/// screen `to`: the target id, a dash, and the decimal index.
pub open spec fn mint_id_spec(to: Seq<char>, i: int) -> Seq<char> {
    to + seq!['-'] + dec_digits(i)
}

fn dec_digit_str(d: usize) -> (r: &'static str)
    requires
        d < 10,
    ensures
        r@ =~= seq![dec_digit(d as int)],
{
    let digits = "0123456789";
    proof {
        reveal_strlit("0123456789");
    }
    digits.substring_char(d, d + 1)
}

fn dec_string(n: usize) -> (r: String)
    ensures
        r@ == dec_digits(n as int),
    decreases n,
{
    if n < 10 {
        dec_digit_str(n).to_owned()
    } else {
        let mut r = dec_string(n / 10);
        r.append(dec_digit_str(n % 10));
        r
    }
}

/// Every decimal representation has at least one digit.
pub proof fn lemma_dec_digits_len(n: int)
    requires
        0 <= n,
    ensures
        dec_digits(n).len() >= 1,
    decreases n,
{
    if n >= 10 {
        lemma_dec_digits_len(n / 10);
    }
}

/// Distinct natural numbers have distinct decimal representations.
pub proof fn lemma_dec_digits_injective(a: int, b: int)
    requires
        0 <= a,
        0 <= b,
        dec_digits(a) == dec_digits(b),
    ensures
        a == b,
    decreases a + b,
{
    lemma_dec_digits_len(a);
    lemma_dec_digits_len(b);
    if a < 10 && b < 10 {
        assert(dec_digits(a)[0] == dec_digit(a));
        assert(dec_digits(b)[0] == dec_digit(b));
    } else if a < 10 && b >= 10 {
        lemma_dec_digits_len(b / 10);
        assert(dec_digits(b).len() >= 2);
    } else if a >= 10 && b < 10 {
        lemma_dec_digits_len(a / 10);
        assert(dec_digits(a).len() >= 2);
    } else {
        assert(dec_digits(a).last() == dec_digit(a % 10));
        assert(dec_digits(b).last() == dec_digit(b % 10));
        assert(a % 10 == b % 10);
        assert(dec_digits(a).drop_last() =~= dec_digits(a / 10));
        assert(dec_digits(b).drop_last() =~= dec_digits(b / 10));
        lemma_dec_digits_injective(a / 10, b / 10);
    }
}

/// Distinct indices mint distinct intermediate-screen ids for the same
/// target screen.
pub proof fn lemma_mint_id_injective(to: Seq<char>, i: int, j: int)
    requires
        0 <= i,
        0 <= j,
        mint_id_spec(to, i) == mint_id_spec(to, j),
    ensures
        i == j,
{
    let di = dec_digits(i);
    let dj = dec_digits(j);
    assert(mint_id_spec(to, i).len() == to.len() + 1 + di.len());
    assert(mint_id_spec(to, j).len() == to.len() + 1 + dj.len());
    assert(di =~= dj) by {
        assert(forall|k: int|
            0 <= k < di.len() ==> #[trigger] di[k] == mint_id_spec(to, i)[to.len() + 1 + k]);
        assert(forall|k: int|
            0 <= k < dj.len() ==> #[trigger] dj[k] == mint_id_spec(to, j)[to.len() + 1 + k]);
    }
    lemma_dec_digits_injective(i, j);
}

/// Mints the id of the intermediate screen of index `index` leading to the
/// screen `to`.
pub fn mint_id(to: &String, index: usize) -> (r: String)
    ensures
        r@ == mint_id_spec(to@, index as int),
{
    let mut r = to.clone();
    r.append("-");
    proof {
        reveal_strlit("-");
        assert(r@ =~= to@ + seq!['-']);
    }
    let digits = dec_string(index);
    r.append(digits.as_str());
    r
}

} // verus!
