//! Text as sequences of characters: white space, letter case, searching and
//! decimal numbers.
//!
//! Every function here works on `char`s, never on bytes, and its contract is
//! stated over `Seq<char>`, the view that `str` and `String` have.

use crate::scan::{first_at, first_index, lemma_first_index};
use vstd::prelude::*;
use vstd::slice::slice_subrange;

verus! {

// ---------------------------------------------------------------------------
// White space
// ---------------------------------------------------------------------------

/// Whether `c` carries Unicode's `White_Space` property.
pub open spec fn whitespace(c: char) -> bool {
    ||| '\u{9}' <= c <= '\u{d}'
    ||| c == ' '
    ||| c == '\u{85}'
    ||| c == '\u{a0}'
    ||| c == '\u{1680}'
    ||| '\u{2000}' <= c <= '\u{200a}'
    ||| c == '\u{2028}'
    ||| c == '\u{2029}'
    ||| c == '\u{202f}'
    ||| c == '\u{205f}'
    ||| c == '\u{3000}'
}

/// `s` without its leading white space.
pub open spec fn trimmed_start(s: Seq<char>) -> Seq<char>
    decreases s.len(),
{
    if s.len() > 0 && whitespace(s[0]) {
        trimmed_start(s.drop_first())
    } else {
        s
    }
}

/// `s` without its trailing white space.
pub open spec fn trimmed_end(s: Seq<char>) -> Seq<char>
    decreases s.len(),
{
    if s.len() > 0 && whitespace(s.last()) {
        trimmed_end(s.drop_last())
    } else {
        s
    }
}

/// `s` without leading and trailing white space.
pub open spec fn trimmed(s: Seq<char>) -> Seq<char> {
    trimmed_end(trimmed_start(s))
}

/// Tells whether `c` is white space.
pub fn is_whitespace(c: char) -> (b: bool)
    ensures
        b == whitespace(c),
{
    ('\u{9}' <= c && c <= '\u{d}') || c == ' ' || c == '\u{85}' || c == '\u{a0}' || c == '\u{1680}'
        || ('\u{2000}' <= c && c <= '\u{200a}') || c == '\u{2028}' || c == '\u{2029}' || c
        == '\u{202f}' || c == '\u{205f}' || c == '\u{3000}'
}

/// The part of `s` between its leading and its trailing white space.
pub fn trim(s: &[char]) -> (r: &[char])
    ensures
        r@ == trimmed(s@),
{
    let n = s.len();
    let mut a: usize = 0;
    assert(s@.skip(0) == s@);
    while a < n && is_whitespace(s[a])
        invariant
            n == s@.len(),
            a <= n,
            trimmed_start(s@) == trimmed_start(s@.skip(a as int)),
        decreases n - a,
    {
        assert(s@.skip(a as int).drop_first() == s@.skip(a + 1));
        a += 1;
    }
    assert(s@.skip(a as int) == s@.subrange(a as int, n as int));
    let mut b: usize = n;
    while a < b && is_whitespace(s[b - 1])
        invariant
            n == s@.len(),
            a <= b <= n,
            trimmed(s@) == trimmed_end(s@.subrange(a as int, b as int)),
        decreases b - a,
    {
        assert(s@.subrange(a as int, b as int).drop_last() == s@.subrange(a as int, b - 1));
        b -= 1;
    }
    slice_subrange(s, a, b)
}

/// Text that neither begins nor ends with white space is trimmed already.
pub proof fn lemma_trimmed_unchanged(s: Seq<char>)
    requires
        s.len() == 0 || (!whitespace(s[0]) && !whitespace(s.last())),
    ensures
        trimmed(s) == s,
{
}

// ---------------------------------------------------------------------------
// Searching
// ---------------------------------------------------------------------------

/// Looks for the first `c` in `s`.
pub fn find(s: &[char], c: char) -> (r: Option<usize>)
    ensures
        match r {
            Some(i) => first_index(s@, c) == Some(i as int) && first_at(s@, c, i as int),
            None => first_index(s@, c) is None && !s@.contains(c),
        },
{
    let mut i: usize = 0;
    while i < s.len()
        invariant
            i <= s.len(),
            forall|j: int| 0 <= j < i ==> s@[j] != c,
        decreases s.len() - i,
    {
        if s[i] == c {
            proof {
                lemma_first_index(s@, c, i as int);
            }
            return Some(i);
        }
        i += 1;
    }
    None
}

// ---------------------------------------------------------------------------
// Letter case
// ---------------------------------------------------------------------------

/// What `char::to_uppercase` yields for `c`: the characters of its uppercase
/// mapping in Unicode, in order.
pub uninterp spec fn unicode_uppercase(c: char) -> Seq<char>;

/// The uppercase mapping of one character. An ASCII letter maps to its capital,
/// any other ASCII character to itself, and a character beyond ASCII to its
/// Unicode mapping, which may be longer than one character.
pub open spec fn upper(c: char) -> Seq<char> {
    if 'a' <= c <= 'z' {
        seq![(c as int - 32) as char]
    } else if c <= '\u{7f}' {
        seq![c]
    } else {
        unicode_uppercase(c)
    }
}

/// `s` in uppercase: the mappings of its characters, one after another.
pub open spec fn uppercase(s: Seq<char>) -> Seq<char>
    decreases s.len(),
{
    if s.len() == 0 {
        Seq::empty()
    } else {
        uppercase(s.drop_last()) + upper(s.last())
    }
}

/// Whether uppercasing leaves every character of `s` as it is by the ASCII
/// rule alone: all are ASCII and none is a small letter.
pub open spec fn plain_upper(s: Seq<char>) -> bool {
    forall|i: int| 0 <= i < s.len() ==> (#[trigger] s[i]) <= '\u{7f}' && !('a' <= s[i] <= 'z')
}

/// Calls `char::to_uppercase` and collects the characters it yields. The
/// contract names that result; nothing more is claimed of it.
#[verifier::external_body]
fn unicode_upper(c: char) -> (r: Vec<char>)
    ensures
        r@ == unicode_uppercase(c),
{
    c.to_uppercase().collect()
}

/// Turns `s` into uppercase.
pub fn to_uppercase(s: &[char]) -> (r: Vec<char>)
    ensures
        r@ == uppercase(s@),
{
    let mut r: Vec<char> = Vec::new();
    let mut i: usize = 0;
    while i < s.len()
        invariant
            i <= s.len(),
            r@ == uppercase(s@.take(i as int)),
        decreases s.len() - i,
    {
        let c = s[i];
        assert(s@.take(i + 1).drop_last() == s@.take(i as int));
        assert(s@.take(i + 1).last() == c);
        if 'a' <= c && c <= 'z' {
            let b: u8 = c as u8;
            r.push((b - 32) as char);
        } else if c <= '\u{7f}' {
            r.push(c);
        } else {
            let u = unicode_upper(c);
            let ghost before = r@;
            let mut k: usize = 0;
            while k < u.len()
                invariant
                    k <= u.len(),
                    r@ == before + u@.take(k as int),
                decreases u.len() - k,
            {
                r.push(u[k]);
                k += 1;
            }
            assert(u@.take(u.len() as int) == u@);
        }
        i += 1;
    }
    assert(s@.take(s.len() as int) == s@);
    r
}

/// Uppercasing goes through a concatenation.
pub proof fn lemma_uppercase_concat(a: Seq<char>, b: Seq<char>)
    ensures
        uppercase(a + b) == uppercase(a) + uppercase(b),
    decreases b.len(),
{
    if b.len() == 0 {
        assert(a + b == a);
    } else {
        lemma_uppercase_concat(a, b.drop_last());
        assert((a + b).drop_last() == a + b.drop_last());
        assert((a + b).last() == b.last());
    }
}

/// Text of capitals, digits and signs in ASCII is its own uppercase.
pub proof fn lemma_uppercase_plain(s: Seq<char>)
    requires
        plain_upper(s),
    ensures
        uppercase(s) == s,
    decreases s.len(),
{
    if s.len() > 0 {
        lemma_uppercase_plain(s.drop_last());
        assert(s.drop_last().push(s.last()) == s);
    }
}

/// Uppercasing ASCII text keeps its length, yields ASCII text without small
/// letters, and moves no character that is not a small letter.
pub proof fn lemma_uppercase_ascii(s: Seq<char>)
    requires
        forall|i: int| 0 <= i < s.len() ==> (#[trigger] s[i]) <= '\u{7f}',
    ensures
        uppercase(s).len() == s.len(),
        plain_upper(uppercase(s)),
        forall|i: int|
            0 <= i < s.len() ==> (#[trigger] uppercase(s)[i]) == (if 'a' <= s[i] <= 'z' {
                (s[i] as int - 32) as char
            } else {
                s[i]
            }),
    decreases s.len(),
{
    if s.len() > 0 {
        lemma_uppercase_ascii(s.drop_last());
    }
}

// ---------------------------------------------------------------------------
// Decimal numbers
// ---------------------------------------------------------------------------

/// Whether `c` is one of the digits `0` to `9`.
pub open spec fn digit(c: char) -> bool {
    '0' <= c <= '9'
}

/// Whether `s` holds digits only.
pub open spec fn digits(s: Seq<char>) -> bool {
    forall|i: int| 0 <= i < s.len() ==> digit(#[trigger] s[i])
}

/// The number that the digits of `s` write in base ten.
pub open spec fn value(s: Seq<char>) -> nat
    decreases s.len(),
{
    if s.len() == 0 {
        0
    } else {
        (10 * value(s.drop_last()) + (s.last() as int - '0' as int)) as nat
    }
}

/// The number that `s` writes, if `s` is an optional `+` followed by one or more
/// digits and the number is at most `max`. Leading zeros are accepted; a minus
/// sign, white space or any other character is not.
pub open spec fn number(s: Seq<char>, max: nat) -> Option<nat> {
    let d = if s.len() > 0 && s[0] == '+' {
        s.drop_first()
    } else {
        s
    };
    if d.len() > 0 && digits(d) && value(d) <= max {
        Some(value(d))
    } else {
        None
    }
}

/// The digits of `n` in base ten, without leading zeros.
pub open spec fn decimal(n: nat) -> Seq<char>
    decreases n,
{
    if n < 10 {
        seq![(n + 48) as char]
    } else {
        decimal(n / 10).push((n % 10 + 48) as char)
    }
}

/// A longer run of digits writes no smaller number.
pub proof fn lemma_value_grows(s: Seq<char>, k: int)
    requires
        digits(s),
        0 <= k <= s.len(),
    ensures
        value(s.take(k)) <= value(s),
    decreases s.len() - k,
{
    if k < s.len() {
        lemma_value_grows(s, k + 1);
        assert(s.take(k + 1).drop_last() == s.take(k));
        assert(digit(s[k]));
    } else {
        assert(s.take(k) == s);
    }
}

/// Reads a number as `number` describes it.
pub fn parse_number(s: &[char], max: u32) -> (r: Option<u32>)
    ensures
        match r {
            Some(v) => number(s@, max as nat) == Some(v as nat),
            None => number(s@, max as nat) is None,
        },
{
    let start: usize = if s.len() > 0 && s[0] == '+' {
        1
    } else {
        0
    };
    let d = slice_subrange(s, start, s.len());
    let ghost tail = if s@.len() > 0 && s@[0] == '+' {
        s@.drop_first()
    } else {
        s@
    };
    assert(d@ == tail);
    if d.len() == 0 {
        return None;
    }
    let mut v: u64 = 0;
    let mut i: usize = 0;
    while i < d.len()
        invariant
            i <= d.len(),
            d@.len() > 0,
            d@ == tail,
            tail == (if s@.len() > 0 && s@[0] == '+' {
                s@.drop_first()
            } else {
                s@
            }),
            digits(d@.take(i as int)),
            v == value(d@.take(i as int)),
            v <= max,
        decreases d.len() - i,
    {
        let c = d[i];
        if !('0' <= c && c <= '9') {
            assert(!digit(d@[i as int]));
            return None;
        }
        assert(d@.take(i + 1).drop_last() == d@.take(i as int));
        assert(d@.take(i + 1).last() == c);
        let next: u64 = v * 10 + (c as u64 - 48);
        assert(next == value(d@.take(i + 1)));
        if next > max as u64 {
            proof {
                if digits(d@) {
                    lemma_value_grows(d@, i + 1);
                }
            }
            return None;
        }
        assert(digits(d@.take(i + 1))) by {
            assert forall|j: int| 0 <= j < i + 1 implies digit(#[trigger] d@.take(i + 1)[j]) by {
                if j < i {
                    assert(d@.take(i + 1)[j] == d@.take(i as int)[j]);
                }
            }
        }
        v = next;
        i += 1;
    }
    assert(d@.take(d.len() as int) == d@);
    Some(v as u32)
}

/// Writes `n` in base ten.
pub fn format_number(n: u32) -> (r: Vec<char>)
    ensures
        r@ == decimal(n as nat),
    decreases n,
{
    if n < 10 {
        let mut r: Vec<char> = Vec::new();
        r.push((n as u8 + 48) as char);
        assert(r@ == seq![(n as nat + 48) as char]);
        r
    } else {
        let mut r = format_number(n / 10);
        r.push(((n % 10) as u8 + 48) as char);
        r
    }
}

/// A number written by `decimal` is read back by `number`.
pub proof fn lemma_number_of_decimal(n: nat, max: nat)
    ensures
        decimal(n).len() > 0,
        digits(decimal(n)),
        value(decimal(n)) == n,
        number(decimal(n), max) == (if n <= max {
            Some(n)
        } else {
            None
        }),
    decreases n,
{
    if n < 10 {
        let s = decimal(n);
        assert(s.drop_last().len() == 0);
        assert(value(s.drop_last()) == 0);
    } else {
        lemma_number_of_decimal(n / 10, max);
        let s = decimal(n);
        assert(s.drop_last() == decimal(n / 10));
        assert(s.last() == (n % 10 + 48) as char);
        assert forall|i: int| 0 <= i < s.len() implies digit(#[trigger] s[i]) by {
            if i < s.len() - 1 {
                assert(s[i] == decimal(n / 10)[i]);
            }
        }
        assert(s[0] == decimal(n / 10)[0]);
    }
}

// ---------------------------------------------------------------------------
// Strings
// ---------------------------------------------------------------------------

/// `String::push` appends one character.
pub assume_specification[ String::push ](s: &mut String, c: char)
    ensures
        final(s)@ == old(s)@.push(c),
;

/// The characters of `s`.
pub fn chars_of(s: &str) -> (v: Vec<char>)
    ensures
        v@ == s@,
{
    let mut v: Vec<char> = Vec::new();
    for c in it: s.chars()
        invariant
            it.seq() == s@,
            v@ == it.seq().take(it.index() as int),
    {
        v.push(c);
    }
    v
}

/// A string of the characters of `s`.
pub fn string_of(s: &[char]) -> (r: String)
    ensures
        r@ == s@,
{
    let mut r = String::new();
    let mut i: usize = 0;
    while i < s.len()
        invariant
            i <= s.len(),
            r@ == s@.take(i as int),
        decreases s.len() - i,
    {
        r.push(s[i]);
        i += 1;
    }
    assert(s@.take(s.len() as int) == s@);
    r
}

/// Whether `s` spells `word`.
pub fn spells(s: &[char], word: &str) -> (b: bool)
    ensures
        b == (s@ == word@),
{
    let w = chars_of(word);
    if w.len() != s.len() {
        return false;
    }
    let mut i: usize = 0;
    while i < s.len()
        invariant
            i <= s.len(),
            w@ == word@,
            w@.len() == s@.len(),
            forall|j: int| 0 <= j < i ==> s@[j] == w@[j],
        decreases s.len() - i,
    {
        if s[i] != w[i] {
            assert(s@[i as int] != w@[i as int]);
            return false;
        }
        i += 1;
    }
    assert(s@ =~= w@);
    true
}

} // verus!
