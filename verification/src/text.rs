//! Character classes and small string operations that the rest of the
//! library builds on: equality and prefix tests on `&str`, and trimming
//! of the whitespace that shell output carries.

use vstd::prelude::*;

verus! {

/// The characters that may appear in the version field of a candidate
/// filename: ASCII digits, dots and underscores.
pub open spec fn version_char(c: char) -> bool {
    digit_char(c) || c == '.' || c == '_'
}

/// ASCII digits.
pub open spec fn digit_char(c: char) -> bool {
    '0' <= c && c <= '9'
}

/// Numeric value of an ASCII digit.
pub open spec fn digit_value(c: char) -> nat
    recommends
        digit_char(c),
{
    (c as nat - '0' as nat) as nat
}

/// The whitespace that is trimmed from the output of a system query:
/// blanks, tabs and line ends.
pub open spec fn space_char(c: char) -> bool {
    c == ' ' || c == '\t' || c == '\n' || c == '\r'
}

/// Decides `digit_char`.
pub fn is_digit(c: char) -> (r: bool)
    ensures
        r == digit_char(c),
{
    '0' <= c && c <= '9'
}

/// Decides `version_char`.
pub fn is_version_char(c: char) -> (r: bool)
    ensures
        r == version_char(c),
{
    is_digit(c) || c == '.' || c == '_'
}

/// Decides `space_char`.
pub fn is_space(c: char) -> (r: bool)
    ensures
        r == space_char(c),
{
    c == ' ' || c == '\t' || c == '\n' || c == '\r'
}

/// Whether `s` is a nonempty run of digits.
pub open spec fn all_digits(s: Seq<char>) -> bool {
    s.len() > 0 && forall|i: int| 0 <= i < s.len() ==> digit_char(#[trigger] s[i])
}

/// The number a run of digits spells.
pub open spec fn decimal_value(s: Seq<char>) -> nat
    decreases s.len(),
{
    if s.len() == 0 {
        0
    } else {
        decimal_value(s.drop_last()) * 10 + digit_value(s.last())
    }
}

/// Digits only grow the number: a prefix never spells more than the
/// whole run.
pub proof fn lemma_decimal_value_prefix(s: Seq<char>, j: int)
    requires
        0 <= j <= s.len(),
    ensures
        decimal_value(s.take(j)) <= decimal_value(s),
    decreases s.len() - j,
{
    if j < s.len() {
        assert(s.take(j + 1).drop_last() =~= s.take(j));
        assert(decimal_value(s.take(j)) <= decimal_value(s.take(j + 1)));
        lemma_decimal_value_prefix(s, j + 1);
    } else {
        assert(s.take(j) =~= s);
    }
}

/// Character-for-character equality of two string slices.
pub fn str_eq(a: &str, b: &str) -> (r: bool)
    ensures
        r == (a@ == b@),
{
    let alen = a.unicode_len();
    let blen = b.unicode_len();
    if alen != blen {
        return false;
    }
    let mut i: usize = 0;
    while i < alen
        invariant
            alen == a@.len(),
            alen == b@.len(),
            i <= alen,
            forall|k: int| 0 <= k < i ==> a@[k] == b@[k],
        decreases alen - i,
    {
        if a.get_char(i) != b.get_char(i) {
            return false;
        }
        i += 1;
    }
    proof {
        assert(a@ =~= b@);
    }
    true
}

/// Whether `p` is a prefix of `s`.
pub fn str_starts_with(s: &str, p: &str) -> (r: bool)
    ensures
        r == p@.is_prefix_of(s@),
{
    let slen = s.unicode_len();
    let plen = p.unicode_len();
    if plen > slen {
        return false;
    }
    let mut i: usize = 0;
    while i < plen
        invariant
            slen == s@.len(),
            plen == p@.len(),
            plen <= slen,
            i <= plen,
            forall|k: int| 0 <= k < i ==> s@[k] == p@[k],
        decreases plen - i,
    {
        if s.get_char(i) != p.get_char(i) {
            return false;
        }
        i += 1;
    }
    proof {
        assert(p@ =~= s@.subrange(0, p@.len() as int));
    }
    true
}

/// What is left of `s` once leading whitespace goes.
pub open spec fn trim_front(s: Seq<char>) -> Seq<char>
    decreases s.len(),
{
    if s.len() > 0 && space_char(s[0]) {
        trim_front(s.skip(1))
    } else {
        s
    }
}

/// What is left of `s` once trailing whitespace goes.
pub open spec fn trim_back(s: Seq<char>) -> Seq<char>
    decreases s.len(),
{
    if s.len() > 0 && space_char(s.last()) {
        trim_back(s.drop_last())
    } else {
        s
    }
}

/// `s` without leading and trailing whitespace.
pub open spec fn trimmed(s: Seq<char>) -> Seq<char> {
    trim_back(trim_front(s))
}

proof fn lemma_trim_front_skip(s: Seq<char>, i: int)
    requires
        0 <= i <= s.len(),
        forall|k: int| 0 <= k < i ==> space_char(s[k]),
    ensures
        trim_front(s) == trim_front(s.skip(i)),
    decreases i,
{
    if i > 0 {
        assert(space_char(s[0]));
        assert(s.skip(1).skip(i - 1) =~= s.skip(i));
        lemma_trim_front_skip(s.skip(1), i - 1);
    } else {
        assert(s.skip(0) =~= s);
    }
}

proof fn lemma_trim_back_take(s: Seq<char>, i: int)
    requires
        0 <= i <= s.len(),
        forall|k: int| i <= k < s.len() ==> space_char(s[k]),
    ensures
        trim_back(s) == trim_back(s.take(i)),
    decreases s.len() - i,
{
    if i < s.len() {
        assert(space_char(s.last()));
        assert(s.drop_last() =~= s.take(s.len() - 1));
        assert(s.take(s.len() - 1).take(i) =~= s.take(i));
        lemma_trim_back_take(s.take(s.len() - 1), i);
    } else {
        assert(s.take(i) =~= s);
    }
}

/// `s` with surrounding whitespace removed.
pub fn trim_spaces(s: &str) -> (r: &str)
    ensures
        r@ == trimmed(s@),
{
    let n = s.unicode_len();
    let mut a: usize = 0;
    while a < n && is_space(s.get_char(a))
        invariant
            n == s@.len(),
            a <= n,
            forall|k: int| 0 <= k < a ==> space_char(s@[k]),
        decreases n - a,
    {
        a += 1;
    }
    proof {
        lemma_trim_front_skip(s@, a as int);
    }
    // From here on, trim_front(s@) == s@.skip(a): either a == n (all spaces)
    // or s@[a] is no space.
    let mut b: usize = n;
    while b > a && is_space(s.get_char(b - 1))
        invariant
            n == s@.len(),
            a <= b <= n,
            forall|k: int| b <= k < n ==> space_char(s@[k]),
        decreases b,
    {
        b -= 1;
    }
    proof {
        if a < n && !space_char(s@[a as int]) {
            assert(trim_front(s@) =~= s@.skip(a as int));
        } else {
            assert(a == n);
            assert(trim_front(s@) =~= s@.skip(a as int));
        }
        let t = s@.skip(a as int);
        assert(s@.subrange(a as int, b as int) =~= t.take(b - a));
        lemma_trim_back_take(t, b - a);
        if b > a {
            assert(t.take(b - a).last() == s@[b - 1]);
            assert(trim_back(t.take(b - a)) == t.take(b - a));
        } else {
            assert(t.take(0) =~= Seq::<char>::empty());
        }
    }
    s.substring_char(a, b)
}

} // verus!
