//! Dotted numeric versions: the grammar `digits ("." digits)*`, the value
//! a version string denotes, and the componentwise order on such values.
//! Missing components count as zero, so `12` and `12.0` denote equal
//! versions.

use vstd::prelude::*;

use crate::text::digit_char;
use crate::text::digit_value;
use crate::text::is_digit;

verus! {

/// The numeric components of `s` read left to right, `cur` being the
/// value accumulated so far for the component in progress.
pub open spec fn components_acc(s: Seq<char>, cur: nat) -> Seq<nat>
    decreases s.len(),
{
    if s.len() == 0 {
        seq![cur]
    } else if s[0] == '.' {
        seq![cur] + components_acc(s.skip(1), 0)
    } else {
        components_acc(s.skip(1), cur * 10 + digit_value(s[0]))
    }
}

/// The numeric components that `s` denotes.
pub open spec fn version_components(s: Seq<char>) -> Seq<nat> {
    components_acc(s, 0)
}

/// Whether `s` is a well-formed dotted version: nonempty components of
/// digits, separated by single dots.
pub open spec fn valid_version(s: Seq<char>) -> bool {
    &&& s.len() > 0
    &&& (forall|i: int| 0 <= i < s.len() ==> digit_char(s[i]) || s[i] == '.')
    &&& s[0] != '.'
    &&& s[s.len() - 1] != '.'
    &&& (forall|i: int| 0 <= i < s.len() - 1 ==> !(#[trigger] s[i] == '.' && s[i + 1] == '.'))
}

/// Whether every component is small enough for the machine representation.
pub open spec fn fits_u64(ns: Seq<nat>) -> bool {
    forall|k: int| 0 <= k < ns.len() ==> ns[k] <= u64::MAX
}

/// Whether `s` parses as a version here: well-formed, with components
/// that the representation can hold.
pub open spec fn parses_as_version(s: Seq<char>) -> bool {
    valid_version(s) && fits_u64(version_components(s))
}

/// Strict componentwise order, compared from component `i` on; a missing
/// component counts as zero.
pub open spec fn ver_lt_from(a: Seq<nat>, b: Seq<nat>, i: int) -> bool
    decreases a.len() + b.len() - i,
{
    if i < a.len() || i < b.len() {
        let ha: nat = if i < a.len() { a[i] } else { 0 };
        let hb: nat = if i < b.len() { b[i] } else { 0 };
        ha < hb || (ha == hb && ver_lt_from(a, b, i + 1))
    } else {
        false
    }
}

/// Componentwise equality from component `i` on, zero-padded.
pub open spec fn ver_eq_from(a: Seq<nat>, b: Seq<nat>, i: int) -> bool
    decreases a.len() + b.len() - i,
{
    if i < a.len() || i < b.len() {
        let ha: nat = if i < a.len() { a[i] } else { 0 };
        let hb: nat = if i < b.len() { b[i] } else { 0 };
        ha == hb && ver_eq_from(a, b, i + 1)
    } else {
        true
    }
}

/// `a` denotes a strictly smaller version than `b`.
pub open spec fn ver_lt(a: Seq<nat>, b: Seq<nat>) -> bool {
    ver_lt_from(a, b, 0)
}

/// `a` and `b` denote the same version.
pub open spec fn ver_eq(a: Seq<nat>, b: Seq<nat>) -> bool {
    ver_eq_from(a, b, 0)
}

/// `a` denotes a version no greater than `b`.
pub open spec fn ver_le(a: Seq<nat>, b: Seq<nat>) -> bool {
    ver_lt(a, b) || ver_eq(a, b)
}

/// The components of `s` seen as mathematical numbers.
pub open spec fn nums_of(ps: Seq<u64>) -> Seq<nat> {
    ps.map(|_i: int, p: u64| p as nat)
}

/// A parsed dotted version.
#[derive(Debug)]
pub struct Version {
    parts: Vec<u64>,
}

impl View for Version {
    type V = Seq<nat>;

    closed spec fn view(&self) -> Seq<nat> {
        nums_of(self.parts@)
    }
}

/// The first component of `components_acc` is at least the accumulator
/// it starts from: further digits only grow it.
proof fn lemma_acc_head(s: Seq<char>, cur: nat)
    ensures
        components_acc(s, cur).len() >= 1,
        components_acc(s, cur)[0] >= cur,
    decreases s.len(),
{
    if s.len() == 0 {
    } else if s[0] == '.' {
    } else {
        lemma_acc_head(s.skip(1), cur * 10 + digit_value(s[0]));
    }
}

impl Version {
    /// Parses a dotted version. Returns the parsed components exactly
    /// when the string is a well-formed version whose components fit the
    /// representation; otherwise nothing.
    pub fn parse(s: &str) -> (r: Option<Version>)
        ensures
            r is Some <==> parses_as_version(s@),
            r matches Some(v) ==> v@ == version_components(s@),
    {
        let n = s.unicode_len();
        if n == 0 {
            return None;
        }
        let mut parts: Vec<u64> = Vec::new();
        let mut cur: u64 = 0;
        let mut started = false;
        let mut i: usize = 0;
        proof {
            assert(s@.skip(0) =~= s@);
            assert(nums_of(parts@) =~= Seq::<nat>::empty());
            assert(nums_of(parts@) + components_acc(s@, 0) =~= components_acc(s@, 0));
        }
        while i < n
            invariant
                n == s@.len(),
                n > 0,
                i <= n,
                forall|k: int| 0 <= k < i ==> digit_char(s@[k]) || s@[k] == '.',
                i > 0 ==> s@[0] != '.',
                forall|k: int| 0 <= k < i - 1 ==> !(#[trigger] s@[k] == '.' && s@[k + 1] == '.'),
                started == (i > 0 && s@[i - 1] != '.'),
                !started ==> cur == 0,
                version_components(s@) == nums_of(parts@) + components_acc(
                    s@.skip(i as int),
                    cur as nat,
                ),
            decreases n - i,
        {
            let ghost pre = s@.skip(i as int);
            proof {
                assert(pre[0] == s@[i as int]);
                assert(pre.skip(1) =~= s@.skip(i as int + 1));
            }
            let c = s.get_char(i);
            if is_digit(c) {
                let d: u64 = (c as u32 - 48) as u64;
                proof {
                    assert(d as nat == digit_value(c));
                    lemma_acc_head(s@.skip(i as int + 1), cur as nat * 10 + d as nat);
                    assert(components_acc(pre, cur as nat) == components_acc(
                        s@.skip(i as int + 1),
                        cur as nat * 10 + d as nat,
                    ));
                }
                if cur > u64::MAX / 10 {
                    proof {
                        let full = version_components(s@);
                        assert(full[parts@.len() as int] >= cur as nat * 10 + d as nat);
                        assert(cur as nat * 10 > u64::MAX);
                    }
                    return None;
                }
                let cur10 = cur * 10;
                if d > u64::MAX - cur10 {
                    proof {
                        let full = version_components(s@);
                        assert(full[parts@.len() as int] >= cur as nat * 10 + d as nat);
                    }
                    return None;
                }
                cur = cur10 + d;
                started = true;
            } else if c == '.' {
                if !started {
                    return None;
                }
                proof {
                    assert(components_acc(pre, cur as nat) == seq![cur as nat] + components_acc(
                        s@.skip(i as int + 1),
                        0,
                    ));
                    assert(nums_of(parts@.push(cur)) =~= nums_of(parts@).push(cur as nat));
                    assert(nums_of(parts@) + components_acc(pre, cur as nat) =~= nums_of(
                        parts@.push(cur),
                    ) + components_acc(s@.skip(i as int + 1), 0));
                }
                parts.push(cur);
                cur = 0;
                started = false;
            } else {
                return None;
            }
            i += 1;
        }
        if !started {
            return None;
        }
        proof {
            assert(s@.skip(n as int) =~= Seq::<char>::empty());
            assert(components_acc(s@.skip(n as int), cur as nat) == seq![cur as nat]);
            assert(nums_of(parts@.push(cur)) =~= nums_of(parts@).push(cur as nat));
            assert(nums_of(parts@) + seq![cur as nat] =~= nums_of(parts@.push(cur)));
        }
        parts.push(cur);
        let v = Version { parts };
        proof {
            assert(valid_version(s@));
            assert(v@ == version_components(s@));
            assert(forall|k: int| 0 <= k < v@.len() ==> v@[k] <= u64::MAX) by {
                assert(forall|k: int| 0 <= k < v@.len() ==> v@[k] == nums_of(v.parts@)[k]);
            }
        }
        Some(v)
    }

    /// Whether this version is strictly below `other`.
    pub fn lt(&self, other: &Version) -> (r: bool)
        ensures
            r == ver_lt(self@, other@),
    {
        let an = self.parts.len();
        let bn = other.parts.len();
        let n = if an > bn {
            an
        } else {
            bn
        };
        let mut i: usize = 0;
        while i < n
            invariant
                an == self.parts@.len(),
                bn == other.parts@.len(),
                n >= an && n >= bn && (n == an || n == bn),
                i <= n,
                ver_lt(self@, other@) == ver_lt_from(self@, other@, i as int),
            decreases n - i,
        {
            let ha = if i < an {
                self.parts[i]
            } else {
                0
            };
            let hb = if i < bn {
                other.parts[i]
            } else {
                0
            };
            if ha < hb {
                return true;
            }
            if ha > hb {
                return false;
            }
            i += 1;
        }
        false
    }

    /// Whether this version is `other` or below it.
    pub fn le(&self, other: &Version) -> (r: bool)
        ensures
            r == ver_le(self@, other@),
    {
        proof {
            lemma_ver_trichotomy(self@, other@);
        }
        !other.lt(self)
    }
}

/// Of two zero-padded component sequences, exactly one of `a < b`,
/// `a == b`, `b < a` holds from any position on: the order is total.
proof fn lemma_ver_trichotomy_from(a: Seq<nat>, b: Seq<nat>, i: int)
    ensures
        ver_lt_from(a, b, i) || ver_eq_from(a, b, i) || ver_lt_from(b, a, i),
        !(ver_lt_from(a, b, i) && ver_eq_from(a, b, i)),
        !(ver_lt_from(a, b, i) && ver_lt_from(b, a, i)),
        !(ver_eq_from(a, b, i) && ver_lt_from(b, a, i)),
    decreases a.len() + b.len() - i,
{
    if i < a.len() || i < b.len() {
        lemma_ver_trichotomy_from(a, b, i + 1);
    }
}

proof fn lemma_ver_refl_from(a: Seq<nat>, i: int)
    ensures
        ver_eq_from(a, a, i),
    decreases a.len() - i,
{
    if i < a.len() {
        lemma_ver_refl_from(a, i + 1);
    }
}

/// Every component sequence is version-equal to itself.
pub proof fn lemma_ver_refl(a: Seq<nat>)
    ensures
        ver_eq(a, a),
        ver_le(a, a),
{
    lemma_ver_refl_from(a, 0);
}

proof fn lemma_ver_trans_from(a: Seq<nat>, b: Seq<nat>, c: Seq<nat>, i: int)
    ensures
        ver_lt_from(a, b, i) && ver_lt_from(b, c, i) ==> ver_lt_from(a, c, i),
        ver_eq_from(a, b, i) && ver_lt_from(b, c, i) ==> ver_lt_from(a, c, i),
        ver_lt_from(a, b, i) && ver_eq_from(b, c, i) ==> ver_lt_from(a, c, i),
        ver_eq_from(a, b, i) && ver_eq_from(b, c, i) ==> ver_eq_from(a, c, i),
    decreases a.len() + b.len() + c.len() - i,
{
    if i < a.len() || i < b.len() || i < c.len() {
        lemma_ver_trans_from(a, b, c, i + 1);
    }
}

/// The version order composes: below-or-equal followed by strictly-below
/// stays strictly below, and so on through the combinations.
pub proof fn lemma_ver_trans(a: Seq<nat>, b: Seq<nat>, c: Seq<nat>)
    ensures
        ver_le(a, b) && ver_lt(b, c) ==> ver_lt(a, c),
        ver_lt(a, b) && ver_le(b, c) ==> ver_lt(a, c),
        ver_le(a, b) && ver_le(b, c) ==> ver_le(a, c),
{
    lemma_ver_trans_from(a, b, c, 0);
}

/// The version order is total: for any two component sequences, exactly
/// one of "below", "equal", "above" holds.
pub proof fn lemma_ver_trichotomy(a: Seq<nat>, b: Seq<nat>)
    ensures
        ver_lt(a, b) || ver_eq(a, b) || ver_lt(b, a),
        !(ver_lt(a, b) && ver_eq(a, b)),
        !(ver_lt(a, b) && ver_lt(b, a)),
        !(ver_eq(a, b) && ver_lt(b, a)),
{
    lemma_ver_trichotomy_from(a, b, 0);
}

} // verus!
