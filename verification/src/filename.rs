//! The candidate filename grammar: a name ends in `-<architecture>-<version>`,
//! where the version field is a nonempty run of digits, dots and underscores,
//! and the architecture field is the nonempty stretch between the last two
//! dashes before it. Anything may precede. The version's underscores are
//! normalized to dots, so `Emacs-arm64-11_0` carries architecture `arm64`
//! and version `11.0`.

use vstd::prelude::*;

use crate::text::is_version_char;
use crate::text::version_char;

verus! {

/// `j` marks the version field of `s`: a dash followed by a nonempty run
/// of version characters reaching the end of the name.
pub open spec fn is_ver_mark(s: Seq<char>, j: int) -> bool {
    &&& 0 <= j < s.len() - 1
    &&& s[j] == '-'
    &&& forall|k: int| j < k < s.len() ==> version_char(#[trigger] s[k])
}

/// `i` marks the architecture field, the version field being at `j`: the
/// dash before a nonempty dash-free stretch that runs up to `j`.
pub open spec fn is_arch_mark(s: Seq<char>, i: int, j: int) -> bool {
    &&& 0 <= i <= j - 2
    &&& s[i] == '-'
    &&& forall|k: int| i < k < j ==> #[trigger] s[k] != '-'
}

/// Whether `s` is a well-formed candidate name.
pub open spec fn candidate_pattern(s: Seq<char>) -> bool {
    exists|i: int, j: int| #[trigger] is_arch_mark(s, i, j) && is_ver_mark(s, j)
}

/// The position of the version field's dash. At most one position
/// qualifies, since a dash is no version character.
pub open spec fn ver_mark(s: Seq<char>) -> int {
    choose|j: int| is_ver_mark(s, j)
}

/// The position of the architecture field's dash, again unique.
pub open spec fn arch_mark(s: Seq<char>) -> int {
    choose|i: int| is_arch_mark(s, i, ver_mark(s))
}

/// The architecture field of a well-formed candidate name.
pub open spec fn arch_of(s: Seq<char>) -> Seq<char> {
    s.subrange(arch_mark(s) + 1, ver_mark(s))
}

/// The version field as written in the name, underscores and all.
pub open spec fn raw_ver_of(s: Seq<char>) -> Seq<char> {
    s.subrange(ver_mark(s) + 1, s.len() as int)
}

/// Underscores become dots; everything else stays.
pub open spec fn normalized(v: Seq<char>) -> Seq<char> {
    v.map_values(
        |c: char|
            if c == '_' {
                '.'
            } else {
                c
            },
    )
}

/// The version field of a well-formed candidate name, normalized.
pub open spec fn version_of(s: Seq<char>) -> Seq<char> {
    normalized(raw_ver_of(s))
}

/// Only one position can mark the version field.
pub proof fn lemma_ver_mark_unique(s: Seq<char>, j1: int, j2: int)
    requires
        is_ver_mark(s, j1),
        is_ver_mark(s, j2),
    ensures
        j1 == j2,
{
    if j1 < j2 {
        assert(version_char(s[j2]));
        assert(false);
    }
    if j2 < j1 {
        assert(version_char(s[j1]));
        assert(false);
    }
}

/// Only one position can mark the architecture field.
pub proof fn lemma_arch_mark_unique(s: Seq<char>, j: int, i1: int, i2: int)
    requires
        is_arch_mark(s, i1, j),
        is_arch_mark(s, i2, j),
    ensures
        i1 == i2,
{
    if i1 < i2 {
        assert(s[i2] != '-');
        assert(false);
    }
    if i2 < i1 {
        assert(s[i1] != '-');
        assert(false);
    }
}

/// A parsed candidate name.
pub struct ParsedName {
    /// The architecture field.
    pub arch: String,
    /// The version field, underscores normalized to dots.
    pub version: String,
    /// The version field as written in the name.
    pub raw_version: String,
}

/// Rewrites underscores to dots.
pub fn normalize_version(raw: &str) -> (r: String)
    ensures
        r@ == normalized(raw@),
{
    let n = raw.unicode_len();
    let mut out = String::new();
    let mut idx: usize = 0;
    proof {
        assert(normalized(raw@.take(0)) =~= Seq::<char>::empty());
    }
    while idx < n
        invariant
            n == raw@.len(),
            idx <= n,
            out@ == normalized(raw@.take(idx as int)),
        decreases n - idx,
    {
        let c = raw.get_char(idx);
        if c == '_' {
            out.append(".");
            proof {
                reveal_strlit(".");
                assert(out@ =~= normalized(raw@.take(idx as int + 1)));
            }
        } else {
            let piece = raw.substring_char(idx, idx + 1);
            out.append(piece);
            proof {
                assert(piece@ =~= seq![raw@[idx as int]]);
                assert(out@ =~= normalized(raw@.take(idx as int + 1)));
            }
        }
        idx += 1;
    }
    proof {
        assert(raw@.take(n as int) =~= raw@);
    }
    out
}

/// Parses a candidate name. Succeeds exactly on names of the pattern,
/// and then hands back the two fields that the marks cut out.
pub fn parse_candidate_name(name: &str) -> (r: Option<ParsedName>)
    ensures
        r is Some <==> candidate_pattern(name@),
        r matches Some(p) ==> {
            &&& p.arch@ == arch_of(name@)
            &&& p.raw_version@ == raw_ver_of(name@)
            &&& p.version@ == version_of(name@)
        },
{
    let n = name.unicode_len();
    let mut k: usize = n;
    while k > 0 && is_version_char(name.get_char(k - 1))
        invariant
            n == name@.len(),
            k <= n,
            forall|t: int| k <= t < n ==> version_char(#[trigger] name@[t]),
        decreases k,
    {
        k -= 1;
    }
    // Now the version characters run from k to the end, and either k == 0
    // or the character before them is something else.
    if k == 0 || k == n {
        proof {
            assert forall|i: int, j: int| !(is_arch_mark(name@, i, j) && is_ver_mark(
                name@,
                j,
            )) by {
                if is_ver_mark(name@, j) {
                    if k == 0 {
                        assert(version_char(name@[j]));
                    } else {
                        // k == n: the last character is no version character,
                        // yet every j < n - 1 would make it one.
                        assert(version_char(name@[n - 1]));
                    }
                }
            }
        }
        return None;
    }
    let ghost jj = k - 1;
    proof {
        // Any version mark must sit exactly at k - 1.
        assert forall|j: int| is_ver_mark(name@, j) implies j == jj by {
            if j < jj {
                assert(version_char(name@[k - 1]));
            }
            if j > jj {
                assert(version_char(name@[j]));
            }
        }
    }
    if name.get_char(k - 1) != '-' {
        proof {
            assert forall|i: int, j: int| !(is_arch_mark(name@, i, j) && is_ver_mark(
                name@,
                j,
            )) by {}
        }
        return None;
    }
    proof {
        assert(is_ver_mark(name@, jj));
    }
    let j = k - 1;
    let mut m: usize = j;
    while m > 0 && name.get_char(m - 1) != '-'
        invariant
            n == name@.len(),
            j < n,
            m <= j,
            forall|t: int| m <= t < j ==> #[trigger] name@[t] != '-',
        decreases m,
    {
        m -= 1;
    }
    if m == 0 {
        proof {
            assert forall|i: int, j2: int| !(is_arch_mark(name@, i, j2) && is_ver_mark(
                name@,
                j2,
            )) by {
                if is_ver_mark(name@, j2) {
                    lemma_ver_mark_unique(name@, j2, jj);
                    if is_arch_mark(name@, i, j2) {
                        assert(name@[i] != '-');
                    }
                }
            }
        }
        return None;
    }
    let i = m - 1;
    if i + 2 > j {
        // The dash just before the version field leaves no room for an
        // architecture field, and every earlier dash has this one in the way.
        proof {
            assert forall|i2: int, j2: int| !(is_arch_mark(name@, i2, j2) && is_ver_mark(
                name@,
                j2,
            )) by {
                if is_ver_mark(name@, j2) {
                    lemma_ver_mark_unique(name@, j2, jj);
                    if is_arch_mark(name@, i2, j2) {
                        assert(name@[i as int] != '-');
                    }
                }
            }
        }
        return None;
    }
    let arch = name.substring_char(i + 1, j).to_owned();
    let raw = name.substring_char(k, n).to_owned();
    let version = normalize_version(raw.as_str());
    proof {
        assert(is_arch_mark(name@, i as int, jj));
        assert(candidate_pattern(name@));
        let jc = ver_mark(name@);
        assert(is_ver_mark(name@, jc));
        lemma_ver_mark_unique(name@, jc, jj);
        let ic = arch_mark(name@);
        assert(is_arch_mark(name@, ic, jc));
        lemma_arch_mark_unique(name@, jj, ic, i as int);
    }
    Some(ParsedName { arch, version, raw_version: raw })
}

/// A name assembled as `<base>-<arch>-<ver>` — the architecture dash-free
/// and nonempty, the version field nonempty version characters — parses
/// back into exactly those fields, whatever the base.
pub proof fn lemma_assembled_name_parses(base: Seq<char>, arch: Seq<char>, ver: Seq<char>)
    requires
        arch.len() > 0,
        forall|k: int| 0 <= k < arch.len() ==> #[trigger] arch[k] != '-',
        ver.len() > 0,
        forall|k: int| 0 <= k < ver.len() ==> version_char(#[trigger] ver[k]),
    ensures
        candidate_pattern(base + seq!['-'] + arch + seq!['-'] + ver),
        arch_of(base + seq!['-'] + arch + seq!['-'] + ver) == arch,
        raw_ver_of(base + seq!['-'] + arch + seq!['-'] + ver) == ver,
        version_of(base + seq!['-'] + arch + seq!['-'] + ver) == normalized(ver),
{
    let s = base + seq!['-'] + arch + seq!['-'] + ver;
    let ii = base.len() as int;
    let jj = base.len() + 1 + arch.len() as int;
    assert(s.len() == base.len() + 2 + arch.len() + ver.len());
    assert(s[ii] == '-');
    assert(s[jj] == '-');
    assert forall|k: int| jj < k < s.len() implies version_char(#[trigger] s[k]) by {
        assert(s[k] == ver[k - jj - 1]);
    }
    assert(is_ver_mark(s, jj));
    assert forall|k: int| ii < k < jj implies #[trigger] s[k] != '-' by {
        if k == ii + 1 + arch.len() {
            // there is no such k: that position is jj itself
            assert(false);
        } else {
            assert(s[k] == arch[k - ii - 1]);
        }
    }
    assert(is_arch_mark(s, ii, jj));
    assert(candidate_pattern(s));
    let jc = ver_mark(s);
    assert(is_ver_mark(s, jc));
    lemma_ver_mark_unique(s, jc, jj);
    let ic = arch_mark(s);
    assert(is_arch_mark(s, ic, jc));
    lemma_arch_mark_unique(s, jj, ic, ii);
    assert(arch_of(s) =~= arch);
    assert(raw_ver_of(s) =~= ver);
}

} // verus!

