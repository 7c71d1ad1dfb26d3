//! Candidate discovery: which entries of the launcher's directory are
//! variant binaries, and the record each one becomes. An entry is kept
//! when it carries the application prefix and parses as a candidate
//! name; everything else is dropped silently, never reported.

use vstd::prelude::*;

use crate::filename::arch_of;
use crate::filename::candidate_pattern;
use crate::filename::lemma_assembled_name_parses;
use crate::filename::normalized;
use crate::filename::parse_candidate_name;
use crate::filename::raw_ver_of;
use crate::filename::version_of;
use crate::text::str_starts_with;
use crate::text::version_char;

verus! {

/// One discovered candidate binary.
pub struct Variant {
    /// Path of the binary: the directory joined with the entry name.
    pub exe: String,
    /// The architecture it was built for.
    pub arch: String,
    /// Its minimum OS version, dotted.
    pub version: String,
    /// Its identity `<arch>-<version field as written>`, the key of its
    /// `bin-` and `libexec-` directories.
    pub id: String,
}

/// What a `Variant` says, as plain sequences.
pub ghost struct VariantView {
    pub exe: Seq<char>,
    pub arch: Seq<char>,
    pub version: Seq<char>,
    pub id: Seq<char>,
}

impl View for Variant {
    type V = VariantView;

    open spec fn view(&self) -> VariantView {
        VariantView { exe: self.exe@, arch: self.arch@, version: self.version@, id: self.id@ }
    }
}

/// The views of a candidate vector, element for element.
pub open spec fn views_of(cands: Seq<Variant>) -> Seq<VariantView> {
    cands.map_values(|v: Variant| v@)
}

/// Whether discovery keeps a directory entry.
pub open spec fn keeps(name: Seq<char>, prefix: Seq<char>) -> bool {
    prefix.is_prefix_of(name) && candidate_pattern(name)
}

/// The record a kept entry becomes.
pub open spec fn variant_of(dir: Seq<char>, name: Seq<char>) -> VariantView {
    VariantView {
        exe: dir + "/"@ + name,
        arch: arch_of(name),
        version: version_of(name),
        id: arch_of(name) + "-"@ + raw_ver_of(name),
    }
}

/// The candidates discovered among `names`, in enumeration order.
pub open spec fn discovered(dir: Seq<char>, names: Seq<Seq<char>>, prefix: Seq<char>) -> Seq<
    VariantView,
>
    decreases names.len(),
{
    if names.len() == 0 {
        Seq::empty()
    } else {
        discovered(dir, names.drop_last(), prefix) + (if keeps(names.last(), prefix) {
            seq![variant_of(dir, names.last())]
        } else {
            Seq::empty()
        })
    }
}

/// Discovery keeps exactly what qualifies: every kept entry's record is
/// among the discovered candidates, and every discovered candidate is
/// the record of some kept entry.
#[verifier::rlimit(50)]
pub proof fn lemma_discovered_per_name(dir: Seq<char>, names: Seq<Seq<char>>, prefix: Seq<char>)
    ensures
        forall|t: int|
            0 <= t < names.len() && keeps(#[trigger] names[t], prefix) ==> exists|u: int|
                0 <= u < discovered(dir, names, prefix).len() && #[trigger] discovered(
                    dir,
                    names,
                    prefix,
                )[u] == variant_of(dir, names[t]),
        forall|u: int|
            #![trigger discovered(dir, names, prefix)[u]]
            0 <= u < discovered(dir, names, prefix).len() ==> exists|t: int|
                0 <= t < names.len() && keeps(#[trigger] names[t], prefix) && discovered(
                    dir,
                    names,
                    prefix,
                )[u] == variant_of(dir, names[t]),
    decreases names.len(),
{
    if names.len() > 0 {
        let qs = names.drop_last();
        lemma_discovered_per_name(dir, qs, prefix);
        let dq = discovered(dir, qs, prefix);
        let dp = discovered(dir, names, prefix);
        let tail = names.last();
        if keeps(tail, prefix) {
            assert(dp =~= dq + seq![variant_of(dir, tail)]);
        } else {
            assert(dp =~= dq);
        }
        assert forall|t: int|
            0 <= t < names.len() && keeps(#[trigger] names[t], prefix) implies exists|u: int|
            0 <= u < dp.len() && #[trigger] dp[u] == variant_of(dir, names[t]) by {
            if t < names.len() - 1 {
                assert(qs[t] == names[t]);
                assert(keeps(qs[t], prefix));
                let u = choose|u: int| 0 <= u < dq.len() && #[trigger] dq[u] == variant_of(
                    dir,
                    qs[t],
                );
                assert(dp[u] == dq[u]);
                assert(0 <= u < dp.len() && dp[u] == variant_of(dir, names[t]));
            } else {
                let u = dq.len() as int;
                assert(0 <= u < dp.len() && dp[u] == variant_of(dir, names[t]));
            }
        }
        assert forall|u: int| #![trigger dp[u]] 0 <= u < dp.len() implies exists|t: int|
            0 <= t < names.len() && keeps(#[trigger] names[t], prefix) && dp[u] == variant_of(
                dir,
                names[t],
            ) by {
            if u < dq.len() {
                assert(dp[u] == dq[u]);
                let t = choose|t: int|
                    0 <= t < qs.len() && keeps(#[trigger] qs[t], prefix) && dq[u] == variant_of(
                        dir,
                        qs[t],
                    );
                assert(names[t] == qs[t]);
                assert(
                    0 <= t < names.len() && keeps(names[t], prefix) && dp[u] == variant_of(
                        dir,
                        names[t],
                    )
                );
            } else {
                let t = names.len() - 1;
                assert(
                    0 <= t < names.len() && keeps(names[t], prefix) && dp[u] == variant_of(
                        dir,
                        names[t],
                    )
                );
            }
        }
    }
}

/// The discovery half of the naming law: an entry assembled as
/// `<base>-<arch>-<ver>` — the architecture dash-free and nonempty, the
/// version field nonempty version characters — that carries the prefix
/// puts exactly its record among the discovered candidates: the entry
/// joined to the directory, the architecture, the version with
/// underscores read as dots, and the identity `<arch>-<ver>` as written.
pub proof fn lemma_discovery_finds_assembled(
    dir: Seq<char>,
    names: Seq<Seq<char>>,
    prefix: Seq<char>,
    t: int,
    base: Seq<char>,
    arch: Seq<char>,
    ver: Seq<char>,
)
    requires
        0 <= t < names.len(),
        names[t] == base + seq!['-'] + arch + seq!['-'] + ver,
        prefix.is_prefix_of(names[t]),
        arch.len() > 0,
        forall|k: int| 0 <= k < arch.len() ==> #[trigger] arch[k] != '-',
        ver.len() > 0,
        forall|k: int| 0 <= k < ver.len() ==> version_char(#[trigger] ver[k]),
    ensures
        exists|u: int|
            0 <= u < discovered(dir, names, prefix).len() && discovered(dir, names, prefix)[u]
                == (VariantView {
                exe: dir + "/"@ + names[t],
                arch: arch,
                version: normalized(ver),
                id: arch + "-"@ + ver,
            }),
{
    lemma_assembled_name_parses(base, arch, ver);
    lemma_discovered_per_name(dir, names, prefix);
    assert(keeps(names[t], prefix));
    assert(variant_of(dir, names[t]) == (VariantView {
        exe: dir + "/"@ + names[t],
        arch: arch,
        version: normalized(ver),
        id: arch + "-"@ + ver,
    }));
}

/// Walks the directory entries and keeps those that name a candidate.
pub fn discover_variants(dir: &str, names: &Vec<String>, prefix: &str) -> (r: Vec<Variant>)
    ensures
        views_of(r@) == discovered(dir@, names.deep_view(), prefix@),
{
    let ghost ndv = names.deep_view();
    let n = names.len();
    let mut out: Vec<Variant> = Vec::new();
    let mut t: usize = 0;
    proof {
        assert(ndv.take(0) =~= Seq::<Seq<char>>::empty());
        assert(views_of(out@) =~= discovered(dir@, ndv.take(0), prefix@));
    }
    while t < n
        invariant
            n == names.len(),
            t <= n,
            ndv == names.deep_view(),
            views_of(out@) == discovered(dir@, ndv.take(t as int), prefix@),
        decreases n - t,
    {
        let name = &names[t];
        proof {
            assert(ndv[t as int] == name@);
        }
        if str_starts_with(name.as_str(), prefix) {
            if let Some(p) = parse_candidate_name(name.as_str()) {
                let mut exe = dir.to_owned();
                exe.append("/");
                exe.append(name.as_str());
                let mut id = p.arch.clone();
                id.append("-");
                id.append(p.raw_version.as_str());
                let v = Variant { exe, arch: p.arch, version: p.version, id };
                proof {
                    assert(v@ == variant_of(dir@, name@));
                }
                out.push(v);
                proof {
                    assert(views_of(out@) =~= discovered(dir@, ndv.take(t as int), prefix@)
                        + seq![variant_of(dir@, name@)]);
                }
            }
        }
        proof {
            let w = ndv.take(t as int + 1);
            assert(w.drop_last() =~= ndv.take(t as int));
            assert(w.last() == ndv[t as int]);
            assert(views_of(out@) =~= discovered(dir@, w, prefix@));
        }
        t += 1;
    }
    proof {
        assert(ndv.take(n as int) =~= ndv);
    }
    out
}

} // verus!
