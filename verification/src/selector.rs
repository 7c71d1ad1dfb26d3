//! Variant selection: among the discovered candidates, the ones whose
//! architecture matches the host and whose minimum OS version the host
//! satisfies are eligible; of those, the one with the greatest minimum
//! version wins, the earliest discovered breaking a tie. Preferring the
//! highest satisfied minimum picks the binary built against the most
//! host-appropriate interfaces the host can actually offer.

use vstd::prelude::*;

use crate::discovery::Variant;
use crate::discovery::VariantView;
use crate::discovery::views_of;
use crate::host::HostProfile;
use crate::text::str_eq;
use crate::version::Version;
use crate::version::lemma_ver_refl;
use crate::version::lemma_ver_trans;
use crate::version::lemma_ver_trichotomy;
use crate::version::parses_as_version;
use crate::version::ver_le;
use crate::version::ver_lt;
use crate::version::version_components;

verus! {

/// Whether a candidate can run on the host: matching architecture, and a
/// minimum version that reads as a version and does not exceed the
/// host's. A version that does not parse makes the candidate ineligible,
/// never "equal".
pub open spec fn eligible(v: VariantView, host_arch: Seq<char>, host_ver: Seq<nat>) -> bool {
    &&& v.arch == host_arch
    &&& parses_as_version(v.version)
    &&& ver_le(version_components(v.version), host_ver)
}

/// Whether `idx` points at the winning candidate: eligible, at least as
/// high as every eligible candidate, and strictly above every earlier
/// one — the first among its equals.
pub open spec fn is_best(
    cands: Seq<VariantView>,
    host_arch: Seq<char>,
    host_ver: Seq<nat>,
    idx: int,
) -> bool {
    &&& 0 <= idx < cands.len()
    &&& eligible(cands[idx], host_arch, host_ver)
    &&& forall|k: int|
        0 <= k < cands.len() && eligible(#[trigger] cands[k], host_arch, host_ver) ==> ver_le(
            version_components(cands[k].version),
            version_components(cands[idx].version),
        )
    &&& forall|k: int|
        0 <= k < idx && eligible(#[trigger] cands[k], host_arch, host_ver) ==> ver_lt(
            version_components(cands[k].version),
            version_components(cands[idx].version),
        )
}

/// Picks the winning candidate, or nothing exactly when no candidate is
/// eligible.
pub fn select_variant(candidates: &Vec<Variant>, host: &HostProfile) -> (r: Option<usize>)
    ensures
        r is None <==> (forall|k: int|
            0 <= k < candidates@.len() ==> !eligible(
                #[trigger] views_of(candidates@)[k],
                host.architecture@,
                host.os_version@,
            )),
        r matches Some(idx) ==> is_best(
            views_of(candidates@),
            host.architecture@,
            host.os_version@,
            idx as int,
        ),
{
    let ghost vs = views_of(candidates@);
    let ghost ha = host.architecture@;
    let ghost hv = host.os_version@;
    let n = candidates.len();
    let mut best: Option<usize> = None;
    let mut best_ver: Option<Version> = None;
    let mut t: usize = 0;
    while t < n
        invariant
            n == candidates@.len(),
            t <= n,
            vs == views_of(candidates@),
            ha == host.architecture@,
            hv == host.os_version@,
            best is None <==> best_ver is None,
            best is None ==> (forall|k: int| 0 <= k < t ==> !eligible(#[trigger] vs[k], ha, hv)),
            best matches Some(b) ==> {
                &&& b < t
                &&& eligible(vs[b as int], ha, hv)
                &&& (forall|k: int|
                    0 <= k < t && eligible(#[trigger] vs[k], ha, hv) ==> ver_le(
                        version_components(vs[k].version),
                        version_components(vs[b as int].version),
                    ))
                &&& (forall|k: int|
                    0 <= k < b && eligible(#[trigger] vs[k], ha, hv) ==> ver_lt(
                        version_components(vs[k].version),
                        version_components(vs[b as int].version),
                    ))
                &&& best_ver matches Some(bv) && bv@ == version_components(vs[b as int].version)
            },
        decreases n - t,
    {
        let c = &candidates[t];
        proof {
            assert(vs[t as int] == c@);
        }
        if str_eq(c.arch.as_str(), host.architecture.as_str()) {
            if let Some(cv) = Version::parse(c.version.as_str()) {
                if cv.le(&host.os_version) {
                    let take_it = match &best_ver {
                        None => true,
                        Some(bv) => bv.lt(&cv),
                    };
                    if take_it {
                        proof {
                            lemma_ver_refl(cv@);
                            if let Some(b) = best {
                                assert forall|k: int|
                                    0 <= k < t && eligible(#[trigger] vs[k], ha, hv) implies ver_lt(
                                    version_components(vs[k].version),
                                    version_components(vs[t as int].version),
                                ) by {
                                    lemma_ver_trans(
                                        version_components(vs[k].version),
                                        version_components(vs[b as int].version),
                                        version_components(vs[t as int].version),
                                    );
                                }
                            }
                        }
                        best = Some(t);
                        best_ver = Some(cv);
                    } else {
                        proof {
                            if let Some(bv) = &best_ver {
                                lemma_ver_trichotomy(cv@, bv@);
                            }
                        }
                    }
                }
            }
        }
        t += 1;
    }
    best
}

} // verus!
