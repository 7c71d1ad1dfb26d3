//! The user-facing failure texts: the dialog headings, and the body
//! that itemizes what was detected when no candidate fits the host.

use vstd::prelude::*;

use crate::discovery::Variant;
use crate::discovery::VariantView;
use crate::discovery::views_of;

verus! {

/// One bullet line of the candidate inventory.
pub open spec fn candidate_line(v: VariantView) -> Seq<char> {
    "• arch "@ + v.arch + ", min OS "@ + v.version + "\n"@
}

/// The candidate inventory, one line per candidate, in discovery order.
pub open spec fn candidate_lines(cands: Seq<VariantView>) -> Seq<char>
    decreases cands.len(),
{
    if cands.len() == 0 {
        Seq::empty()
    } else {
        candidate_lines(cands.drop_last()) + candidate_line(cands.last())
    }
}

/// The body of the incompatibility dialog: the detected OS version and
/// architecture, then the inventory, or an explicit "none" marker when
/// nothing was discovered at all.
pub open spec fn incompatible_detail(
    os_text: Seq<char>,
    arch: Seq<char>,
    cands: Seq<VariantView>,
) -> Seq<char> {
    "The Emacs Launcher detected OS version "@ + os_text + " on "@ + arch
        + " architecture.\n\nThe detected Emacs binaries are:\n"@ + (if cands.len() == 0 {
        "None. :-("@
    } else {
        candidate_lines(cands)
    })
}

/// The heading of the incompatibility dialog.
pub fn incompatible_title() -> (r: String)
    ensures
        r@ == "This application will not run on your computer. Sorry!"@,
{
    "This application will not run on your computer. Sorry!".to_owned()
}

/// The heading of the launch-failure dialog.
pub fn failure_title() -> (r: String)
    ensures
        r@ == "Emacs failed to launch!"@,
{
    "Emacs failed to launch!".to_owned()
}

/// Builds the body of the incompatibility dialog.
pub fn build_incompatible_detail(os_text: &str, arch: &str, candidates: &Vec<Variant>) -> (r:
    String)
    ensures
        r@ == incompatible_detail(os_text@, arch@, views_of(candidates@)),
{
    let ghost vs = views_of(candidates@);
    let mut r = "The Emacs Launcher detected OS version ".to_owned();
    r.append(os_text);
    r.append(" on ");
    r.append(arch);
    r.append(" architecture.\n\nThe detected Emacs binaries are:\n");
    if candidates.len() == 0 {
        r.append("None. :-(");
        return r;
    }
    let n = candidates.len();
    let mut t: usize = 0;
    let ghost head = r@;
    proof {
        assert(candidate_lines(vs.take(0)) =~= Seq::<char>::empty());
        assert(r@ =~= head + candidate_lines(vs.take(0)));
    }
    while t < n
        invariant
            n == candidates@.len(),
            t <= n,
            vs == views_of(candidates@),
            r@ == head + candidate_lines(vs.take(t as int)),
        decreases n - t,
    {
        let c = &candidates[t];
        proof {
            assert(vs[t as int] == c@);
        }
        r.append("• arch ");
        r.append(c.arch.as_str());
        r.append(", min OS ");
        r.append(c.version.as_str());
        r.append("\n");
        proof {
            let w = vs.take(t as int + 1);
            assert(w.drop_last() =~= vs.take(t as int));
            assert(w.last() == vs[t as int]);
            assert(r@ =~= head + candidate_lines(w));
        }
        t += 1;
    }
    proof {
        assert(vs.take(n as int) =~= vs);
    }
    r
}

} // verus!
