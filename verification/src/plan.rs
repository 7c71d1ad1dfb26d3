//! The whole launch decision in one step: from the raw probe outputs,
//! the directory listing and the raw environment pairs to either the
//! binary to become — with its reconciled environment — or the dialog
//! to show, or the probe error that stopped everything.

use vstd::prelude::*;

use crate::LaunchError;
use crate::discovery::discover_variants;
use crate::discovery::discovered;
use crate::discovery::views_of;
use crate::environment::EnvMap;
use crate::environment::augmented_path;
use crate::environment::map_of_pairs;
use crate::host::build_host_profile;
use crate::host::resolved_arch;
use crate::host::translated_flag;
use crate::host::version_error_detail;
use crate::report::build_incompatible_detail;
use crate::report::incompatible_detail;
use crate::report::incompatible_title;
use crate::selector::eligible;
use crate::selector::is_best;
use crate::selector::select_variant;
use crate::text::trimmed;
use crate::version::parses_as_version;
use crate::version::version_components;

verus! {

/// What the launcher is to do.
#[derive(Debug)]
pub enum LaunchPlan {
    /// Become `exe`, under environment `env`.
    Run { exe: String, env: EnvMap },
    /// Nothing fits: show the dialog with this heading and body.
    Incompatible { title: String, detail: String },
}

/// Decides the launch. `version_out`, `arch_out` and `translated_out`
/// are the raw outputs of the three system queries; `dir` is the
/// launcher's directory as listed and `base_dir` its resolved absolute
/// form; `entry_names` are the directory's entry names; `prefix` is the
/// application prefix a candidate must carry; `env_pairs` are the raw
/// environment pairs of whichever acquisition mode applied.
pub fn plan_launch(
    version_out: &str,
    arch_out: &str,
    translated_out: &str,
    dir: &str,
    base_dir: &str,
    entry_names: &Vec<String>,
    prefix: &str,
    env_pairs: &Vec<(String, String)>,
) -> (r: Result<LaunchPlan, LaunchError>)
    ensures
        r is Err <==> !parses_as_version(trimmed(version_out@)),
        r matches Err(e) ==> e matches LaunchError::Probe { detail } && detail@
            == version_error_detail(version_out@),
        r matches Ok(p) ==> {
            let cands = discovered(dir@, entry_names.deep_view(), prefix@);
            let ha = resolved_arch(trimmed(arch_out@), translated_flag(translated_out@));
            let hv = version_components(trimmed(version_out@));
            match p {
                LaunchPlan::Run { exe, env } => exists|idx: int|
                    {
                        &&& #[trigger] is_best(cands, ha, hv, idx)
                        &&& exe@ == cands[idx].exe
                        &&& env.wf()
                        &&& env@ == map_of_pairs(env_pairs.deep_view()).insert(
                            "PATH"@,
                            augmented_path(
                                if map_of_pairs(env_pairs.deep_view()).contains_key("PATH"@) {
                                    Some(map_of_pairs(env_pairs.deep_view())["PATH"@])
                                } else {
                                    None
                                },
                                base_dir@,
                                cands[idx].id,
                            ),
                        )
                    },
                LaunchPlan::Incompatible { title, detail } => {
                    &&& (forall|k: int| 0 <= k < cands.len() ==> !eligible(#[trigger] cands[k], ha, hv))
                    &&& title@ == "This application will not run on your computer. Sorry!"@
                    &&& detail@ == incompatible_detail(trimmed(version_out@), ha, cands)
                },
            }
        },
{
    let host = match build_host_profile(version_out, arch_out, translated_out) {
        Err(e) => {
            return Err(e);
        },
        Ok(h) => h,
    };
    let candidates = discover_variants(dir, entry_names, prefix);
    match select_variant(&candidates, &host) {
        Some(idx) => {
            let v = &candidates[idx];
            let mut env = EnvMap::from_pairs(env_pairs);
            env.augment_path(base_dir, v.id.as_str());
            proof {
                assert(views_of(candidates@)[idx as int] == candidates@[idx as int]@);
            }
            Ok(LaunchPlan::Run { exe: v.exe.clone(), env })
        },
        None => {
            let title = incompatible_title();
            let detail = build_incompatible_detail(
                host.os_version_text.as_str(),
                host.architecture.as_str(),
                &candidates,
            );
            Ok(LaunchPlan::Incompatible { title, detail })
        },
    }
}

} // verus!
