use launchstub::discovery::Variant;
use launchstub::discovery::discover_variants;
use launchstub::filename::parse_candidate_name;
use launchstub::host::HostProfile;
use launchstub::host::build_host_profile;
use launchstub::host::resolve_architecture;
use launchstub::plan::LaunchPlan;
use launchstub::plan::plan_launch;
use launchstub::selector::select_variant;
use launchstub::version::Version;
use launchstub::LaunchError;

fn variant(arch: &str, version: &str) -> Variant {
    Variant {
        exe: format!("/App/Emacs-{}-{}", arch, version.replace(".", "_")),
        arch: arch.to_string(),
        version: version.to_string(),
        id: format!("{}-{}", arch, version.replace(".", "_")),
    }
}

fn host(arch: &str, os: &str) -> HostProfile {
    HostProfile {
        os_version: Version::parse(os).unwrap(),
        os_version_text: os.to_string(),
        architecture: arch.to_string(),
    }
}

#[test]
fn version_parse_accepts_dotted_numbers() {
    assert!(Version::parse("12.3").is_some());
    assert!(Version::parse("10.14.6").is_some());
    assert!(Version::parse("7").is_some());
}

#[test]
fn version_parse_rejects_malformed() {
    assert!(Version::parse("").is_none());
    assert!(Version::parse(".").is_none());
    assert!(Version::parse("1..2").is_none());
    assert!(Version::parse(".1").is_none());
    assert!(Version::parse("1.").is_none());
    assert!(Version::parse("1a").is_none());
    assert!(Version::parse("...").is_none());
    // a component beyond the representation is rejected, not clamped
    assert!(Version::parse("99999999999999999999999").is_none());
}

#[test]
fn version_order_is_componentwise() {
    let a = Version::parse("10.9").unwrap();
    let b = Version::parse("10.14").unwrap();
    assert!(a.lt(&b));
    assert!(!b.le(&a));
    assert!(a.le(&b));
}

#[test]
fn version_order_pads_with_zeros() {
    let a = Version::parse("12").unwrap();
    let b = Version::parse("12.0").unwrap();
    assert!(a.le(&b));
    assert!(b.le(&a));
    assert!(!a.lt(&b));
}

#[test]
fn filename_parse_extracts_fields() {
    let p = parse_candidate_name("Emacs-arm64-11_0").unwrap();
    assert_eq!(p.arch, "arm64");
    assert_eq!(p.raw_version, "11_0");
    assert_eq!(p.version, "11.0");
}

#[test]
fn filename_parse_three_component_version() {
    let p = parse_candidate_name("Emacs-x86_64-10_14_6").unwrap();
    assert_eq!(p.arch, "x86_64");
    assert_eq!(p.version, "10.14.6");
}

#[test]
fn filename_parse_dashed_base() {
    // the architecture is the stretch between the last two dashes
    let p = parse_candidate_name("My-App-x86_64-10_9").unwrap();
    assert_eq!(p.arch, "x86_64");
    assert_eq!(p.version, "10.9");
}

#[test]
fn filename_parse_rejects_non_candidates() {
    assert!(parse_candidate_name("Emacs").is_none());
    assert!(parse_candidate_name("Emacs-arm64").is_none());
    assert!(parse_candidate_name("Emacs-arm64-").is_none());
    assert!(parse_candidate_name("Emacs-arm64-beta").is_none());
    assert!(parse_candidate_name("-arm64-11_0").is_some());
    assert!(parse_candidate_name("arm64-11_0").is_none());
    assert!(parse_candidate_name("").is_none());
}

#[test]
fn discovery_keeps_matching_entries_in_order() {
    let names = vec![
        "Emacs-arm64-11_0".to_string(),
        "README".to_string(),
        "Emacs-x86_64-10_9".to_string(),
        "Other-arm64-1_0".to_string(),
        "Emacs-notes.txt".to_string(),
    ];
    let found = discover_variants("/App", &names, "Emacs-");
    assert_eq!(found.len(), 2);
    assert_eq!(found[0].exe, "/App/Emacs-arm64-11_0");
    assert_eq!(found[0].arch, "arm64");
    assert_eq!(found[0].version, "11.0");
    assert_eq!(found[0].id, "arm64-11_0");
    assert_eq!(found[1].exe, "/App/Emacs-x86_64-10_9");
    assert_eq!(found[1].id, "x86_64-10_9");
}

#[test]
fn architecture_translation_corrects_x86_64() {
    assert_eq!(resolve_architecture("x86_64".to_string(), true), "arm64");
}

#[test]
fn architecture_translation_leaves_others_alone() {
    assert_eq!(resolve_architecture("x86_64".to_string(), false), "x86_64");
    assert_eq!(resolve_architecture("arm64".to_string(), true), "arm64");
    assert_eq!(resolve_architecture("i386".to_string(), true), "i386");
}

#[test]
fn host_profile_from_query_output() {
    let h = build_host_profile("12.3\n", "arm64\n", "0\n").unwrap();
    assert_eq!(h.os_version_text, "12.3");
    assert_eq!(h.architecture, "arm64");
}

#[test]
fn host_profile_applies_translation_flag() {
    let h = build_host_profile("12.3\n", "x86_64\n", "1\n").unwrap();
    assert_eq!(h.architecture, "arm64");
}

#[test]
fn host_profile_rejects_bad_version() {
    let e = build_host_profile("Darwin\n", "arm64\n", "0\n").unwrap_err();
    assert!(matches!(e, LaunchError::Probe { .. }));
    assert_eq!(e.message().as_str(), "Couldn't parse version: 'Darwin\n'");
}

#[test]
fn selection_prefers_highest_satisfied_minimum() {
    let cands = vec![variant("arm64", "11.0"), variant("arm64", "12.0"), variant("x86_64", "10.9")];
    let h = host("arm64", "12.3");
    assert_eq!(select_variant(&cands, &h), Some(1));
}

#[test]
fn selection_rejects_minimum_above_host() {
    let cands = vec![variant("arm64", "13.0")];
    let h = host("arm64", "12.3");
    assert_eq!(select_variant(&cands, &h), None);
}

#[test]
fn selection_ignores_other_architectures() {
    let cands = vec![variant("x86_64", "10.9")];
    let h = host("arm64", "12.3");
    assert_eq!(select_variant(&cands, &h), None);
}

#[test]
fn selection_treats_unparseable_version_as_ineligible() {
    let cands = vec![variant("arm64", "...")];
    let h = host("arm64", "12.3");
    assert_eq!(select_variant(&cands, &h), None);
}

#[test]
fn selection_breaks_ties_by_first_discovered() {
    // 12 and 12.0 denote the same version; the earlier entry stays
    let cands = vec![variant("arm64", "12"), variant("arm64", "12.0")];
    let h = host("arm64", "12.3");
    assert_eq!(select_variant(&cands, &h), Some(0));
}

#[test]
fn selection_accepts_exact_minimum() {
    let cands = vec![variant("arm64", "12.3")];
    let h = host("arm64", "12.3");
    assert_eq!(select_variant(&cands, &h), Some(0));
}

#[test]
fn plan_runs_best_variant_with_augmented_path() {
    let names = vec![
        "Emacs-arm64-11_0".to_string(),
        "Emacs-arm64-12_0".to_string(),
        "Emacs-x86_64-10_9".to_string(),
    ];
    let env = vec![("PATH".to_string(), "/usr/bin".to_string())];
    let plan = plan_launch("12.3\n", "x86_64\n", "1\n", "/D", "/Base", &names, "Emacs-", &env)
        .unwrap();
    match plan {
        LaunchPlan::Run { exe, env } => {
            assert_eq!(exe, "/D/Emacs-arm64-12_0");
            assert_eq!(
                env.get("PATH").unwrap().as_str(),
                "/usr/bin:/Base/bin-arm64-12_0:/Base/libexec-arm64-12_0"
            );
        }
        LaunchPlan::Incompatible { .. } => panic!("expected a run plan"),
    }
}

#[test]
fn plan_reports_incompatibility_with_inventory() {
    let names = vec!["Emacs-arm64-13_0".to_string()];
    let env: Vec<(String, String)> = Vec::new();
    let plan = plan_launch("12.3\n", "arm64\n", "0\n", "/D", "/Base", &names, "Emacs-", &env)
        .unwrap();
    match plan {
        LaunchPlan::Run { .. } => panic!("expected an incompatibility report"),
        LaunchPlan::Incompatible { title, detail } => {
            assert_eq!(title, "This application will not run on your computer. Sorry!");
            assert_eq!(
                detail,
                "The Emacs Launcher detected OS version 12.3 on arm64 architecture.\n\n\
                 The detected Emacs binaries are:\n\u{2022} arch arm64, min OS 13.0\n"
            );
        }
    }
}

#[test]
fn plan_reports_empty_inventory_explicitly() {
    let names: Vec<String> = Vec::new();
    let env: Vec<(String, String)> = Vec::new();
    let plan = plan_launch("12.3\n", "arm64\n", "0\n", "/D", "/Base", &names, "Emacs-", &env)
        .unwrap();
    match plan {
        LaunchPlan::Run { .. } => panic!("expected an incompatibility report"),
        LaunchPlan::Incompatible { detail, .. } => {
            assert!(detail.ends_with("The detected Emacs binaries are:\nNone. :-("));
        }
    }
}

#[test]
fn plan_fails_on_unreadable_version() {
    let names: Vec<String> = Vec::new();
    let env: Vec<(String, String)> = Vec::new();
    let e = plan_launch("bogus\n", "arm64\n", "0\n", "/D", "/Base", &names, "Emacs-", &env)
        .unwrap_err();
    assert!(matches!(e, LaunchError::Probe { .. }));
}
