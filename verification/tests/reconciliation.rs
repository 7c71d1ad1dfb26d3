use launchstub::envdump::build_env_payload;
use launchstub::envdump::parse_descriptor;
use launchstub::envdump::read_env_payload;
use launchstub::environment::EnvMap;
use launchstub::links::FsNode;
use launchstub::links::LinkTable;
use launchstub::report::failure_title;
use launchstub::LaunchError;

fn pairs(raw: &[(&str, &str)]) -> Vec<(String, String)> {
    raw.iter().map(|(k, v)| (k.to_string(), v.to_string())).collect()
}

const SENTINEL: &str = "EMACS_LAUNCHER_PLEASE_DUMP_YOUR_ENV";

#[test]
fn merge_last_writer_wins() {
    let env = EnvMap::from_pairs(&pairs(&[("PATH", "/a"), ("PATH", "/b")]));
    assert_eq!(env.get("PATH").unwrap().as_str(), "/b");
}

#[test]
fn merge_keeps_distinct_names() {
    let env = EnvMap::from_pairs(&pairs(&[("PATH", "/a"), ("HOME", "/h"), ("PATH", "/b")]));
    assert_eq!(env.get("PATH").unwrap().as_str(), "/b");
    assert_eq!(env.get("HOME").unwrap().as_str(), "/h");
    assert!(env.get("SHELL").is_none());
}

#[test]
fn insert_overwrites_in_place() {
    let mut env = EnvMap::new();
    env.insert("TERM".to_string(), "dumb".to_string());
    env.insert("TERM".to_string(), "xterm".to_string());
    assert_eq!(env.get("TERM").unwrap().as_str(), "xterm");
}

#[test]
fn path_augmentation_appends_variant_directories() {
    let mut env = EnvMap::from_pairs(&pairs(&[("PATH", "/usr/bin:/bin")]));
    env.augment_path("/App", "arm64-12.0");
    assert_eq!(
        env.get("PATH").unwrap().as_str(),
        "/usr/bin:/bin:/App/bin-arm64-12.0:/App/libexec-arm64-12.0"
    );
}

#[test]
fn path_augmentation_without_existing_path() {
    let mut env = EnvMap::new();
    env.augment_path("/App", "arm64-12.0");
    assert_eq!(
        env.get("PATH").unwrap().as_str(),
        ":/App/bin-arm64-12.0:/App/libexec-arm64-12.0"
    );
}

#[test]
fn dump_round_trip_excludes_sentinel() {
    let all = pairs(&[(SENTINEL, "3"), ("PATH", "/a"), ("HOME", "/h")]);
    let bytes = build_env_payload(&all, SENTINEL);
    let back = read_env_payload(&bytes).unwrap();
    assert_eq!(back, pairs(&[("PATH", "/a"), ("HOME", "/h")]));
}

#[test]
fn dump_round_trip_keeps_order_and_values() {
    let all = pairs(&[("B", "2"), ("A", "1"), ("B", "3")]);
    let bytes = build_env_payload(&all, SENTINEL);
    let back = read_env_payload(&bytes).unwrap();
    assert_eq!(back, all);
    let env = EnvMap::from_pairs(&back);
    assert_eq!(env.get("B").unwrap().as_str(), "3");
}

#[test]
fn dump_rejects_mangled_payload() {
    let bytes = b"this is no payload".to_vec();
    assert!(read_env_payload(&bytes).is_none());
}

#[test]
fn link_resolution_follows_chain_to_plain_target() {
    let table = LinkTable {
        entries: vec![
            ("/a".to_string(), FsNode::Symlink { target: "/b".to_string() }),
            ("/b".to_string(), FsNode::Symlink { target: "/c".to_string() }),
            ("/c".to_string(), FsNode::Plain),
        ],
    };
    assert_eq!(table.resolve_links("/a").unwrap(), "/c");
}

#[test]
fn link_resolution_accepts_plain_start() {
    let table = LinkTable { entries: vec![("/x".to_string(), FsNode::Plain)] };
    assert_eq!(table.resolve_links("/x").unwrap(), "/x");
}

#[test]
fn link_resolution_fails_on_broken_link() {
    let table = LinkTable {
        entries: vec![("/a".to_string(), FsNode::Symlink { target: "/gone".to_string() })],
    };
    let e = table.resolve_links("/a").unwrap_err();
    assert!(matches!(e, LaunchError::PathResolution { .. }));
}

#[test]
fn link_resolution_fails_on_cycle_instead_of_looping() {
    let table = LinkTable {
        entries: vec![
            ("/a".to_string(), FsNode::Symlink { target: "/b".to_string() }),
            ("/b".to_string(), FsNode::Symlink { target: "/a".to_string() }),
        ],
    };
    let e = table.resolve_links("/a").unwrap_err();
    assert!(matches!(e, LaunchError::PathResolution { .. }));
}

#[test]
fn descriptor_parse_reads_numbers() {
    assert_eq!(parse_descriptor("3"), 3);
    assert_eq!(parse_descriptor("17"), 17);
    assert_eq!(parse_descriptor("0"), 0);
    assert_eq!(parse_descriptor("+5"), 5);
    assert_eq!(parse_descriptor("-2"), -2);
    assert_eq!(parse_descriptor("2147483647"), 2147483647);
    assert_eq!(parse_descriptor("-2147483648"), -2147483648);
}

#[test]
fn descriptor_parse_falls_back_to_stdout() {
    assert_eq!(parse_descriptor(""), 1);
    assert_eq!(parse_descriptor("-"), 1);
    assert_eq!(parse_descriptor("fd"), 1);
    assert_eq!(parse_descriptor("1 "), 1);
    assert_eq!(parse_descriptor("2147483648"), 1);
    assert_eq!(parse_descriptor("99999999999999999999"), 1);
}

#[test]
fn failure_dialog_heading() {
    assert_eq!(failure_title().as_str(), "Emacs failed to launch!");
}

#[test]
fn error_message_carries_detail() {
    let e = LaunchError::Replacement { detail: "exec failed".to_string() };
    assert_eq!(e.message().as_str(), "exec failed");
}
