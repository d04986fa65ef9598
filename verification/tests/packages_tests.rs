use lib::packages::{
    info_lines, install_action, list_lines, listed_name, package_meta, registry_with, registry_without, replace_text,
    script_command, upgrade_considers, upgrade_would_overflow, upgrade_package, upgrade_summary, InstallAction,
};

#[test]
fn registry_records_a_package() {
    assert_eq!(
        registry_with(None, "button", "1.0.0", "registry"),
        "{\"button\":{\"version\":\"1.0.0\",\"source\":\"registry\",\"installed\":\"2026\"}}"
    );
    assert_eq!(
        registry_with(Some("not json"), "w", "0.1.0", "local"),
        "{\"w\":{\"version\":\"0.1.0\",\"source\":\"local\",\"installed\":\"2026\"}}"
    );
    let before = "{\"a\":{\"version\":\"1\"}}";
    assert_eq!(
        registry_with(Some(before), "b", "0.1.0", "local-file"),
        "{\"a\":{\"version\":\"1\"},\"b\":{\"version\":\"0.1.0\",\"source\":\"local-file\",\"installed\":\"2026\"}}"
    );
    // A package already recorded keeps its entry.
    assert_eq!(registry_with(Some(before), "a", "9.9.9", "remote"), before);
}

#[test]
fn registry_drops_a_package() {
    assert_eq!(
        registry_without("{\"a\":{\"version\":\"1\"},\"b\":2}", "a"),
        Some("{\"b\":2}".to_string())
    );
    assert_eq!(registry_without("{\"b\":2}", "a"), Some("{\"b\":2}".to_string()));
    assert_eq!(registry_without("", "a"), None);
}

#[test]
fn package_metadata() {
    assert_eq!(
        package_meta(Some("{\"version\":\"1.2.3\",\"type\":\"pebble\"}")),
        ("1.2.3".to_string(), "pebble".to_string())
    );
    assert_eq!(package_meta(Some("{\"version\":2}")), ("?".to_string(), "?".to_string()));
    assert_eq!(package_meta(None), ("?".to_string(), "?".to_string()));
}

#[test]
fn info_shows_metadata_and_files() {
    let files = vec![
        ("index.ts".to_string(), 2048u64),
        ("package.json".to_string(), 40u64),
        ("README.md".to_string(), 10u64),
    ];
    assert_eq!(
        info_lines("button", Some("{\"version\":\"1.0.0\",\"type\":\"pebble\"}"), &files),
        vec![
            "Package: button".to_string(),
            "  Version:     1.0.0".to_string(),
            "  Type:        pebble".to_string(),
            "  Description: -".to_string(),
            "  Files:".to_string(),
            "    index.ts (2.0KB)".to_string(),
            "    README.md (10B)".to_string(),
        ]
    );
    assert_eq!(
        info_lines("x", None, &Vec::new()),
        vec!["Package: x".to_string(), "  Files:".to_string()]
    );
}

#[test]
fn list_table() {
    let rows = vec![
        ("zeta".to_string(), "1.0.0".to_string(), "pebble".to_string()),
        ("alpha".to_string(), "?".to_string(), "?".to_string()),
    ];
    let lines = list_lines(&rows);
    assert_eq!(lines.len(), 5);
    assert_eq!(lines[0], format!("{:<30} {:<12} {:<12}", "NAME", "VERSION", "TYPE"));
    assert_eq!(lines[1], "-".repeat(56));
    assert_eq!(lines[2], format!("{:<30} {:<12} {:<12}", "alpha", "?", "?"));
    assert_eq!(lines[3], format!("{:<30} {:<12} {:<12}", "zeta", "1.0.0", "pebble"));
    assert_eq!(lines[4], "  2 packages");
    assert_eq!(list_lines(&Vec::new()), vec!["No packages.".to_string()]);
}

#[test]
fn list_keeps_long_names() {
    let long = "a".repeat(35);
    let rows = vec![(long.clone(), "1".to_string(), "t".to_string())];
    let lines = list_lines(&rows);
    assert_eq!(lines[2], format!("{:<30} {:<12} {:<12}", long, "1", "t"));
}

#[test]
fn project_scripts() {
    let raw = "{\"name\":\"app\",\"scripts\":{\"lint\":\"glas lint\",\"n\":3}}";
    assert_eq!(script_command(raw, "lint"), Some("glas lint".to_string()));
    assert_eq!(script_command(raw, "n"), None);
    assert_eq!(script_command(raw, "missing"), None);
    assert_eq!(script_command("{}", "lint"), None);
}

#[test]
fn replace_every_occurrence() {
    assert_eq!(replace_text("aXbXc", "X", "--"), "a--b--c");
    assert_eq!(replace_text("aaa", "aa", "b"), "ba");
    assert_eq!(replace_text("abc", "z", "y"), "abc");
}

#[test]
fn upgrade_one_package() {
    let raw = "{\"name\":\"b\",\"version\":\"1.2.3\"}";
    assert_eq!(
        upgrade_package("b", raw, None, false, false),
        Some((
            "  ✓ b: 1.2.3 → 1.2.4".to_string(),
            Some("{\"name\":\"b\",\"version\":\"1.2.4\"}".to_string())
        ))
    );
    assert_eq!(
        upgrade_package("b", raw, None, true, true),
        Some(("  b: 1.2.3 → 2.0.0 (would update)".to_string(), None))
    );
    assert_eq!(upgrade_package("b", raw, Some("1.2.3".to_string()), false, false), None);
    assert_eq!(
        upgrade_package("b", raw, Some("3.0.0".to_string()), false, false),
        Some((
            "  ✓ b: 1.2.3 → 3.0.0".to_string(),
            Some("{\"name\":\"b\",\"version\":\"3.0.0\"}".to_string())
        ))
    );
    assert_eq!(
        upgrade_package("c", "{}", None, false, true),
        Some(("  c: 0.0.0 → 0.0.1 (would update)".to_string(), None))
    );
}

#[test]
fn upgrade_selection_and_summary() {
    assert!(upgrade_considers("button", &None));
    assert!(!upgrade_considers(".cache", &None));
    assert!(upgrade_considers("button", &Some("button".to_string())));
    assert!(!upgrade_considers("card", &Some("button".to_string())));
    assert_eq!(upgrade_summary(0, true), "  All up to date.");
    assert_eq!(upgrade_summary(2, true), "  2 would update. Run 'glas upgrade' to apply.");
    assert_eq!(upgrade_summary(3, false), "  3 updated.");
}

#[test]
fn install_decisions() {
    match install_action("./packages/my-pebble", false, true, true, false) {
        InstallAction::AlreadyInstalled(m) => assert_eq!(m, "glas: 'my-pebble' already installed (use -f to force)"),
        _ => panic!("expected already installed"),
    }
    assert!(matches!(install_action("./lib", true, true, true, false), InstallAction::CopyDir));
    assert!(matches!(install_action("widget.ts", false, false, false, true), InstallAction::CopyFile));
    assert!(matches!(install_action("https://x.org/a.js", false, false, false, false), InstallAction::Fetch));
    match install_action("button@1.2.3", false, false, false, false) {
        InstallAction::Stage { name, version, registry_version, index_js } => {
            assert_eq!(name, "button");
            assert_eq!(version, "1.2.3");
            assert_eq!(registry_version, "1.2.3");
            assert_eq!(index_js, "// button v1.2.3\n");
        }
        _ => panic!("expected stage"),
    }
    match install_action("button@latest", false, false, false, false) {
        InstallAction::Stage { registry_version, .. } => assert_eq!(registry_version, "0.1.0"),
        _ => panic!("expected stage"),
    }
    match install_action("@scope/thing", false, false, false, false) {
        InstallAction::NotFound(m) => assert_eq!(m, "glas: source '@scope/thing' not found"),
        _ => panic!("expected not found"),
    }
}

#[test]
fn dot_directories_are_not_packages() {
    assert!(listed_name("button"));
    assert!(!listed_name(".cache"));
    assert!(listed_name(""));
}

#[test]
fn upgrade_overflow_detected() {
    assert!(upgrade_would_overflow("{\"version\":\"1.2.4294967295\"}", false));
    assert!(!upgrade_would_overflow("{\"version\":\"1.2.4294967295\"}", true));
    assert!(!upgrade_would_overflow("{\"name\":\"x\"}", false));
    assert!(!upgrade_would_overflow("{\"version\":\"1.2.3\"}", false));
}
