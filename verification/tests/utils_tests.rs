use lib::num::decimal_string;
use lib::utils::{bump_version, bump_would_overflow, skip_dir, extract_json_str, format_size, package_name_from_source, parse_port};

fn args(v: &[&str]) -> Vec<String> {
    v.iter().map(|s| s.to_string()).collect()
}

#[test]
fn format_size_bytes_kb_mb() {
    assert_eq!(format_size(0), "0B");
    assert_eq!(format_size(1023), "1023B");
    assert_eq!(format_size(1024), "1.0KB");
    assert_eq!(format_size(1536), "1.5KB");
    assert_eq!(format_size(1234567), "1.2MB");
    assert_eq!(format_size(1048576), "1.0MB");
}

#[test]
fn format_size_matches_float_formatting() {
    for b in [1024u64, 1100, 1126, 1127, 2047, 5000, 1048575, 1048576, 1153433, 1205862, 10485760, 123456789, u64::MAX, 9007199254740993, 18014398509481985] {
        let expected = if b < 1024 {
            format!("{}B", b)
        } else if b < 1024 * 1024 {
            format!("{:.1}KB", b as f64 / 1024.0)
        } else {
            format!("{:.1}MB", b as f64 / (1024.0 * 1024.0))
        };
        assert_eq!(format_size(b), expected, "bytes {}", b);
    }
}

#[test]
fn parse_port_reads_flag() {
    assert_eq!(parse_port(&args(&["glas", "dev", "--port", "8080"]), 2), 8080);
    assert_eq!(parse_port(&args(&["glas", "dev"]), 2), 3000);
    assert_eq!(parse_port(&args(&["glas", "dev", "--port", "x"]), 2), 3000);
    assert_eq!(parse_port(&args(&["glas", "dev", "--port", "70000"]), 2), 3000);
    assert_eq!(parse_port(&args(&["glas", "dev", "--port"]), 2), 3000);
    assert_eq!(parse_port(&args(&["glas", "dev", "--port", "+81"]), 2), 81);
}

#[test]
fn bump_version_patch_and_major() {
    assert_eq!(bump_version("1.2.3", false), "1.2.4");
    assert_eq!(bump_version("1.2.3", true), "2.0.0");
    assert_eq!(bump_version("1.2", false), "0.1.0");
    assert_eq!(bump_version("a.b.c", false), "0.0.1");
    assert_eq!(bump_version("1.2.3.4", true), "2.0.0");
}

#[test]
fn extract_json_str_finds_value() {
    assert_eq!(extract_json_str(r#"{"name":"x","version":"1.0.2"}"#, "version"), Some("1.0.2".to_string()));
    assert_eq!(extract_json_str(r#"{"version": "1.0.2"}"#, "version"), None);
    assert_eq!(extract_json_str(r#"{"version":"1.0"#, "version"), None);
}

#[test]
fn package_names() {
    assert_eq!(package_name_from_source("button@1.2.3"), "button");
    assert_eq!(package_name_from_source("./packages/my-pebble"), "my-pebble");
    assert_eq!(package_name_from_source("lib/widget.ts"), "widget");
    assert_eq!(package_name_from_source("lib/widget.js.ts"), "widget");
    assert_eq!(package_name_from_source("@scope/thing"), "thing");
    assert_eq!(package_name_from_source("a/b/.."), "");
}

#[test]
fn decimal_text() {
    assert_eq!(decimal_string(0), "0");
    assert_eq!(decimal_string(1234567890), "1234567890");
}

#[test]
fn skipped_directories() {
    assert!(skip_dir(".git"));
    assert!(skip_dir("."));
    assert!(skip_dir("node_modules"));
    assert!(!skip_dir("src"));
    assert!(!skip_dir(""));
    assert!(!skip_dir("node_modules2"));
}

#[test]
fn bump_overflow_detected() {
    assert!(bump_would_overflow("1.2.4294967295", false));
    assert!(!bump_would_overflow("1.2.4294967295", true));
    assert!(bump_would_overflow("4294967295.0.0", true));
    assert!(!bump_would_overflow("1.2.3", false));
    assert!(!bump_would_overflow("4294967295", true));
}
