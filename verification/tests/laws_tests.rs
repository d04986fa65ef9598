use lib::json::{parse, Value};
use lib::packages::{registry_with, registry_without, upgrade_package};
use lib::utils::extract_json_str;

fn str_member(v: &Value, key: &str) -> Option<String> {
    v.get_str(key).map(|s| s.to_string())
}

#[test]
fn upgraded_package_reads_back_new_version() {
    let raw = "{\"name\":\"b\",\"meta\":{\"v\":1},\"version\":\"1.2.3\",\"x\":\"\\\"version\\\":\\\"1.2.3\\\"\"}";
    let (_, content) = upgrade_package("b", raw, None, false, false).unwrap();
    let content = content.unwrap();
    assert_eq!(extract_json_str(&content, "version"), Some("1.2.4".to_string()));
    let (_, c2) = upgrade_package("b", raw, Some("2.0.0-rc1".to_string()), false, false).unwrap();
    assert_eq!(extract_json_str(&c2.unwrap(), "version"), Some("2.0.0-rc1".to_string()));
}

#[test]
fn installed_package_reads_back_from_registry() {
    let text = registry_with(Some("{\"old\":{\"version\":\"0.9\",\"n\":1.50}}"), "button", "1.2.3", "registry");
    let reg = parse(&text).unwrap();
    let entry = reg.get("button").unwrap();
    assert_eq!(str_member(entry, "version"), Some("1.2.3".to_string()));
    assert_eq!(str_member(entry, "source"), Some("registry".to_string()));
    assert_eq!(str_member(entry, "installed"), Some("2026".to_string()));
    let old = reg.get("old").unwrap();
    assert_eq!(old.to_json(), "{\"version\":\"0.9\",\"n\":1.5}");
}

#[test]
fn uninstalled_package_is_gone_from_registry() {
    let installed = registry_with(Some("{\"keep\":{\"version\":\"1\"}}"), "button", "1.0.0", "local");
    let text = registry_without(&installed, "button").unwrap();
    let reg = parse(&text).unwrap();
    assert!(reg.get("button").is_none());
    assert_eq!(reg.get("keep").unwrap().to_json(), "{\"version\":\"1\"}");
    assert_eq!(text, "{\"keep\":{\"version\":\"1\"}}");
}

#[test]
fn build_and_lint_agree_on_forbidden_js() {
    let files: Vec<String> = ["/p/packages/a/x.js", "/p/src/a.ts", "/p/src/b.js", "/p/src/.registry.json"]
        .iter()
        .map(|s| s.to_string())
        .collect();
    let lint_files: Vec<String> = lib::lint::forbidden_js("/p", &files).into_iter().map(|v| v.file).collect();
    assert_eq!(lint_files, vec!["packages/a/x.js".to_string(), "src/b.js".to_string()]);
    assert_eq!(lib::bundle::forbidden_js_paths("/p", &files), lint_files);
}
