use lib::project::{
    cleanup_script, cli_download_url, glass_json, glasshouse_release_url, glasshouse_url, release_list,
    scaffold_dirs_list, scaffold_files, update_step, UpdateStep, APP_JS,
};
use lib::releases::{
    first_stable_tag, latest_cli_version, latest_glasshouse_version, pick_release_tag, releases_from_json, Release,
};

fn rel(tag: &str, name: &str, pre: bool) -> Release {
    (tag.to_string(), name.to_string(), pre)
}

#[test]
fn scaffold() {
    assert_eq!(scaffold_dirs_list(), vec!["glasshouse", "packages", "src", "styles"]);
    let files = scaffold_files();
    let paths: Vec<&str> = files.iter().map(|f| f.0.as_str()).collect();
    assert_eq!(paths, vec!["index.html", "styles/main.css", "src/app.js", "packages/.registry.json", ".gitignore"]);
    assert_eq!(files[2].1, APP_JS);
    assert_eq!(files[3].1, "{}");
    assert_eq!(files[4].1, "dist/\n");
    assert!(files[0].1.contains("<script src=\"src/app.js\"></script>"));
    assert_eq!(glass_json("my-app"), "{\"name\":\"my-app\",\"version\":\"0.1.0\",\"entry\":\"src/app.js\"}");
}

#[test]
fn framework_urls() {
    assert_eq!(glasshouse_url("latest"), "https://github.com/OniuUI/GlassHouse/releases/latest/download/glasshouse.zip");
    assert_eq!(
        glasshouse_url("1.2.0"),
        "https://github.com/OniuUI/GlassHouse/releases/download/v1.2.0/glasshouse-v1.2.0.zip"
    );
    assert_eq!(
        glasshouse_release_url("v2.0.0"),
        "https://github.com/OniuUI/GlassHouse/releases/download/v2.0.0/glasshouse.zip"
    );
    assert_eq!(cli_download_url("v0.2.0"), "https://github.com/OniuUI/Glas-CLI/releases/download/v0.2.0/glas.exe");
}

#[test]
fn update_decisions() {
    match update_step("v0.1.0", false) {
        UpdateStep::UpToDate(l) => assert_eq!(l, "glas is up to date (v0.1.0)."),
        _ => panic!("expected up to date"),
    }
    match update_step("v0.2.0", true) {
        UpdateStep::Available(l) => assert_eq!(l, "glas v0.1.0 → v0.2.0 (update available)"),
        _ => panic!("expected available"),
    }
    match update_step("v0.2.0", false) {
        UpdateStep::Update(l) => assert_eq!(l, "glas v0.1.0 → v0.2.0 — updating..."),
        _ => panic!("expected update"),
    }
    assert_eq!(
        cleanup_script("C:\\g\\glas_old.exe"),
        "@echo off\r\ntimeout /t 1 /nobreak >nul\r\ndel /f \"C:\\g\\glas_old.exe\" 2>nul\r\ndel /f \"%~f0\" 2>nul\r\n"
    );
}

#[test]
fn release_listing() {
    let rs = vec![rel("v2.1.0-beta", "Beta", true), rel("v2.0.0", "Two", false), rel("v1.0.0", "One", false)];
    assert_eq!(
        release_list(&rs),
        vec![
            "".to_string(),
            "  v2.1.0-beta  Beta  (pre-release)".to_string(),
            "  v2.0.0  Two  (stable) ← latest".to_string(),
            "  v1.0.0  One  (stable)".to_string(),
            "".to_string(),
            "Install: glas init my-app --glasshouse <version>".to_string(),
        ]
    );
    assert_eq!(release_list(&[]), vec!["No releases found.".to_string()]);
}

#[test]
fn releases_from_api_answer() {
    let raw = r#"[{"tag_name":"v2.1.0","name":"Next","prerelease":true},{"name":"untagged"},3,{"tag_name":"v2.0.0","prerelease":false,"name":"Stable"}]"#;
    assert_eq!(
        releases_from_json(raw),
        vec![rel("v2.1.0", "Next", true), rel("v2.0.0", "Stable", false)]
    );
    assert_eq!(releases_from_json("{}"), Vec::<Release>::new());
    assert_eq!(releases_from_json(""), Vec::<Release>::new());
}

#[test]
fn release_choice() {
    let rs = vec![rel("v3.0.0-rc", "", true), rel("v2.0.0", "", false)];
    assert_eq!(first_stable_tag(&rs), Some("v2.0.0".to_string()));
    assert_eq!(pick_release_tag(&rs), Some("v2.0.0".to_string()));
    let pre = vec![rel("v3.0.0-rc", "", true)];
    assert_eq!(first_stable_tag(&pre), None);
    assert_eq!(pick_release_tag(&pre), Some("v3.0.0-rc".to_string()));
    assert_eq!(latest_glasshouse_version(Some(&pre)), "v3.0.0-rc");
    assert_eq!(latest_glasshouse_version(Some(&[])), "v2.0.0");
    assert_eq!(latest_glasshouse_version(None), "v2.0.0");
    assert_eq!(latest_cli_version(&rs), Ok("v2.0.0".to_string()));
    assert_eq!(latest_cli_version(&[]), Err("no releases found".to_string()));
}
