use lib::quickjs::{build_runner_script, module_dir, module_file, module_not_found, push_sources_json, RUNNER_PREAMBLE};
use lib::watch::watch_step;

#[test]
fn runner_script_layout() {
    let modules = vec![
        ("glasshouse".to_string(), "var GH = {};".to_string()),
        ("dom".to_string(), "GH.dom = 1;".to_string()),
    ];
    let s = build_runner_script(&modules, "print(1);");
    let expected = format!(
        "{}\n// ====== Module: glasshouse ======\nvar GH = {{}};\n\n// ====== Module: dom ======\nGH.dom = 1;\n\n// ====== User Code ======\nprint(1);\n\nstd.exit(0);\n",
        RUNNER_PREAMBLE
    );
    assert_eq!(s, expected);
}

#[test]
fn sources_array() {
    let mut out = String::from("var sources = ");
    let files = vec![
        ("/p/src/a.ts".to_string(), "let s = \"x\";\n\tok\r".to_string()),
        ("/p/src/b.ts".to_string(), "b\\".to_string()),
    ];
    push_sources_json(&mut out, "/p", &files);
    assert_eq!(
        out,
        "var sources = [{\"file\":\"src/a.ts\",\"source\":\"let s = \\\"x\\\";\\n\\tok\\r\"},{\"file\":\"src/b.ts\",\"source\":\"b\\\\\"}]"
    );
    let mut empty = String::new();
    push_sources_json(&mut empty, "/p", &[]);
    assert_eq!(empty, "[]");
}

#[test]
fn watch_detects_new_and_resized_files() {
    let last: Vec<(String, u64)> = Vec::new();
    let now = vec![("a.ts".to_string(), Some(3u64)), ("b.ts".to_string(), None)];
    let rec = watch_step(&last, &now).expect("a new file is a change");
    assert_eq!(rec, vec![("a.ts".to_string(), 3u64)]);
    assert_eq!(watch_step(&rec, &now), None);
    let grown = vec![("a.ts".to_string(), Some(4u64))];
    assert_eq!(watch_step(&rec, &grown), Some(vec![("a.ts".to_string(), 4u64)]));
    // A file that disappeared is not a change.
    assert_eq!(watch_step(&rec, &Vec::new()), None);
}

#[test]
fn module_found_in_first_holding_directory() {
    let dirs = vec![
        vec!["readme.md".to_string()],
        vec!["lint.js".to_string(), "glasshouse.js".to_string()],
        vec!["glasshouse.js".to_string()],
    ];
    assert_eq!(module_dir(&dirs, "glasshouse"), Some(1));
    assert_eq!(module_dir(&dirs, "lint"), Some(1));
    assert_eq!(module_dir(&dirs, "readme"), None);
    assert_eq!(module_dir(&dirs, "ts-lexer"), None);
    assert_eq!(module_dir(&[], "lint"), None);
    assert_eq!(module_file("ts-lexer"), "ts-lexer.js");
    assert_eq!(module_not_found("lint"), "Module 'lint' not found in glasshouse/");
}
