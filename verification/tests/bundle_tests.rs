use lib::bundle::{
    compact_code, compact_result, compile_all_code, compile_all_result, dev_build_index, dev_bundle,
    forbidden_js_paths, format_diagnostics, COMPACT_HEAD, COMPACT_TAIL, COMPILE_ALL_HEAD, COMPILE_ALL_TAIL,
    COMPILE_FAILED, DEV_BUILD_INDEX_HEAD, DEV_BUILD_INDEX_TAIL, PROD_INDEX_HTML,
};
use lib::json::parse;
use lib::server::js_entries;

fn strings(v: &[&str]) -> Vec<String> {
    v.iter().map(|s| s.to_string()).collect()
}

#[test]
fn forbidden_files_sorted() {
    let files = strings(&["/p/src/z.js", "/p/src/a.ts", "/p/packages/b/index.js", "/p/packages/.registry.json"]);
    assert_eq!(forbidden_js_paths("/p", &files), strings(&["packages/b/index.js", "src/z.js"]));
    assert!(forbidden_js_paths("/p", &[]).is_empty());
}

#[test]
fn framework_entries_sorted() {
    let es = strings(&["/p/glasshouse/dom.js", "/p/glasshouse/a.css", "/p/glasshouse/core.js"]);
    assert_eq!(js_entries(&es), strings(&["/p/glasshouse/core.js", "/p/glasshouse/dom.js"]));
}

#[test]
fn compile_program() {
    let files = vec![("/p/src/a.ts".to_string(), "let a = \"x\";\n".to_string())];
    let code = compile_all_code("/p", &files);
    assert_eq!(
        code,
        format!(
            "{}[{{\"file\":\"src/a.ts\",\"source\":\"let a = \\\"x\\\";\\n\"}}]{}",
            COMPILE_ALL_HEAD, COMPILE_ALL_TAIL
        )
    );
    assert!(COMPILE_ALL_TAIL.contains("var result = compiler.compile(sf.source, {});"));
}

#[test]
fn diagnostics_text() {
    let v = parse("[{\"severity\":\"error\",\"message\":\"bad\"},3,{\"message\":\"m\"}]").unwrap();
    assert_eq!(format_diagnostics(&v), "    [error] bad\n    [] m\n");
    assert_eq!(format_diagnostics(&parse("{}").unwrap()), "");
}

#[test]
fn compile_answer_success_and_errors() {
    let out = "[{\"file\":\"src/a.ts\",\"success\":true,\"js\":\"var a;\",\"diagnostics\":[]},\
               {\"file\":\"src/b.ts\",\"success\":false,\"js\":\"\",\"diagnostics\":[{\"severity\":\"error\",\"message\":\"oops\"}]}]";
    let (compiled, errors) = compile_all_result(out).unwrap();
    assert_eq!(compiled, vec![("src/a.ts".to_string(), "var a;".to_string())]);
    assert_eq!(
        errors,
        vec![
            "  ✗ Compile error in src/b.ts:".to_string(),
            "    [error] oops\n".to_string(),
            COMPILE_FAILED.to_string(),
        ]
    );
    let (c2, e2) = compile_all_result(" [] ").unwrap();
    assert!(c2.is_empty() && e2.is_empty());
    assert_eq!(compile_all_result("nope"), Err("Failed to parse TS compiler output: nope".to_string()));
}

#[test]
fn compactor_program() {
    let sources = vec![
        ("glasshouse/a.js".to_string(), "a\t\"b\"\r\n".to_string()),
        ("src/x\\y.ts".to_string(), "c".to_string()),
    ];
    assert_eq!(
        compact_code(&sources),
        format!(
            "{}{{\"glasshouse/a.js\":\"a\t\\\"b\\\"\\r\\n\",\"src/x\\\\y.ts\":\"c\"}}{}",
            COMPACT_HEAD, COMPACT_TAIL
        )
    );
    assert_eq!(compact_code(&[]), format!("{}{{}}{}", COMPACT_HEAD, COMPACT_TAIL));
}

#[test]
fn compactor_answer() {
    assert_eq!(
        compact_result("{\"bundle\":\"B\",\"renamed\":12,\"poolEntries\":3.7,\"reduction\":40}"),
        Ok(("B".to_string(), 12, 3))
    );
    assert_eq!(
        compact_result("{\"bundle\":\"B\",\"renamed\":-2,\"poolEntries\":99999999999}"),
        Ok(("B".to_string(), 0, u32::MAX))
    );
    assert_eq!(
        compact_result("{\"bundle\":\"\"}"),
        Err("Hyper-compactor produced empty output".to_string())
    );
    assert_eq!(
        compact_result(&"y".repeat(300)),
        Err(format!("Failed to parse hyper-compactor output: {}", "y".repeat(200)))
    );
}

#[test]
fn readable_bundle() {
    let fw = vec![
        ("/p/glasshouse/zz.js".to_string(), Some("ZZ".to_string())),
        ("/p/glasshouse/dom.js".to_string(), Some("DOM".to_string())),
        ("/p/glasshouse/glasshouse.js".to_string(), Some("GH".to_string())),
        ("/p/glasshouse/types.js".to_string(), None),
    ];
    let compiled = vec![("src/a.ts".to_string(), "A".to_string())];
    let (b, n) = dev_bundle(&fw, &compiled);
    assert_eq!(b, "/* Glass House dev build */\n(function(){\n\"use strict\";\nGH\nDOM\nZZ\nA\n\n})();\n");
    assert_eq!(n, 4);
}

#[test]
fn build_pages() {
    assert!(PROD_INDEX_HTML.contains("<script src=\"glasshouse.bundle.js\"></script>"));
    let page = dev_build_index(
        "/p",
        &Some(strings(&["dom.js", "extra.js", "glasshouse.js"])),
        &strings(&["/p/src/a.ts"]),
        &strings(&["/p/packages/w/w.tsx"]),
    );
    let expected = format!(
        "{}  <script src=\"../glasshouse/glasshouse.js\"></script>\n  <script src=\"../glasshouse/dom.js\"></script>\n  <script src=\"../glasshouse/extra.js\"></script>\n  <script src=\"../src/a.ts\"></script>\n  <script src=\"../packages/w/w.tsx\"></script>\n{}",
        DEV_BUILD_INDEX_HEAD, DEV_BUILD_INDEX_TAIL
    );
    assert_eq!(page, expected);
}
