use lib::dev::{dev_lint_errors, dev_watch_step, DevState, SizeTable};
use lib::dev_http::{
    answer_readable, cached_response, compile_result, compiled_response, dev_route, escape_js_string, generate_dev_index_ts,
    js_refusal_response, ts_compile_code, width_of, DevRoute, DEV_INDEX_HEAD, DEV_INDEX_TAIL, RELOAD_SCRIPT,
};
use lib::lint::JS_FORBIDDEN;
use lib::server::js_response;

fn strings(v: &[&str]) -> Vec<String> {
    v.iter().map(|s| s.to_string()).collect()
}

#[test]
fn cache_store_and_forget() {
    let mut st = DevState::new();
    assert_eq!(st.cached("/p/src/a.ts"), None);
    st.store("/p/src/a.ts", "var a;".to_string());
    assert_eq!(st.cached("/p/src/a.ts"), Some("var a;".to_string()));
    st.store("/p/src/a.ts", "var b;".to_string());
    assert_eq!(st.cached("/p/src/a.ts"), Some("var b;".to_string()));
    st.forget("/p/src/a.ts");
    assert_eq!(st.cached("/p/src/a.ts"), None);
}

#[test]
fn errors_and_modules() {
    let mut st = DevState::new();
    assert!(st.errors().is_empty());
    st.push_error("✗ src/a.ts: bad".to_string());
    assert_eq!(st.errors(), &strings(&["✗ src/a.ts: bad"]));
    st.set_errors(Vec::new());
    assert!(st.errors().is_empty());
    assert!(st.ts_modules().is_none());
    st.set_ts_modules(vec![("ts-lexer".to_string(), "x".to_string())]);
    assert_eq!(st.ts_modules().unwrap().len(), 1);
}

#[test]
fn ping_body_lists_errors() {
    let mut st = DevState::new();
    assert_eq!(st.ping_body(42), "{\"timestamp\":\"42\",\"errors\":[]}");
    st.push_error("a \"b\"".to_string());
    st.push_error("c\\d".to_string());
    assert_eq!(st.ping_body(7), "{\"timestamp\":\"7\",\"errors\":[\"a \\\"b\\\"\",\"c\\\\d\"]}");
}

#[test]
fn size_table_records() {
    let mut t = SizeTable::new();
    assert_eq!(t.get("a.ts"), None);
    t.insert("a.ts", 10);
    t.insert("b.ts", 3);
    t.insert("a.ts", 11);
    assert_eq!(t.get("a.ts"), Some(11));
    assert_eq!(t.get("b.ts"), Some(3));
}

#[test]
fn watch_step_detects_changes() {
    let mut sizes = SizeTable::new();
    let mut st = DevState::new();
    let seen = vec![
        ("/p/src/a.ts".to_string(), Some(10u64)),
        ("/p/src/notes.txt".to_string(), Some(5u64)),
        ("/p/src/gone.ts".to_string(), None),
    ];
    assert!(dev_watch_step(&mut sizes, &mut st, &seen));
    assert_eq!(sizes.get("/p/src/notes.txt"), None);
    st.store("/p/src/a.ts", "js".to_string());
    st.push_error("old".to_string());
    // Nothing changed: a second look is quiet and keeps the cache and errors.
    assert!(!dev_watch_step(&mut sizes, &mut st, &seen));
    assert_eq!(st.cached("/p/src/a.ts"), Some("js".to_string()));
    assert_eq!(st.errors().len(), 1);
    // The file grew: its compiled text is dropped and the errors cleared.
    let grown = vec![("/p/src/a.ts".to_string(), Some(12u64))];
    assert!(dev_watch_step(&mut sizes, &mut st, &grown));
    assert_eq!(st.cached("/p/src/a.ts"), None);
    assert!(st.errors().is_empty());
    assert_eq!(sizes.get("/p/src/a.ts"), Some(12));
}

#[test]
fn dev_routes() {
    assert!(matches!(dev_route("GET /__glas_ping HTTP/1.1", "/p"), DevRoute::Ping));
    assert!(matches!(dev_route("POST /__glas_ping HTTP/1.1", "/p"), DevRoute::File(_)));
    assert!(matches!(dev_route("GET / HTTP/1.1", "/p"), DevRoute::Index));
    assert!(matches!(dev_route("GET /index.html HTTP/1.1", "/p"), DevRoute::Index));
    assert!(matches!(dev_route("GET", "/p"), DevRoute::NotFound));
    match dev_route("GET /src/app.ts HTTP/1.1", "/p") {
        DevRoute::Compile(f) => assert_eq!(f, "/p/src/app.ts"),
        _ => panic!("expected compile"),
    }
    match dev_route("GET /src/view.tsx HTTP/1.1", "/p") {
        DevRoute::Compile(f) => assert_eq!(f, "/p/src/view.tsx"),
        _ => panic!("expected compile"),
    }
    match dev_route("GET /src/app.js HTTP/1.1", "/p") {
        DevRoute::JsFile { ts, tsx, shown } => {
            assert_eq!(ts, "/p/src/app.ts");
            assert_eq!(tsx, "/p/src/app.tsx");
            assert_eq!(shown, "src/app.js");
        }
        _ => panic!("expected a js file"),
    }
    match dev_route("GET /glasshouse/dom.js HTTP/1.1", "/p") {
        DevRoute::File(p) => assert_eq!(p, "/glasshouse/dom.js"),
        _ => panic!("expected a file"),
    }
}

#[test]
fn js_refusal_text() {
    let body = format!("{}\n\nFile: src/a.js\n\nConvert this file to .ts or .tsx.", JS_FORBIDDEN);
    let expected = format!(
        "HTTP/1.1 403 Forbidden\r\nContent-Type: text/plain; charset=utf-8\r\nContent-Length: {}\r\nConnection: close\r\n\r\n{}",
        body.len(),
        body
    );
    assert_eq!(js_refusal_response("src/a.js"), expected);
}

#[test]
fn js_string_escape() {
    assert_eq!(escape_js_string("it's a\\b\nc\td\re"), "'it\\'s a\\\\b\\nc\\td\\re'");
    assert_eq!(escape_js_string(""), "''");
}

#[test]
fn compiled_answers_are_cached() {
    let mut st = DevState::new();
    assert_eq!(cached_response(&st, "/p/src/a.ts"), None);
    let r = compiled_response(&mut st, "/p", "/p/src/a.ts", Ok("var a=1;".to_string()));
    assert_eq!(r, js_response("var a=1;"));
    assert_eq!(cached_response(&st, "/p/src/a.ts"), Some(js_response("var a=1;")));
    assert!(st.errors().is_empty());
}

#[test]
fn failed_compile_logs_and_records() {
    let mut st = DevState::new();
    let r = compiled_response(&mut st, "/p", "/p/src/b.ts", Err("x is 'y'".to_string()));
    let body = "console.error('GlassHouse TS Compile Error in b.ts:');\nconsole.error('x is \\'y\\'');\n";
    assert_eq!(r, js_response(body));
    assert_eq!(st.errors(), &strings(&["✗ src/b.ts: x is 'y'"]));
    assert_eq!(cached_response(&st, "/p/src/b.ts"), None);
}

#[test]
fn compile_output_success() {
    assert_eq!(
        compile_result("  {\"success\":true,\"js\":\"var a;\",\"diagnostics\":[]}\n"),
        Ok("var a;".to_string())
    );
}

#[test]
fn compile_output_with_diagnostics() {
    assert_eq!(
        compile_result("{\"success\":false,\"js\":\"\",\"diagnostics\":[{\"message\":\"bad\"},{\"message\":\"worse\"}]}"),
        Err("bad; worse".to_string())
    );
    assert_eq!(
        compile_result("{\"success\":true,\"js\":\"var a;\",\"diagnostics\":[{\"message\":\"hm\"}]}"),
        Ok("console.warn('TS warnings:');\nvar a;".to_string())
    );
    assert_eq!(
        compile_result("{\"success\":true,\"js\":\"\"}"),
        Err("TypeScript compilation produced empty output".to_string())
    );
}

#[test]
fn compile_output_unreadable() {
    assert_eq!(
        compile_result("oops"),
        Err("Failed to parse TS compiler output: oops".to_string())
    );
    let long = "x".repeat(250);
    assert_eq!(
        compile_result(&long),
        Err(format!("Failed to parse TS compiler output: {}", "x".repeat(200)))
    );
}

#[test]
fn char_widths() {
    assert_eq!(width_of('a'), 1);
    assert_eq!(width_of('é'), 2);
    assert_eq!(width_of('✓'), 3);
    assert_eq!(width_of('😀'), 4);
}

#[test]
fn compile_program_embeds_source() {
    let code = ts_compile_code("let a = \"x\";\n");
    assert!(code.contains("let a = \\\"x\\\";\\n"));
}

#[test]
fn dev_lint_lists_js() {
    let files = strings(&["/p/src/a.js", "/p/src/b.ts", "/p/packages/x/.registry.json"]);
    let errs = dev_lint_errors("/p", &files);
    assert_eq!(errs.len(), 1);
    assert!(errs[0].starts_with("✗ src/a.js: "));
}

#[test]
fn dev_index_page() {
    let gh = Some(strings(&["zeta.js", "dom.js", "glasshouse.js", "readme.md", "alpha.js"]));
    let src = strings(&["/p/src/b.ts", "/p/src/a.tsx", "/p/src/c.js"]);
    let pkg = strings(&["/p/packages/w/index.ts"]);
    let page = generate_dev_index_ts("/p", &gh, &src, &pkg);
    let scripts = [
        "/glasshouse/glasshouse.js",
        "/glasshouse/dom.js",
        "/glasshouse/alpha.js",
        "/glasshouse/zeta.js",
        "/src/a.tsx",
        "/src/b.ts",
        "/packages/w/index.ts",
    ];
    let mut expected = DEV_INDEX_HEAD.to_string();
    for s in scripts {
        expected.push_str(&format!("  <script src=\"{}\"></script>\n", s));
    }
    expected.push_str(RELOAD_SCRIPT);
    expected.push_str(DEV_INDEX_TAIL);
    assert_eq!(page, expected);
    let none = generate_dev_index_ts("/p", &None, &[], &[]);
    assert_eq!(none, format!("{}{}{}", DEV_INDEX_HEAD, RELOAD_SCRIPT, DEV_INDEX_TAIL));
}

#[test]
fn object_answer_with_wide_char_at_cut_point() {
    let js = format!("{}{}", "x".repeat(177), "é".repeat(10));
    let out = format!("{{\"success\":true,\"js\":\"{}\"}}", js);
    assert!(!out.is_char_boundary(200));
    assert!(answer_readable(&out));
    let bytewise = |t: &str| t.bytes().map(|b| b as char).collect::<String>();
    assert_eq!(compile_result(&out), Ok(bytewise(&js)));
    let js2 = format!("{}{}", "x".repeat(176), "é".repeat(10));
    let warn = format!("{{\"success\":false,\"js\":\"{}\",\"diagnostics\":[{{\"message\":\"w\"}}]}}", js2);
    assert!(!warn.is_char_boundary(200));
    assert!(answer_readable(&warn));
    assert_eq!(compile_result(&warn), Ok(format!("console.warn('TS warnings:');\n{}", bytewise(&js2))));
}

#[test]
fn answer_readable_cases() {
    assert!(answer_readable("{\"success\":true}"));
    assert!(answer_readable("not json at all"));
    let bad = format!("{}{}", "x".repeat(199), "é");
    assert!(!answer_readable(&bad));
    assert!(answer_readable(&format!("{}{}", "x".repeat(200), "é")));
}
