use lib::lint::{
    forbidden_js, lint_files, lint_fix, lint_report, lint_result, lint_runner_code, parse_lint_flags, parse_lint_json, LintFlags,
    LintResult, LintViolation,
};

fn args(v: &[&str]) -> Vec<String> {
    v.iter().map(|s| s.to_string()).collect()
}

fn strs(v: &[&str]) -> Vec<String> {
    args(v)
}

fn viol(file: &str, line: u32, col: u32, sev: &str, rule: &str, msg: &str) -> LintViolation {
    LintViolation {
        file: file.to_string(),
        line,
        col,
        severity: sev.to_string(),
        rule: rule.to_string(),
        message: msg.to_string(),
    }
}

#[test]
fn lint_flags() {
    let f = parse_lint_flags(&args(&["glas", "lint", "-r", "--json"]));
    assert!(f.realtime && f.json && !f.fix && !f.strict);
    let f = parse_lint_flags(&args(&["glas", "lint", "--fix", "--strict"]));
    assert!(!f.realtime && !f.json && f.fix && f.strict);
    let d = LintFlags::default();
    assert!(!d.realtime && !d.fix && !d.json && !d.strict);
}

#[test]
fn lint_json_blank_and_bad() {
    assert_eq!(parse_lint_json("").unwrap().len(), 0);
    assert_eq!(parse_lint_json("  [] \n").unwrap().len(), 0);
    assert!(parse_lint_json("nope").is_none());
    assert!(parse_lint_json("{}").is_none());
}

#[test]
fn lint_json_fields() {
    let out = "[{\"file\":\"src/a.ts\",\"line\":3,\"col\":7,\"severity\":\"error\",\"rule\":\"SECURITY\",\"message\":\"Uses forbidden eval()\"},5,{\"line\":-2,\"col\":4294967296.5,\"file\":7}]";
    let v = parse_lint_json(out).unwrap();
    assert_eq!(v.len(), 2);
    assert_eq!(v[0].file, "src/a.ts");
    assert_eq!((v[0].line, v[0].col), (3, 7));
    assert_eq!(v[0].severity, "error");
    assert_eq!(v[0].rule, "SECURITY");
    assert_eq!(v[0].message, "Uses forbidden eval()");
    assert_eq!(v[1].file, "");
    assert_eq!((v[1].line, v[1].col), (0, 4294967295));
    assert_eq!(v[1].severity, "");
}

#[test]
fn forbidden_js_files() {
    let v = forbidden_js(
        "/p",
        &strs(&["/p/src/a.js", "/p/src/b.ts", "/p/packages/x/.registry.json", "/p/src/c.json", "/p/packages/x/lib.js"]),
    );
    assert_eq!(v.len(), 2);
    assert_eq!(v[0].file, "src/a.js");
    assert_eq!(v[1].file, "packages/x/lib.js");
    assert_eq!(v[0].rule, "NO_JS_FILES");
    assert_eq!(v[0].severity, "error");
    assert_eq!(v[0].message, "JavaScript files not allowed in user codebase. Use TypeScript (.ts/.tsx).");
}

#[test]
fn lint_files_sorted_ts_only() {
    let v = lint_files(&strs(&["/p/src/b.ts", "/p/src/a.tsx", "/p/src/c.js", "/p/packages/z/i.ts", "/p/src/a/z.ts"]));
    assert_eq!(v, strs(&["/p/packages/z/i.ts", "/p/src/a/z.ts", "/p/src/a.tsx", "/p/src/b.ts"]));
}

#[test]
fn lint_result_counts() {
    let js = vec![viol("src/a.js", 0, 0, "error", "NO_JS_FILES", "m")];
    let out = "[{\"file\":\"src/b.ts\",\"severity\":\"warning\",\"rule\":\"STRICT_MODE\",\"message\":\"w\"},{\"file\":\"src/b.ts\",\"severity\":\"error\",\"rule\":\"SECURITY\",\"message\":\"e\"}]";
    let r = lint_result(js, Some(Ok(out.to_string())));
    assert_eq!(r.violations.len(), 3);
    assert_eq!((r.errors, r.warnings), (2, 1));
    let r = lint_result(vec![], Some(Err("boom".to_string())));
    assert_eq!(r.violations.len(), 1);
    assert_eq!(r.violations[0].file, "(lint runner)");
    assert_eq!(r.violations[0].rule, "RUNNER");
    assert_eq!(r.violations[0].message, "Lint runner failed: boom");
    assert_eq!((r.errors, r.warnings), (1, 0));
    let r = lint_result(vec![viol("x", 0, 0, "warning", "R", "m")], None);
    assert_eq!((r.errors, r.warnings), (0, 1));
    let r = lint_result(vec![], Some(Ok("garbage".to_string())));
    assert_eq!(r.violations.len(), 0);
}

#[test]
fn lint_report_grouped() {
    let r = LintResult {
        violations: vec![
            viol("src/z.ts", 0, 0, "warning", "STRICT_MODE", "Missing \"use strict\" directive"),
            viol("src/a.ts", 4, 2, "error", "SECURITY", "Uses forbidden eval()"),
            viol("src/z.ts", 1, 1, "error", "TYPE_ANY", "x"),
        ],
        errors: 2,
        warnings: 1,
    };
    let flags = LintFlags { realtime: false, fix: false, json: false, strict: false };
    let lines = lint_report(&r, &flags);
    assert_eq!(
        lines,
        strs(&[
            "⚑ Lint: 3 issue(s) found (2 errors, 1 warnings)",
            "",
            "  src/a.ts",
            "    ✗ 4:2 [SECURITY] Uses forbidden eval()",
            "",
            "  src/z.ts",
            "    ⚠ - [STRICT_MODE] Missing \"use strict\" directive",
            "    ✗ 1:1 [TYPE_ANY] x",
            "",
            "  Lint FAILED (2 errors, 1 warning)",
        ])
    );
}

#[test]
fn lint_report_clean_and_strict() {
    let empty = LintResult { violations: vec![], errors: 0, warnings: 0 };
    let flags = LintFlags { realtime: false, fix: false, json: false, strict: false };
    assert_eq!(lint_report(&empty, &flags), strs(&["✓ No issues found."]));
    let warn = LintResult { violations: vec![viol("a.ts", 0, 0, "warning", "R", "m")], errors: 0, warnings: 1 };
    let lines = lint_report(&warn, &flags);
    assert_eq!(lines.len(), 5);
    let strict = LintFlags { realtime: false, fix: false, json: false, strict: true };
    let lines = lint_report(&warn, &strict);
    assert_eq!(lines.last().unwrap(), "  Lint FAILED (0 errors, 1 warning)");
}

#[test]
fn lint_report_json() {
    let r = LintResult { violations: vec![viol("a\\b\".ts", 2, 3, "error", "R", "say \"hi\"")], errors: 1, warnings: 0 };
    let flags = LintFlags { realtime: false, fix: false, json: true, strict: false };
    assert_eq!(
        lint_report(&r, &flags),
        strs(&["[{\"file\":\"a\\\\b\\\".ts\",\"line\":2,\"col\":3,\"severity\":\"error\",\"rule\":\"R\",\"message\":\"say \\\"hi\\\"\"}]"])
    );
    let empty = LintResult { violations: vec![], errors: 0, warnings: 0 };
    assert_eq!(lint_report(&empty, &flags), strs(&["[]"]));
}

#[test]
fn lint_runner_program() {
    let files = vec![("/p/src/a.ts".to_string(), "let s = \"x\";\n".to_string())];
    let code = lint_runner_code("/p", &files, true);
    assert!(code.starts_with("\n// Lint runner for GlassHouse CLI\nvar sources = [{\"file\":\"src/a.ts\",\"source\":\"let s = \\\"x\\\";\\n\"}];\nvar strictMode = true;\n"));
    assert!(code.ends_with("var out = JSON.stringify(allViolations);\nprint(out);\n"));
    let code = lint_runner_code("/p", &[], false);
    assert!(code.contains("var sources = [];\nvar strictMode = false;"));
}

#[test]
fn lint_fix_adds_strict_mode() {
    let files = vec![
        ("/p/src/a.ts".to_string(), "let a = 1;\n".to_string()),
        ("/p/src/b.ts".to_string(), "'use strict';\nlet b = 2;\n".to_string()),
        ("/p/src/c.ts".to_string(), "\"use strict\";\n".to_string()),
        ("/p/src/d.ts".to_string(), "".to_string()),
    ];
    let (writes, lines) = lint_fix("/p", &files);
    assert_eq!(
        writes,
        vec![
            ("/p/src/a.ts".to_string(), "'use strict';\nlet a = 1;\n".to_string()),
            ("/p/src/d.ts".to_string(), "'use strict';\n".to_string()),
        ]
    );
    assert_eq!(lines, strs(&["↻ Added strict mode to src/a.ts", "↻ Added strict mode to src/d.ts"]));
    let (again, none) = lint_fix("/p", &writes);
    assert!(again.is_empty());
    assert!(none.is_empty());
}
