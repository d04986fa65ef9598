use lib::audit::{audit_report, count_ts_files, AuditFile, AuditInput, PackageDir};

fn strings(v: &[&str]) -> Vec<String> {
    v.iter().map(|s| s.to_string()).collect()
}

fn file(path: &str, content: &str, size: u64) -> AuditFile {
    AuditFile { path: path.to_string(), content: Some(content.to_string()), size: Some(size) }
}

fn input(deep: bool, fix: bool) -> AuditInput {
    AuditInput {
        root: "/p".to_string(),
        deep,
        fix,
        has_glasshouse: true,
        has_packages: true,
        has_src: true,
        has_styles: true,
        has_index: true,
        code_files: strings(&["/p/src/a.ts"]),
        files: vec![file("/p/src/a.ts", "'use strict';\nlet x: any = 1;", 30)],
        packages: None,
        qjs: None,
    }
}

#[test]
fn quick_audit_with_a_warning() {
    let (lines, writes) = audit_report(&input(false, false));
    assert_eq!(
        lines,
        strings(&[
            "⚑ Quick Audit (use --deep for full)\n",
            "  [Structure]",
            "    ✓ OK",
            "  [TypeScript]",
            "    ✓ 1 TypeScript file(s) found, no forbidden .js files",
            "  [Security]",
            "    ⚠ /p/src/a.ts: uses 'any' type",
            "\n  0 error(s), 1 warning(s)",
            "  Audit PASSED (warnings)",
        ])
    );
    assert!(writes.is_empty());
}

#[test]
fn clean_audit() {
    let mut i = input(false, false);
    i.files = vec![file("/p/src/a.ts", "\"use strict\";\nlet x = 1;", 20)];
    let (lines, _) = audit_report(&i);
    assert_eq!(
        lines,
        strings(&[
            "⚑ Quick Audit (use --deep for full)\n",
            "  [Structure]",
            "    ✓ OK",
            "  [TypeScript]",
            "    ✓ 1 TypeScript file(s) found, no forbidden .js files",
            "  [Security]",
            "    ✓ No issues",
            "\n  ✓ Clean audit.",
        ])
    );
}

#[test]
fn missing_dirs_and_forbidden_js() {
    let mut i = input(false, false);
    i.has_styles = false;
    i.has_index = false;
    i.code_files = strings(&["/p/src/old.js"]);
    i.files = vec![file("/p/src/old.js", "eval(x); document.write(y); new Function(z)", 50)];
    let (lines, _) = audit_report(&i);
    assert_eq!(
        lines,
        strings(&[
            "⚑ Quick Audit (use --deep for full)\n",
            "  [Structure]",
            "    ✗ Missing: styles",
            "    ✗ Missing: index.html",
            "  [TypeScript]",
            "    ✗ src/old.js: .js files not allowed — use TypeScript (.ts/.tsx)",
            "  [Security]",
            "    ✗ /p/src/old.js: eval()",
            "    ✗ /p/src/old.js: document.write()",
            "    ⚠ /p/src/old.js: missing strict mode",
            "    ✗ /p/src/old.js: new Function()",
            "\n  6 error(s), 1 warning(s)",
            "  Audit FAILED",
        ])
    );
}

#[test]
fn deep_audit_sections() {
    let mut i = input(true, false);
    i.code_files = strings(&["/p/src/a.ts", "/p/packages/w/index.js"]);
    i.files = vec![
        file("/p/src/a.ts", "'use strict';\nnew Pebble({ propTypes: {} }); handler(x)", 100),
        file("/p/src/b.ts", "'use strict';\nPebble({})", 50000),
        AuditFile { path: "/p/src/c.ts".to_string(), content: None, size: None },
    ];
    i.packages = Some(vec![
        PackageDir { name: "w".to_string(), has_manifest: false, files: strings(&["/p/packages/w/index.js"]) },
        PackageDir { name: "t".to_string(), has_manifest: true, files: strings(&["/p/packages/t/index.ts"]) },
    ]);
    i.qjs = Some(Err("not found".to_string()));
    let (lines, _) = audit_report(&i);
    assert_eq!(
        lines,
        strings(&[
            "⚑ Deep Audit\n",
            "  [Structure]",
            "    ✓ OK",
            "  [TypeScript]",
            "    ✗ packages/w/index.js: .js files not allowed — use TypeScript (.ts/.tsx)",
            "  [Security]",
            "  [Type Safety]",
            "    2 pebbles, 1 with propTypes (50%)",
            "  [Handlers]",
            "    1 handlers",
            "  [Packages]",
            "    ⚠ 'w' missing package.json",
            "    ⚠ 'w' uses JavaScript — consider migrating to TypeScript (.ts/.tsx)",
            "  [Size]",
            "    ✗ /p/src/b.ts exceeds 40960B",
            "    Total: 48.9KB",
            "  [TypeScript Compilation]",
            "    1 TypeScript file(s) in src/ and packages/",
            "    ⚠ QuickJS not available: not found",
            "\n  3 error(s), 3 warning(s)",
            "  Audit FAILED",
        ])
    );
}

#[test]
fn deep_audit_without_packages_or_ts() {
    let mut i = input(true, false);
    i.code_files = Vec::new();
    i.files = Vec::new();
    i.packages = Some(Vec::new());
    let (lines, _) = audit_report(&i);
    assert_eq!(
        lines,
        strings(&[
            "⚑ Deep Audit\n",
            "  [Structure]",
            "    ✓ OK",
            "  [TypeScript]",
            "    ✓ No forbidden .js files found",
            "  [Security]",
            "    ✓ No issues",
            "  [Type Safety]",
            "    No pebbles found",
            "  [Handlers]",
            "    0 handlers",
            "  [Packages]",
            "    No packages installed",
            "  [Size]",
            "    Total: 0B",
            "  [TypeScript Compilation]",
            "    No TypeScript files found (consider using .ts/.tsx)",
            "\n  ✓ Clean audit.",
        ])
    );
}

#[test]
fn fix_adds_strict_mode() {
    let mut i = input(false, true);
    i.files = vec![
        file("/p/src/a.ts", "let a = 1;", 10),
        file("/p/src/b.ts", "'use strict';\nlet b = 1;", 24),
        file("/p/styles/main.css", "body{}", 6),
    ];
    let (lines, writes) = audit_report(&i);
    assert_eq!(writes, vec![("/p/src/a.ts".to_string(), "'use strict';\nlet a = 1;".to_string())]);
    assert_eq!(lines[0], "⚑ Audit --fix\n");
    let n = lines.len();
    assert_eq!(lines[n - 4], "\n  [Fix]");
    assert_eq!(lines[n - 3], "    ↻ Added strict mode to /p/src/a.ts");
    assert_eq!(lines[n - 2], "\n  0 error(s), 1 warning(s)");
    assert_eq!(lines[n - 1], "  Audit PASSED (warnings)");
}

#[test]
fn ts_file_count() {
    assert_eq!(count_ts_files(&strings(&["a.ts", "b.tsx", "c.js", "d.d.ts", "ts"])), 3);
    assert_eq!(count_ts_files(&[]), 0);
}
