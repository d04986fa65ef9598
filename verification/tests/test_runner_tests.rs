use lib::test_runner::{
    nothing_to_test, parse_test_flags, parse_test_output, test_files, test_outcome, test_report, test_runner_code,
    watch_files, TestEntry, TestFailure, TestFlags, TestResult,
};

fn strs(v: &[&str]) -> Vec<String> {
    v.iter().map(|s| s.to_string()).collect()
}

#[test]
fn test_flags() {
    let f = parse_test_flags(&strs(&["glas", "test", "--filter", "a", "-v", "--filter", "b"]));
    assert_eq!(f.filter.as_deref(), Some("b"));
    assert!(f.verbose && !f.json && !f.watch);
    let f = parse_test_flags(&strs(&["glas", "test", "--json", "--watch", "--filter"]));
    assert!(f.filter.is_none() && f.json && f.watch);
    let d = TestFlags::default();
    assert!(d.filter.is_none() && !d.verbose && !d.json && !d.watch);
}

const OUT: &str = "log line\n__GLAS_TEST_RESULTS__\n{\"pass\":2,\"fail\":1,\"skip\":0,\"tests\":[{\"name\":\"a\",\"status\":\"pass\",\"duration\":3,\"error\":null},{\"name\":\"b\",\"status\":\"fail\",\"duration\":1.50,\"error\":\"boom\"}],\"totalTime\":12}\n__GLAS_END__\n";

#[test]
fn output_with_results() {
    let r = parse_test_output(OUT);
    assert_eq!((r.pass, r.fail, r.skip), (2, 1, 0));
    assert_eq!(r.tests.len(), 2);
    assert_eq!(r.tests[0].name, "a");
    assert_eq!(r.tests[0].error, "");
    assert_eq!(r.tests[1].duration, "1.50");
    assert_eq!(r.failures.len(), 1);
    assert_eq!(r.failures[0].name, "b");
    assert_eq!(r.failures[0].error, "boom");
    assert_eq!(r.total_time, "12");
}

#[test]
fn output_without_results() {
    let r = parse_test_output("  SyntaxError: x\n");
    assert_eq!((r.pass, r.fail, r.skip), (0, 1, 0));
    assert_eq!(r.failures.len(), 1);
    assert_eq!(r.failures[0].name, "(runner output)");
    assert_eq!(r.failures[0].error, "SyntaxError: x");
    assert_eq!(r.total_time, "0");
    // markers without an end
    let r = parse_test_output("__GLAS_TEST_RESULTS__ {\"pass\":3}");
    assert_eq!(r.fail, 1);
}

#[test]
fn outcome_of_runner_error() {
    let r = test_outcome(Err("no qjs".to_string()));
    assert_eq!((r.pass, r.fail, r.skip), (0, 1, 0));
    assert_eq!(r.failures[0].name, "(runner)");
    assert_eq!(r.failures[0].error, "no qjs");
    let r = test_outcome(Ok(OUT.to_string()));
    assert_eq!(r.pass, 2);
}

#[test]
fn report_lines() {
    let r = parse_test_output(OUT);
    assert_eq!(
        test_report(&r, false),
        strs(&["", "✗ 3 test(s): 2 passed, 1 failed, 0 skipped (12ms)", "", "  ✗ b", "    boom", ""])
    );
    assert_eq!(
        test_report(&r, true),
        strs(&["{\"pass\":2,\"fail\":1,\"skip\":0,\"totalTime\":12,\"tests\":[{\"name\":\"a\",\"status\":\"pass\",\"duration\":3,\"error\":null},{\"name\":\"b\",\"status\":\"fail\",\"duration\":1.5,\"error\":\"boom\"}]}"])
    );
    let ok = TestResult::default();
    assert_eq!(test_report(&ok, false), strs(&["", "✓ 0 test(s): 0 passed, 0 failed, 0 skipped (0ms)", ""]));
}

fn with_total(t: &str) -> String {
    let r = TestResult { pass: 1, fail: 0, skip: 0, tests: vec![], failures: vec![], total_time: t.to_string() };
    test_report(&r, false)[1].clone()
}

#[test]
fn total_time_rounds_as_float_formatting() {
    for t in ["2.5", "3.5", "0.5", "1.49", "99.5", "9.9999", "007", "12", "0", "1.5", "2.51", "-0.4", "-2.5", "-3.5", "10.05"] {
        let x: f64 = t.parse().unwrap();
        assert_eq!(with_total(t), format!("✓ 1 test(s): 1 passed, 0 failed, 0 skipped ({:.0}ms)", x), "total {}", t);
    }
}

#[test]
fn durations_written_as_float_display() {
    for d in ["1.50", "-0", "3.0", "0.25", "100", "-1.5", "0.0"] {
        let r = TestResult {
            pass: 1,
            fail: 0,
            skip: 0,
            tests: vec![TestEntry { name: "n".into(), status: "pass".into(), error: "".into(), duration: d.into() }],
            failures: vec![],
            total_time: d.to_string(),
        };
        let x: f64 = d.parse().unwrap();
        let expected = format!(
            "{{\"pass\":1,\"fail\":0,\"skip\":0,\"totalTime\":{},\"tests\":[{{\"name\":\"n\",\"status\":\"pass\",\"duration\":{},\"error\":null}}]}}",
            x, x
        );
        assert_eq!(test_report(&r, true), vec![expected], "duration {}", d);
    }
}

#[test]
fn failure_of_whole_run_reported() {
    let r = TestResult {
        pass: 0,
        fail: 1,
        skip: 0,
        tests: vec![],
        failures: vec![TestFailure { name: "(runner)".into(), error: "x".into(), duration: "0".into() }],
        total_time: "0".into(),
    };
    assert_eq!(test_report(&r, false), strs(&["", "✗ 1 test(s): 0 passed, 1 failed, 0 skipped (0ms)", "", "  ✗ (runner)", "    x", ""]));
}

#[test]
fn files_to_test_and_watch() {
    let found = strs(&["/p/tests/b.ts", "/p/tests/a.js", "/p/tests/x.json", "/p/tests/c.tsx"]);
    assert_eq!(test_files(&found), strs(&["/p/tests/a.js", "/p/tests/b.ts", "/p/tests/c.tsx"]));
    assert_eq!(watch_files(&found), strs(&["/p/tests/b.ts", "/p/tests/a.js", "/p/tests/c.tsx"]));
}

#[test]
fn nothing_to_test_messages() {
    assert_eq!(nothing_to_test(true, false), "{\"pass\":0,\"fail\":0,\"skip\":0,\"tests\":[]}");
    assert_eq!(nothing_to_test(false, false), "No tests/ directory found. Create tests/*.js or tests/*.ts files.");
    assert_eq!(nothing_to_test(false, true), "No test files found in tests/");
}

#[test]
fn test_runner_program() {
    let files = vec![("/p/tests/a.js".to_string(), "test('x', function(){});".to_string())];
    let code = test_runner_code("/p", &files, &Some("say \"x\"".to_string()), true, false);
    assert!(code.starts_with("\n// Test runner for GlassHouse CLI\nvar testFiles = [{\"file\":\"tests/a.js\",\"source\":\"test('x', function(){});\"}];\nvar filterPattern = \"say \\\"x\\\"\";\nvar verbose = true;\nvar hasTestRunner = false;\n"));
    assert!(code.ends_with("print('__GLAS_END__');\n"));
    let code = test_runner_code("/p", &[], &None, false, true);
    assert!(code.contains("var filterPattern = null;\nvar verbose = false;\nvar hasTestRunner = true;"));
}
