//! What the audit's report promises of every project.

use vstd::prelude::*;
use crate::text::contains;
use crate::test_runner::is_script;
use crate::audit::{
    Tally, InputView, FileView, PackageView, audit_spec, with_line, with_issue, with_warning, file_security,
    security_fold, security_section, type_safety_section, handlers_section, packages_section, packages_fold,
    package_check, size_section, size_fold, compile_section, fix_section, summary_section, structure_section,
    ts_section,
};

verus! {

/// `b` holds every line of `a`, in order at its start, and counts no fewer
/// errors or warnings.
pub open spec fn grows(a: Tally, b: Tally) -> bool {
    a.lines.len() <= b.lines.len() && b.lines.subrange(0, a.lines.len() as int) == a.lines && a.issues <= b.issues
        && a.warnings <= b.warnings
}

proof fn lemma_grows_refl(a: Tally)
    ensures
        grows(a, a),
{
    assert(a.lines.subrange(0, a.lines.len() as int) =~= a.lines);
}

proof fn lemma_grows_trans(a: Tally, b: Tally, c: Tally)
    requires
        grows(a, b),
        grows(b, c),
    ensures
        grows(a, c),
{
    assert(c.lines.subrange(0, a.lines.len() as int) =~= c.lines.subrange(0, b.lines.len() as int).subrange(
        0,
        a.lines.len() as int,
    ));
}

proof fn lemma_grows_keeps(a: Tally, b: Tally, l: Seq<char>)
    requires
        grows(a, b),
        a.lines.contains(l),
    ensures
        b.lines.contains(l),
{
    let k = choose|k: int| 0 <= k < a.lines.len() && a.lines[k] == l;
    assert(b.lines.subrange(0, a.lines.len() as int)[k] == b.lines[k]);
}

proof fn lemma_with(t: Tally, l: Seq<char>)
    ensures
        grows(t, with_line(t, l)),
        grows(t, with_issue(t, l)),
        grows(t, with_warning(t, l)),
        with_warning(t, l).lines.contains(l),
        with_warning(t, l).warnings == t.warnings + 1,
{
    assert(t.lines.push(l).subrange(0, t.lines.len() as int) =~= t.lines);
    assert(t.lines.push(l)[t.lines.len() as int] == l);
}

proof fn lemma_file_security_grows(p: Seq<char>, c: Seq<char>, t: Tally)
    ensures
        grows(t, file_security(p, c, t)),
        contains(c, "innerHTML"@) && contains(c, "="@) ==> file_security(p, c, t).lines.contains(
            "    ⚠ "@ + p + ": innerHTML="@,
        ) && file_security(p, c, t).warnings >= t.warnings + 1,
{
    let l1 = "    ✗ "@ + p + ": eval()"@;
    let t1 = if contains(c, "eval("@) { with_issue(t, l1) } else { t };
    let l2 = "    ✗ "@ + p + ": document.write()"@;
    let t2 = if contains(c, "document.write("@) { with_issue(t1, l2) } else { t1 };
    let l3 = "    ⚠ "@ + p + ": innerHTML="@;
    let hit = contains(c, "innerHTML"@) && contains(c, "="@);
    let t3 = if hit { with_warning(t2, l3) } else { t2 };
    let l4 = "    ⚠ "@ + p + ": missing strict mode"@;
    let t4 = if !crate::audit::is_strict(c) { with_warning(t3, l4) } else { t3 };
    let l5 = "    ✗ "@ + p + ": new Function()"@;
    let t5 = if contains(c, "new Function("@) { with_issue(t4, l5) } else { t4 };
    let l6 = "    ⚠ "@ + p + ": uses 'any' type"@;
    let t6 = if crate::lint::is_ts(p) && (contains(c, " as any"@) || contains(c, ": any"@)) {
        with_warning(t5, l6)
    } else {
        t5
    };
    assert(t6 == file_security(p, c, t));
    lemma_grows_refl(t);
    lemma_grows_refl(t1);
    lemma_grows_refl(t2);
    lemma_grows_refl(t3);
    lemma_grows_refl(t4);
    lemma_grows_refl(t5);
    lemma_with(t, l1);
    lemma_with(t1, l2);
    lemma_with(t2, l3);
    lemma_with(t3, l4);
    lemma_with(t4, l5);
    lemma_with(t5, l6);
    lemma_grows_trans(t, t1, t2);
    lemma_grows_trans(t, t2, t3);
    lemma_grows_trans(t3, t4, t5);
    lemma_grows_trans(t3, t5, t6);
    lemma_grows_trans(t, t3, t6);
    if hit {
        lemma_grows_keeps(t3, t6, l3);
    }
}

/// Whether the file `f` is a readable script whose text assigns `innerHTML`
/// (holds both `innerHTML` and `=`).
pub open spec fn sets_inner_html(f: FileView) -> bool {
    is_script(f.path) && match f.content {
        Some(c) => contains(c, "innerHTML"@) && contains(c, "="@),
        None => false,
    }
}

proof fn lemma_security_fold(fs: Seq<FileView>, t: Tally, j: int)
    ensures
        grows(t, security_fold(fs, t)),
        0 <= j < fs.len() && sets_inner_html(fs[j]) ==> security_fold(fs, t).lines.contains(
            "    ⚠ "@ + fs[j].path + ": innerHTML="@,
        ) && security_fold(fs, t).warnings >= t.warnings + 1,
    decreases fs.len(),
{
    if fs.len() == 0 {
        lemma_grows_refl(t);
    } else {
        let r = security_fold(fs.drop_last(), t);
        lemma_security_fold(fs.drop_last(), t, j);
        let f = fs.last();
        let out = security_fold(fs, t);
        match f.content {
            Some(c) => if is_script(f.path) {
                lemma_file_security_grows(f.path, c, r);
                lemma_grows_trans(t, r, out);
            } else {
                lemma_grows_refl(r);
            },
            None => {
                lemma_grows_refl(r);
            },
        }
        if 0 <= j < fs.len() && sets_inner_html(fs[j]) {
            if j < fs.len() - 1 {
                assert(fs.drop_last()[j] == fs[j]);
                lemma_grows_keeps(r, out, "    ⚠ "@ + fs[j].path + ": innerHTML="@);
            }
        }
    }
}

proof fn lemma_packages_fold(ps: Seq<PackageView>, t: Tally)
    ensures
        grows(t, packages_fold(ps, t).0),
    decreases ps.len(),
{
    if ps.len() == 0 {
        lemma_grows_refl(t);
    } else {
        lemma_packages_fold(ps.drop_last(), t);
        let r = packages_fold(ps.drop_last(), t).0;
        let p = ps.last();
        let l1 = "    ⚠ '"@ + p.name + "' missing package.json"@;
        let t1 = if !p.has_manifest { with_warning(r, l1) } else { r };
        lemma_with(r, l1);
        lemma_grows_refl(r);
        let l2 = "    ⚠ '"@ + p.name + "' uses JavaScript — consider migrating to TypeScript (.ts/.tsx)"@;
        lemma_with(t1, l2);
        lemma_grows_refl(t1);
        lemma_grows_trans(r, t1, package_check(p, r));
        lemma_grows_trans(t, r, package_check(p, r));
    }
}

proof fn lemma_size_fold(fs: Seq<FileView>, t: Tally)
    ensures
        grows(t, size_fold(fs, t)),
    decreases fs.len(),
{
    if fs.len() == 0 {
        lemma_grows_refl(t);
    } else {
        lemma_size_fold(fs.drop_last(), t);
        let r = size_fold(fs.drop_last(), t);
        let f = fs.last();
        let l = "    ✗ "@ + f.path + " exceeds 40960B"@;
        lemma_with(r, l);
        lemma_grows_refl(r);
        lemma_grows_trans(t, r, size_fold(fs, t));
    }
}

/// What the deep checks and the fix make of the report after the security
/// scan.
pub open spec fn after_security(i: InputView, t: Tally) -> Tally {
    let t2 = if i.deep {
        compile_section(i, size_section(i, packages_section(i, handlers_section(i, type_safety_section(i, t)))))
    } else {
        t
    };
    if i.fix {
        fix_section(i, t2)
    } else {
        t2
    }
}

/// The deep checks and the fix only add to what the security scan reported.
proof fn lemma_after_security(i: InputView, t: Tally)
    ensures
        grows(t, after_security(i, t)),
{
    lemma_grows_refl(t);
    // type safety
    let a0 = with_line(t, "  [Type Safety]"@);
    lemma_with(t, "  [Type Safety]"@);
    let ts = type_safety_section(i, t);
    let (p, w) = crate::audit::pebble_counts(i.files);
    if p > 0 {
        let pct = w * 100 / p;
        let l = "    "@ + crate::num::decimal(p) + " pebbles, "@ + crate::num::decimal(w) + " with propTypes ("@
            + crate::num::decimal(pct) + "%)"@;
        lemma_with(a0, l);
        let a1 = with_line(a0, l);
        lemma_grows_refl(a1);
        assert(ts.lines == a1.lines);
        assert(grows(a1, ts));
        lemma_grows_trans(a0, a1, ts);
    } else {
        lemma_with(a0, "    No pebbles found"@);
    }
    lemma_grows_trans(t, a0, ts);
    // handlers
    let h0 = with_line(ts, "  [Handlers]"@);
    lemma_with(ts, "  [Handlers]"@);
    let hs = handlers_section(i, ts);
    lemma_with(h0, "    "@ + crate::num::decimal(crate::audit::handler_count(i.files)) + " handlers"@);
    lemma_grows_trans(ts, h0, hs);
    // packages
    let k0 = with_line(hs, "  [Packages]"@);
    lemma_with(hs, "  [Packages]"@);
    let ks = packages_section(i, hs);
    match i.packages {
        Some(ps) => {
            lemma_packages_fold(ps, k0);
            let t2 = packages_fold(ps, k0).0;
            lemma_with(t2, "    No packages installed"@);
            lemma_grows_refl(t2);
            lemma_grows_trans(k0, t2, ks);
        },
        None => {
            lemma_grows_refl(k0);
        },
    }
    lemma_grows_trans(hs, k0, ks);
    // size
    let s0 = with_line(ks, "  [Size]"@);
    lemma_with(ks, "  [Size]"@);
    lemma_size_fold(i.files, s0);
    let s1 = size_fold(i.files, s0);
    let ss = size_section(i, ks);
    lemma_with(s1, "    Total: "@ + crate::utils::format_size_spec(crate::audit::script_bytes(i.files)));
    lemma_grows_trans(s0, s1, ss);
    lemma_grows_trans(ks, s0, ss);
    // compile
    let c0 = with_line(ss, "  [TypeScript Compilation]"@);
    lemma_with(ss, "  [TypeScript Compilation]"@);
    let cs = compile_section(i, ss);
    let n = crate::audit::ts_count(i.code_files);
    if n > 0 {
        let c1 = with_line(c0, "    "@ + crate::num::decimal(n) + " TypeScript file(s) in src/ and packages/"@);
        lemma_with(c0, "    "@ + crate::num::decimal(n) + " TypeScript file(s) in src/ and packages/"@);
        match i.qjs {
            Some(Err(e)) => lemma_with(c1, "    ⚠ QuickJS not available: "@ + e),
            _ => lemma_with(c1, "    ✓ QuickJS runtime available"@),
        }
        lemma_grows_trans(c0, c1, cs);
    } else {
        lemma_with(c0, "    No TypeScript files found (consider using .ts/.tsx)"@);
    }
    lemma_grows_trans(ss, c0, cs);
    lemma_grows_trans(t, ts, hs);
    lemma_grows_trans(t, hs, ks);
    lemma_grows_trans(t, ks, ss);
    lemma_grows_trans(t, ss, cs);
    let t2 = if i.deep { cs } else { t };
    // fix
    let f0 = with_line(t2, "\n  [Fix]"@);
    lemma_with(t2, "\n  [Fix]"@);
    let fs = fix_section(i, t2);
    assert(fs.lines.subrange(0, f0.lines.len() as int) =~= f0.lines);
    lemma_grows_trans(t2, f0, fs);
    lemma_grows_refl(t2);
    if i.fix {
        lemma_grows_trans(t, t2, fs);
    }
}

/// When a readable script under the root assigns `innerHTML`, the audit
/// reports it, `    ⚠ <path>: innerHTML=`, and counts it as a warning: the
/// report does not end as a clean audit, but with a verdict that is either
/// a failure or a pass with warnings.
pub proof fn law_audit_reports_inner_html(i: InputView, j: int)
    requires
        0 <= j < i.files.len(),
        sets_inner_html(i.files[j]),
    ensures
        audit_spec(i).lines.contains("    ⚠ "@ + i.files[j].path + ": innerHTML="@),
        audit_spec(i).lines.last() == "  Audit FAILED"@ || audit_spec(i).lines.last() == "  Audit PASSED (warnings)"@,
{
    let l = "    ⚠ "@ + i.files[j].path + ": innerHTML="@;
    let t0 = Tally { lines: seq![crate::audit::audit_header(i.deep, i.fix)], issues: 0, warnings: 0 };
    let t1 = ts_section(i, structure_section(i, t0));
    let s0 = with_line(t1, "  [Security]"@);
    lemma_security_fold(i.files, s0, j);
    let s1 = security_fold(i.files, s0);
    let ss = security_section(i, t1);
    lemma_with(s1, "    ✓ No issues"@);
    lemma_grows_refl(s1);
    lemma_grows_keeps(s1, ss, l);
    assert(ss.warnings >= 1);
    lemma_after_security(i, ss);
    let t3 = after_security(i, ss);
    lemma_grows_keeps(ss, t3, l);
    assert(t3.warnings >= 1);
    let out = summary_section(t3);
    assert(out == audit_spec(i));
    let cnt = "\n  "@ + crate::num::decimal(t3.issues) + " error(s), "@ + crate::num::decimal(t3.warnings)
        + " warning(s)"@;
    let u1 = with_line(t3, cnt);
    lemma_with(t3, cnt);
    lemma_grows_keeps(t3, u1, l);
    let v = if t3.issues > 0 { "  Audit FAILED"@ } else { "  Audit PASSED (warnings)"@ };
    lemma_with(u1, v);
    lemma_grows_keeps(u1, out, l);
    assert(out.lines == t3.lines.push(cnt).push(v));
}

} // verus!
