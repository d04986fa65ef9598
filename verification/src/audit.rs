//! The audit command: project structure, TypeScript compliance, a security
//! scan, the deep checks and the strict-mode fix, computed from a snapshot
//! of the project's files.

use vstd::prelude::*;
use crate::text::{contains, find_chars, to_chars, push_str, str_eq, views};
use crate::num::{decimal, push_decimal};
use crate::path::{extension_spec, rel_path, rel_path_of, ext_is};
use crate::lint::{is_forbidden_js, is_ts, forbidden_js, vviews, forbidden_js_spec};
use crate::test_runner::is_script;
use crate::utils::{format_size_spec, format_size};

verus! {

/// A file found under the project root: its path, its text when it could
/// be read, and its size when it could be read.
pub struct AuditFile {
    pub path: String,
    pub content: Option<String>,
    pub size: Option<u64>,
}

/// A directory under `packages/`: its name, whether it holds a
/// `package.json`, and the files found in it.
pub struct PackageDir {
    pub name: String,
    pub has_manifest: bool,
    pub files: Vec<String>,
}

/// What the audit looks at.
pub struct AuditInput {
    /// The project root as it is printed.
    pub root: String,
    pub deep: bool,
    pub fix: bool,
    pub has_glasshouse: bool,
    pub has_packages: bool,
    pub has_src: bool,
    pub has_styles: bool,
    pub has_index: bool,
    /// The files found under `src/`, then those under `packages/`.
    pub code_files: Vec<String>,
    /// The files found under the project root.
    pub files: Vec<AuditFile>,
    /// The directories of `packages/`, or `None` when it cannot be listed.
    pub packages: Option<Vec<PackageDir>>,
    /// Whether the QuickJS runtime answered, where the deep audit asks.
    pub qjs: Option<Result<(), String>>,
}

pub struct FileView {
    pub path: Seq<char>,
    pub content: Option<Seq<char>>,
    pub size: Option<u64>,
}

pub struct PackageView {
    pub name: Seq<char>,
    pub has_manifest: bool,
    pub files: Seq<Seq<char>>,
}

pub struct InputView {
    pub root: Seq<char>,
    pub deep: bool,
    pub fix: bool,
    pub has_glasshouse: bool,
    pub has_packages: bool,
    pub has_src: bool,
    pub has_styles: bool,
    pub has_index: bool,
    pub code_files: Seq<Seq<char>>,
    pub files: Seq<FileView>,
    pub packages: Option<Seq<PackageView>>,
    pub qjs: Option<Result<(), Seq<char>>>,
}

impl View for AuditFile {
    type V = FileView;

    open spec fn view(&self) -> FileView {
        FileView { path: self.path@, content: crate::utils::opt_view(self.content), size: self.size }
    }
}

impl View for PackageDir {
    type V = PackageView;

    open spec fn view(&self) -> PackageView {
        PackageView { name: self.name@, has_manifest: self.has_manifest, files: views(self.files@) }
    }
}

pub open spec fn file_views(v: Seq<AuditFile>) -> Seq<FileView> {
    v.map_values(|f: AuditFile| f@)
}

pub open spec fn package_views(v: Seq<PackageDir>) -> Seq<PackageView> {
    v.map_values(|p: PackageDir| p@)
}

impl View for AuditInput {
    type V = InputView;

    open spec fn view(&self) -> InputView {
        InputView {
            root: self.root@,
            deep: self.deep,
            fix: self.fix,
            has_glasshouse: self.has_glasshouse,
            has_packages: self.has_packages,
            has_src: self.has_src,
            has_styles: self.has_styles,
            has_index: self.has_index,
            code_files: views(self.code_files@),
            files: file_views(self.files@),
            packages: match self.packages {
                Some(ps) => Some(package_views(ps@)),
                None => None,
            },
            qjs: match self.qjs {
                Some(Ok(())) => Some(Ok(())),
                Some(Err(e)) => Some(Err(e@)),
                None => None,
            },
        }
    }
}

/// The lines printed so far, and the errors and warnings counted so far.
pub struct Tally {
    pub lines: Seq<Seq<char>>,
    pub issues: nat,
    pub warnings: nat,
}

pub open spec fn with_line(t: Tally, l: Seq<char>) -> Tally {
    Tally { lines: t.lines.push(l), ..t }
}

pub open spec fn with_issue(t: Tally, l: Seq<char>) -> Tally {
    Tally { lines: t.lines.push(l), issues: t.issues + 1, ..t }
}

pub open spec fn with_warning(t: Tally, l: Seq<char>) -> Tally {
    Tally { lines: t.lines.push(l), warnings: t.warnings + 1, ..t }
}

/// The first line.
pub open spec fn audit_header(deep: bool, fix: bool) -> Seq<char> {
    if fix {
        "⚑ Audit --fix\n"@
    } else if deep {
        "⚑ Deep Audit\n"@
    } else {
        "⚑ Quick Audit (use --deep for full)\n"@
    }
}

pub open spec fn missing(t: Tally, present: bool, name: Seq<char>) -> Tally {
    if present {
        t
    } else {
        with_issue(t, "    ✗ Missing: "@ + name)
    }
}

/// The structure check: the four directories and `index.html`.
pub open spec fn structure_section(i: InputView, t: Tally) -> Tally {
    let t1 = with_line(t, "  [Structure]"@);
    let t2 = missing(t1, i.has_glasshouse, "glasshouse"@);
    let t3 = missing(t2, i.has_packages, "packages"@);
    let t4 = missing(t3, i.has_src, "src"@);
    let t5 = missing(t4, i.has_styles, "styles"@);
    let t6 = missing(t5, i.has_index, "index.html"@);
    if t6.issues == 0 {
        with_line(t6, "    ✓ OK"@)
    } else {
        t6
    }
}

/// One error for each forbidden JavaScript file.
pub open spec fn js_files_fold(root: Seq<char>, ps: Seq<Seq<char>>, t: Tally) -> Tally
    decreases ps.len(),
{
    if ps.len() == 0 {
        t
    } else {
        let r = js_files_fold(root, ps.drop_last(), t);
        if is_forbidden_js(ps.last()) {
            with_issue(r, "    ✗ "@ + rel_path(root, ps.last()) + ": .js files not allowed — use TypeScript (.ts/.tsx)"@)
        } else {
            r
        }
    }
}

/// How many of `ps` are TypeScript files.
pub open spec fn ts_count(ps: Seq<Seq<char>>) -> nat
    decreases ps.len(),
{
    if ps.len() == 0 {
        0
    } else {
        ts_count(ps.drop_last()) + if is_ts(ps.last()) { 1nat } else { 0nat }
    }
}

/// The TypeScript compliance check on the files of `src/` and `packages/`.
pub open spec fn ts_section(i: InputView, t: Tally) -> Tally {
    let t1 = with_line(t, "  [TypeScript]"@);
    let t2 = js_files_fold(i.root, i.code_files, t1);
    if t2.issues != t1.issues {
        t2
    } else if ts_count(i.code_files) > 0 {
        with_line(t2, "    ✓ "@ + decimal(ts_count(i.code_files)) + " TypeScript file(s) found, no forbidden .js files"@)
    } else {
        with_line(t2, "    ✓ No forbidden .js files found"@)
    }
}

/// Whether a text declares strict mode.
pub open spec fn is_strict(c: Seq<char>) -> bool {
    contains(c, "'use strict'"@) || contains(c, "\"use strict\""@)
}

/// The security findings for one readable script.
pub open spec fn file_security(p: Seq<char>, c: Seq<char>, t: Tally) -> Tally {
    let t1 = if contains(c, "eval("@) { with_issue(t, "    ✗ "@ + p + ": eval()"@) } else { t };
    let t2 = if contains(c, "document.write("@) {
        with_issue(t1, "    ✗ "@ + p + ": document.write()"@)
    } else {
        t1
    };
    let t3 = if contains(c, "innerHTML"@) && contains(c, "="@) {
        with_warning(t2, "    ⚠ "@ + p + ": innerHTML="@)
    } else {
        t2
    };
    let t4 = if !is_strict(c) { with_warning(t3, "    ⚠ "@ + p + ": missing strict mode"@) } else { t3 };
    let t5 = if contains(c, "new Function("@) {
        with_issue(t4, "    ✗ "@ + p + ": new Function()"@)
    } else {
        t4
    };
    if is_ts(p) && (contains(c, " as any"@) || contains(c, ": any"@)) {
        with_warning(t5, "    ⚠ "@ + p + ": uses 'any' type"@)
    } else {
        t5
    }
}

pub open spec fn security_fold(fs: Seq<FileView>, t: Tally) -> Tally
    decreases fs.len(),
{
    if fs.len() == 0 {
        t
    } else {
        let r = security_fold(fs.drop_last(), t);
        let f = fs.last();
        match f.content {
            Some(c) => if is_script(f.path) {
                file_security(f.path, c, r)
            } else {
                r
            },
            None => r,
        }
    }
}

/// The security scan of every readable script under the root.
pub open spec fn security_section(i: InputView, t: Tally) -> Tally {
    let t1 = security_fold(i.files, with_line(t, "  [Security]"@));
    if t1.issues == 0 && t1.warnings == 0 {
        with_line(t1, "    ✓ No issues"@)
    } else {
        t1
    }
}

/// Whether a text builds a Pebble.
pub open spec fn makes_pebble(c: Seq<char>) -> bool {
    contains(c, "new Pebble("@) || contains(c, "Pebble({"@)
}

/// How many readable scripts build a Pebble, and how many of those declare
/// `propTypes`.
pub open spec fn pebble_counts(fs: Seq<FileView>) -> (nat, nat)
    decreases fs.len(),
{
    if fs.len() == 0 {
        (0, 0)
    } else {
        let r = pebble_counts(fs.drop_last());
        let f = fs.last();
        match f.content {
            Some(c) => if is_script(f.path) && makes_pebble(c) {
                (r.0 + 1, r.1 + if contains(c, "propTypes"@) { 1nat } else { 0nat })
            } else {
                r
            },
            None => r,
        }
    }
}

/// How many readable scripts call a handler.
pub open spec fn handler_count(fs: Seq<FileView>) -> nat
    decreases fs.len(),
{
    if fs.len() == 0 {
        0
    } else {
        let f = fs.last();
        handler_count(fs.drop_last()) + match f.content {
            Some(c) => if is_script(f.path) && contains(c, "handler("@) { 1nat } else { 0nat },
            None => 0nat,
        }
    }
}

pub open spec fn type_safety_section(i: InputView, t: Tally) -> Tally {
    let t1 = with_line(t, "  [Type Safety]"@);
    let (p, w) = pebble_counts(i.files);
    if p > 0 {
        let pct = w * 100 / p;
        let t2 = with_line(
            t1,
            "    "@ + decimal(p) + " pebbles, "@ + decimal(w) + " with propTypes ("@ + decimal(pct) + "%)"@,
        );
        if pct < 100 {
            Tally { issues: t2.issues + 1, ..t2 }
        } else {
            t2
        }
    } else {
        with_line(t1, "    No pebbles found"@)
    }
}

pub open spec fn handlers_section(i: InputView, t: Tally) -> Tally {
    with_line(with_line(t, "  [Handlers]"@), "    "@ + decimal(handler_count(i.files)) + " handlers"@)
}

/// Whether some file has the extension `e`.
pub open spec fn any_ext(ps: Seq<Seq<char>>, e: Seq<char>) -> bool {
    exists|k: int| 0 <= k < ps.len() && extension_spec(#[trigger] ps[k]) == Some(e)
}

/// The warnings for one package directory.
pub open spec fn package_check(p: PackageView, t: Tally) -> Tally {
    let t1 = if !p.has_manifest { with_warning(t, "    ⚠ '"@ + p.name + "' missing package.json"@) } else { t };
    let has_ts = any_ext(p.files, "ts"@) || any_ext(p.files, "tsx"@);
    if any_ext(p.files, "js"@) && !has_ts {
        with_warning(
            t1,
            "    ⚠ '"@ + p.name + "' uses JavaScript — consider migrating to TypeScript (.ts/.tsx)"@,
        )
    } else {
        t1
    }
}

/// The package checks, and how many packages were looked at; names that
/// start with a dot are passed over.
pub open spec fn packages_fold(ps: Seq<PackageView>, t: Tally) -> (Tally, nat)
    decreases ps.len(),
{
    if ps.len() == 0 {
        (t, 0)
    } else {
        let (r, n) = packages_fold(ps.drop_last(), t);
        let p = ps.last();
        if p.name.len() > 0 && p.name[0] == '.' {
            (r, n)
        } else {
            (package_check(p, r), n + 1)
        }
    }
}

pub open spec fn packages_section(i: InputView, t: Tally) -> Tally {
    let t1 = with_line(t, "  [Packages]"@);
    match i.packages {
        Some(ps) => {
            let (t2, n) = packages_fold(ps, t1);
            if n == 0 {
                with_line(t2, "    No packages installed"@)
            } else {
                t2
            }
        },
        None => t1,
    }
}

/// An error for each script over 40960 bytes.
pub open spec fn size_fold(fs: Seq<FileView>, t: Tally) -> Tally
    decreases fs.len(),
{
    if fs.len() == 0 {
        t
    } else {
        let r = size_fold(fs.drop_last(), t);
        let f = fs.last();
        match f.size {
            Some(m) => if is_script(f.path) && m > 40960 {
                with_issue(r, "    ✗ "@ + f.path + " exceeds 40960B"@)
            } else {
                r
            },
            None => r,
        }
    }
}

/// The total size of the scripts whose size is known.
pub open spec fn script_bytes(fs: Seq<FileView>) -> nat
    decreases fs.len(),
{
    if fs.len() == 0 {
        0
    } else {
        let f = fs.last();
        script_bytes(fs.drop_last()) + match f.size {
            Some(m) => if is_script(f.path) { m as nat } else { 0nat },
            None => 0nat,
        }
    }
}

pub open spec fn size_section(i: InputView, t: Tally) -> Tally {
    let t1 = size_fold(i.files, with_line(t, "  [Size]"@));
    with_line(t1, "    Total: "@ + format_size_spec(script_bytes(i.files)))
}

pub open spec fn compile_section(i: InputView, t: Tally) -> Tally {
    let t1 = with_line(t, "  [TypeScript Compilation]"@);
    let n = ts_count(i.code_files);
    if n > 0 {
        let t2 = with_line(t1, "    "@ + decimal(n) + " TypeScript file(s) in src/ and packages/"@);
        match i.qjs {
            Some(Err(e)) => with_warning(t2, "    ⚠ QuickJS not available: "@ + e),
            _ => with_line(t2, "    ✓ QuickJS runtime available"@),
        }
    } else {
        with_line(t1, "    No TypeScript files found (consider using .ts/.tsx)"@)
    }
}

/// The scripts that lack strict mode, each with the text it gets: the
/// directive on a line of its own before the old text.
pub open spec fn fix_writes(fs: Seq<FileView>) -> Seq<(Seq<char>, Seq<char>)>
    decreases fs.len(),
{
    if fs.len() == 0 {
        Seq::empty()
    } else {
        let r = fix_writes(fs.drop_last());
        let f = fs.last();
        match f.content {
            Some(c) => if is_script(f.path) && !is_strict(c) {
                r.push((f.path, "'use strict';\n"@ + c))
            } else {
                r
            },
            None => r,
        }
    }
}

pub open spec fn fix_lines(ws: Seq<(Seq<char>, Seq<char>)>) -> Seq<Seq<char>> {
    ws.map_values(|w: (Seq<char>, Seq<char>)| "    ↻ Added strict mode to "@ + w.0)
}

pub open spec fn fix_section(i: InputView, t: Tally) -> Tally {
    let t1 = with_line(t, "\n  [Fix]"@);
    Tally { lines: t1.lines + fix_lines(fix_writes(i.files)), ..t1 }
}

pub open spec fn summary_section(t: Tally) -> Tally {
    if t.issues == 0 && t.warnings == 0 {
        with_line(t, "\n  ✓ Clean audit."@)
    } else {
        let t1 = with_line(t, "\n  "@ + decimal(t.issues) + " error(s), "@ + decimal(t.warnings) + " warning(s)"@);
        if t.issues > 0 {
            with_line(t1, "  Audit FAILED"@)
        } else {
            with_line(t1, "  Audit PASSED (warnings)"@)
        }
    }
}

/// Everything the audit prints, in order, with the counts.
pub open spec fn audit_spec(i: InputView) -> Tally {
    let t0 = Tally { lines: seq![audit_header(i.deep, i.fix)], issues: 0, warnings: 0 };
    let t1 = security_section(i, ts_section(i, structure_section(i, t0)));
    let t2 = if i.deep {
        compile_section(i, size_section(i, packages_section(i, handlers_section(i, type_safety_section(i, t1)))))
    } else {
        t1
    };
    let t3 = if i.fix { fix_section(i, t2) } else { t2 };
    summary_section(t3)
}


/// The lines printed so far, and the counts, as the audit runs.
struct Sink {
    lines: Vec<String>,
    issues: u64,
    warnings: u64,
}

impl Sink {
    spec fn tally(&self) -> Tally {
        Tally { lines: views(self.lines@), issues: self.issues as nat, warnings: self.warnings as nat }
    }

    spec fn inv(&self) -> bool {
        self.issues + self.warnings <= self.lines@.len()
    }

    fn line(&mut self, s: String)
        requires
            old(self).inv(),
        ensures
            final(self).inv(),
            final(self).tally() == with_line(old(self).tally(), s@),
    {
        let ghost before = self.lines@;
        self.lines.push(s);
        assert(views(self.lines@) =~= views(before).push(s@));
    }

    fn issue(&mut self, s: String)
        requires
            old(self).inv(),
        ensures
            final(self).inv(),
            final(self).tally() == with_issue(old(self).tally(), s@),
    {
        let ghost before = self.lines@;
        self.lines.push(s);
        assert(views(self.lines@) =~= views(before).push(s@));
        let n = self.lines.len();
        assert(self.issues + 1 <= n);
        self.issues = self.issues + 1;
    }

    fn warning(&mut self, s: String)
        requires
            old(self).inv(),
        ensures
            final(self).inv(),
            final(self).tally() == with_warning(old(self).tally(), s@),
    {
        let ghost before = self.lines@;
        self.lines.push(s);
        assert(views(self.lines@) =~= views(before).push(s@));
        let n = self.lines.len();
        assert(self.warnings + 1 <= n);
        self.warnings = self.warnings + 1;
    }

    /// A line, and an error that has no line of its own.
    fn line_and_issue(&mut self, s: String)
        requires
            old(self).inv(),
        ensures
            final(self).inv(),
            final(self).tally() == (Tally { issues: old(self).tally().issues + 1, ..with_line(old(self).tally(), s@) }),
    {
        let ghost before = self.lines@;
        self.lines.push(s);
        assert(views(self.lines@) =~= views(before).push(s@));
        let n = self.lines.len();
        assert(self.issues + 1 <= n);
        self.issues = self.issues + 1;
    }
}

fn text(a: &str, b: &str, c: &str) -> (r: String)
    ensures
        r@ == a@ + b@ + c@,
{
    let mut s = String::from_str(a);
    push_str(&mut s, b);
    push_str(&mut s, c);
    s
}

fn count_text(a: &str, n: u64, c: &str) -> (r: String)
    ensures
        r@ == a@ + decimal(n as nat) + c@,
{
    let mut s = String::from_str(a);
    push_decimal(&mut s, n);
    push_str(&mut s, c);
    s
}

/// Whether `pat` occurs in `c`.
pub(crate) fn contains_text(c: &Vec<char>, pat: &str) -> (r: bool)
    ensures
        r == contains(c@, pat@),
{
    let pv = to_chars(pat);
    find_chars(c.as_slice(), pv.as_slice(), 0).is_some()
}

fn check_present(out: &mut Sink, present: bool, name: &str)
    requires
        old(out).inv(),
    ensures
        final(out).inv(),
        final(out).tally() == missing(old(out).tally(), present, name@),
{
    if !present {
        out.issue(text("    ✗ Missing: ", name, ""));
        proof {
            reveal_strlit("");
        }
        assert(("    ✗ Missing: "@ + name@ + ""@) =~= "    ✗ Missing: "@ + name@);
    }
}

fn structure(i: &AuditInput, out: &mut Sink)
    requires
        old(out).inv(),
    ensures
        final(out).inv(),
        final(out).tally() == structure_section(i@, old(out).tally()),
{
    out.line(String::from_str("  [Structure]"));
    check_present(out, i.has_glasshouse, "glasshouse");
    check_present(out, i.has_packages, "packages");
    check_present(out, i.has_src, "src");
    check_present(out, i.has_styles, "styles");
    check_present(out, i.has_index, "index.html");
    if out.issues == 0 {
        out.line(String::from_str("    ✓ OK"));
    }
}

/// How many of the files are TypeScript files.
pub fn count_ts_files(files: &[String]) -> (r: usize)
    ensures
        r == ts_count(views(files@)),
{
    let ghost ps = views(files@);
    let mut n: usize = 0;
    let mut i: usize = 0;
    while i < files.len()
        invariant
            i <= files@.len() == ps.len(),
            ps == views(files@),
            n == ts_count(ps.take(i as int)),
            n <= i,
        decreases files.len() - i,
    {
        assert(ps.take(i + 1).drop_last() =~= ps.take(i as int));
        assert(ps[i as int] == files@[i as int]@);
        let p = files[i].as_str();
        if ext_is(p, "ts") || ext_is(p, "tsx") {
            n = n + 1;
        }
        i = i + 1;
    }
    assert(ps.take(ps.len() as int) =~= ps);
    n
}

fn typescript(i: &AuditInput, out: &mut Sink)
    requires
        old(out).inv(),
    ensures
        final(out).inv(),
        final(out).tally() == ts_section(i@, old(out).tally()),
{
    out.line(String::from_str("  [TypeScript]"));
    let ghost t1 = out.tally();
    let before = out.issues;
    let fs = &i.code_files;
    let ghost ps = views(fs@);
    let mut k: usize = 0;
    while k < fs.len()
        invariant
            k <= fs@.len() == ps.len(),
            ps == views(fs@),
            out.inv(),
            out.tally() == js_files_fold(i.root@, ps.take(k as int), t1),
        decreases fs.len() - k,
    {
        assert(ps.take(k + 1).drop_last() =~= ps.take(k as int));
        assert(ps[k as int] == fs@[k as int]@);
        let p = fs[k].as_str();
        if ext_is(p, "js") && !crate::path::name_is(p, ".registry.json") {
            let rel = rel_path_of(i.root.as_str(), p);
            out.issue(text("    ✗ ", rel.as_str(), ": .js files not allowed — use TypeScript (.ts/.tsx)"));
        }
        k = k + 1;
    }
    assert(ps.take(ps.len() as int) =~= ps);
    if out.issues == before {
        let n = count_ts_files(fs.as_slice());
        if n > 0 {
            out.line(count_text("    ✓ ", n as u64, " TypeScript file(s) found, no forbidden .js files"));
        } else {
            out.line(String::from_str("    ✓ No forbidden .js files found"));
        }
    }
}

fn file_security_of(p: &str, c: &str, out: &mut Sink)
    requires
        old(out).inv(),
    ensures
        final(out).inv(),
        final(out).tally() == file_security(p@, c@, old(out).tally()),
{
    let cv = to_chars(c);
    if contains_text(&cv, "eval(") {
        out.issue(text("    ✗ ", p, ": eval()"));
    }
    if contains_text(&cv, "document.write(") {
        out.issue(text("    ✗ ", p, ": document.write()"));
    }
    if contains_text(&cv, "innerHTML") && contains_text(&cv, "=") {
        out.warning(text("    ⚠ ", p, ": innerHTML="));
    }
    if !contains_text(&cv, "'use strict'") && !contains_text(&cv, "\"use strict\"") {
        out.warning(text("    ⚠ ", p, ": missing strict mode"));
    }
    if contains_text(&cv, "new Function(") {
        out.issue(text("    ✗ ", p, ": new Function()"));
    }
    if (ext_is(p, "ts") || ext_is(p, "tsx")) && (contains_text(&cv, " as any") || contains_text(&cv, ": any")) {
        out.warning(text("    ⚠ ", p, ": uses 'any' type"));
    }
}

fn is_script_path(p: &str) -> (r: bool)
    ensures
        r == is_script(p@),
{
    ext_is(p, "js") || ext_is(p, "ts") || ext_is(p, "tsx")
}

fn security(i: &AuditInput, out: &mut Sink)
    requires
        old(out).inv(),
    ensures
        final(out).inv(),
        final(out).tally() == security_section(i@, old(out).tally()),
{
    out.line(String::from_str("  [Security]"));
    let ghost t1 = out.tally();
    let fs = &i.files;
    let ghost fv = file_views(fs@);
    let mut k: usize = 0;
    while k < fs.len()
        invariant
            k <= fs@.len() == fv.len(),
            fv == file_views(fs@),
            out.inv(),
            out.tally() == security_fold(fv.take(k as int), t1),
        decreases fs.len() - k,
    {
        assert(fv.take(k + 1).drop_last() =~= fv.take(k as int));
        assert(fv[k as int] == fs@[k as int]@);
        match &fs[k].content {
            Some(c) => {
                if is_script_path(fs[k].path.as_str()) {
                    file_security_of(fs[k].path.as_str(), c.as_str(), out);
                }
            },
            None => {},
        }
        k = k + 1;
    }
    assert(fv.take(fv.len() as int) =~= fv);
    if out.issues == 0 && out.warnings == 0 {
        out.line(String::from_str("    ✓ No issues"));
    }
}

proof fn lemma_pebble_counts(fs: Seq<FileView>)
    ensures
        pebble_counts(fs).1 <= pebble_counts(fs).0 <= fs.len(),
    decreases fs.len(),
{
    if fs.len() > 0 {
        lemma_pebble_counts(fs.drop_last());
    }
}

fn type_safety(i: &AuditInput, out: &mut Sink)
    requires
        old(out).inv(),
    ensures
        final(out).inv(),
        final(out).tally() == type_safety_section(i@, old(out).tally()),
{
    out.line(String::from_str("  [Type Safety]"));
    let fs = &i.files;
    let ghost fv = file_views(fs@);
    let mut pebbles: u64 = 0;
    let mut typed: u64 = 0;
    let mut k: usize = 0;
    while k < fs.len()
        invariant
            k <= fs@.len() == fv.len(),
            fv == file_views(fs@),
            (pebbles as nat, typed as nat) == pebble_counts(fv.take(k as int)),
            typed <= pebbles <= k,
        decreases fs.len() - k,
    {
        assert(fv.take(k + 1).drop_last() =~= fv.take(k as int));
        assert(fv[k as int] == fs@[k as int]@);
        match &fs[k].content {
            Some(c) => {
                let cv = to_chars(c.as_str());
                if is_script_path(fs[k].path.as_str()) && (contains_text(&cv, "new Pebble(") || contains_text(&cv, "Pebble({")) {
                    pebbles = pebbles + 1;
                    if contains_text(&cv, "propTypes") {
                        typed = typed + 1;
                    }
                }
            },
            None => {},
        }
        k = k + 1;
    }
    assert(fv.take(fv.len() as int) =~= fv);
    if pebbles > 0 {
        assert((typed as int * 100) / (pebbles as int) <= 100) by (nonlinear_arith)
            requires
                typed <= pebbles,
                pebbles > 0,
        ;
        let pct = ((typed as u128) * 100 / (pebbles as u128)) as u64;
        let mut s = count_text("    ", pebbles, " pebbles, ");
        push_decimal(&mut s, typed);
        push_str(&mut s, " with propTypes (");
        push_decimal(&mut s, pct);
        push_str(&mut s, "%)");
        if pct < 100 {
            out.line_and_issue(s);
        } else {
            out.line(s);
        }
    } else {
        out.line(String::from_str("    No pebbles found"));
    }
}

fn handlers(i: &AuditInput, out: &mut Sink)
    requires
        old(out).inv(),
    ensures
        final(out).inv(),
        final(out).tally() == handlers_section(i@, old(out).tally()),
{
    out.line(String::from_str("  [Handlers]"));
    let fs = &i.files;
    let ghost fv = file_views(fs@);
    let mut n: u64 = 0;
    let mut k: usize = 0;
    while k < fs.len()
        invariant
            k <= fs@.len() == fv.len(),
            fv == file_views(fs@),
            n == handler_count(fv.take(k as int)),
            n <= k,
        decreases fs.len() - k,
    {
        assert(fv.take(k + 1).drop_last() =~= fv.take(k as int));
        assert(fv[k as int] == fs@[k as int]@);
        match &fs[k].content {
            Some(c) => {
                let cv = to_chars(c.as_str());
                if is_script_path(fs[k].path.as_str()) && contains_text(&cv, "handler(") {
                    n = n + 1;
                }
            },
            None => {},
        }
        k = k + 1;
    }
    assert(fv.take(fv.len() as int) =~= fv);
    out.line(count_text("    ", n, " handlers"));
}

fn any_ext_of(ps: &Vec<String>, e: &str) -> (r: bool)
    ensures
        r == any_ext(views(ps@), e@),
{
    let mut k: usize = 0;
    while k < ps.len()
        invariant
            k <= ps@.len(),
            forall|j: int| 0 <= j < k ==> extension_spec(ps@[j]@) != Some(e@),
        decreases ps.len() - k,
    {
        if ext_is(ps[k].as_str(), e) {
            assert(views(ps@)[k as int] == ps@[k as int]@);
            return true;
        }
        k = k + 1;
    }
    proof {
        if any_ext(views(ps@), e@) {
            let j = choose|j: int| 0 <= j < views(ps@).len() && extension_spec(#[trigger] views(ps@)[j]) == Some(e@);
            assert(views(ps@)[j] == ps@[j]@);
        }
    }
    false
}

fn packages(i: &AuditInput, out: &mut Sink)
    requires
        old(out).inv(),
    ensures
        final(out).inv(),
        final(out).tally() == packages_section(i@, old(out).tally()),
{
    out.line(String::from_str("  [Packages]"));
    let ghost t1 = out.tally();
    match &i.packages {
        Some(ps) => {
            let ghost pv = package_views(ps@);
            let mut count: u64 = 0;
            let mut k: usize = 0;
            while k < ps.len()
                invariant
                    k <= ps@.len() == pv.len(),
                    pv == package_views(ps@),
                    out.inv(),
                    (out.tally(), count as nat) == packages_fold(pv.take(k as int), t1),
                    count <= k,
                decreases ps.len() - k,
            {
                assert(pv.take(k + 1).drop_last() =~= pv.take(k as int));
                assert(pv[k as int] == ps@[k as int]@);
                let p = &ps[k];
                let nv = to_chars(p.name.as_str());
                if !(nv.len() > 0 && nv[0] == '.') {
                    count = count + 1;
                    if !p.has_manifest {
                        out.warning(text("    ⚠ '", p.name.as_str(), "' missing package.json"));
                    }
                    let has_ts = any_ext_of(&p.files, "ts") || any_ext_of(&p.files, "tsx");
                    if any_ext_of(&p.files, "js") && !has_ts {
                        out.warning(
                            text(
                                "    ⚠ '",
                                p.name.as_str(),
                                "' uses JavaScript — consider migrating to TypeScript (.ts/.tsx)",
                            ),
                        );
                    }
                }
                k = k + 1;
            }
            assert(pv.take(pv.len() as int) =~= pv);
            if count == 0 {
                out.line(String::from_str("    No packages installed"));
            }
        },
        None => {},
    }
}

proof fn lemma_script_bytes_prefix(fs: Seq<FileView>, k: int)
    requires
        0 <= k <= fs.len(),
    ensures
        script_bytes(fs.take(k)) <= script_bytes(fs),
    decreases fs.len(),
{
    if k < fs.len() {
        assert(fs.drop_last().take(k) =~= fs.take(k));
        lemma_script_bytes_prefix(fs.drop_last(), k);
    } else {
        assert(fs.take(k) =~= fs);
    }
}

fn sizes(i: &AuditInput, out: &mut Sink)
    requires
        old(out).inv(),
        script_bytes(i@.files) <= u64::MAX,
    ensures
        final(out).inv(),
        final(out).tally() == size_section(i@, old(out).tally()),
{
    out.line(String::from_str("  [Size]"));
    let ghost t1 = out.tally();
    let fs = &i.files;
    let ghost fv = file_views(fs@);
    let mut total: u64 = 0;
    let mut k: usize = 0;
    while k < fs.len()
        invariant
            k <= fs@.len() == fv.len(),
            fv == file_views(fs@),
            fv == i@.files,
            script_bytes(fv) <= u64::MAX,
            out.inv(),
            out.tally() == size_fold(fv.take(k as int), t1),
            total == script_bytes(fv.take(k as int)),
        decreases fs.len() - k,
    {
        assert(fv.take(k + 1).drop_last() =~= fv.take(k as int));
        assert(fv[k as int] == fs@[k as int]@);
        proof {
            lemma_script_bytes_prefix(fv, k + 1);
        }
        match fs[k].size {
            Some(m) => {
                if is_script_path(fs[k].path.as_str()) {
                    total = total + m;
                    if m > 40960 {
                        out.issue(text("    ✗ ", fs[k].path.as_str(), " exceeds 40960B"));
                    }
                }
            },
            None => {},
        }
        k = k + 1;
    }
    assert(fv.take(fv.len() as int) =~= fv);
    let size = format_size(total);
    out.line(text("    Total: ", size.as_str(), ""));
    proof {
        reveal_strlit("");
    }
    assert(("    Total: "@ + size@ + ""@) =~= "    Total: "@ + size@);
}

fn compile(i: &AuditInput, out: &mut Sink)
    requires
        old(out).inv(),
        ts_count(i@.code_files) > 0 ==> i.qjs is Some,
    ensures
        final(out).inv(),
        final(out).tally() == compile_section(i@, old(out).tally()),
{
    out.line(String::from_str("  [TypeScript Compilation]"));
    let n = count_ts_files(i.code_files.as_slice());
    if n > 0 {
        out.line(count_text("    ", n as u64, " TypeScript file(s) in src/ and packages/"));
        match &i.qjs {
            Some(Err(e)) => {
                out.warning(text("    ⚠ QuickJS not available: ", e.as_str(), ""));
                proof {
                    reveal_strlit("");
                }
                assert(("    ⚠ QuickJS not available: "@ + e@ + ""@) =~= "    ⚠ QuickJS not available: "@ + e@);
            },
            _ => {
                out.line(String::from_str("    ✓ QuickJS runtime available"));
            },
        }
    } else {
        out.line(String::from_str("    No TypeScript files found (consider using .ts/.tsx)"));
    }
}

pub open spec fn write_views(v: Seq<(String, String)>) -> Seq<(Seq<char>, Seq<char>)> {
    v.map_values(|w: (String, String)| (w.0@, w.1@))
}

fn fixes(i: &AuditInput, out: &mut Sink) -> (r: Vec<(String, String)>)
    requires
        old(out).inv(),
    ensures
        final(out).inv(),
        final(out).tally() == fix_section(i@, old(out).tally()),
        write_views(r@) == fix_writes(i@.files),
{
    out.line(String::from_str("\n  [Fix]"));
    let ghost t1 = out.tally();
    let fs = &i.files;
    let ghost fv = file_views(fs@);
    let mut writes: Vec<(String, String)> = Vec::new();
    let mut k: usize = 0;
    while k < fs.len()
        invariant
            k <= fs@.len() == fv.len(),
            fv == file_views(fs@),
            out.inv(),
            write_views(writes@) == fix_writes(fv.take(k as int)),
            out.tally() == (Tally { lines: t1.lines + fix_lines(fix_writes(fv.take(k as int))), ..t1 }),
        decreases fs.len() - k,
    {
        assert(fv.take(k + 1).drop_last() =~= fv.take(k as int));
        assert(fv[k as int] == fs@[k as int]@);
        match &fs[k].content {
            Some(c) => {
                let cv = to_chars(c.as_str());
                if is_script_path(fs[k].path.as_str()) && !contains_text(&cv, "'use strict'") && !contains_text(&cv, "\"use strict\"") {
                    let p = fs[k].path.as_str();
                    let ghost before = write_views(writes@);
                    writes.push((String::from_str(p), text("'use strict';\n", c.as_str(), "")));
                    proof {
                        reveal_strlit("");
                    }
                    assert(write_views(writes@) =~= before.push((p@, "'use strict';\n"@ + c@)));
                    assert(fix_lines(write_views(writes@)) =~= fix_lines(before).push("    ↻ Added strict mode to "@ + p@));
                    out.line(text("    ↻ Added strict mode to ", p, ""));
                    assert(("    ↻ Added strict mode to "@ + p@ + ""@) =~= "    ↻ Added strict mode to "@ + p@);
                    assert(out.tally().lines =~= t1.lines + fix_lines(fix_writes(fv.take(k + 1))));
                }
            },
            None => {},
        }
        k = k + 1;
    }
    assert(fv.take(fv.len() as int) =~= fv);
    writes
}

fn summary(out: &mut Sink)
    requires
        old(out).inv(),
    ensures
        final(out).inv(),
        final(out).tally() == summary_section(old(out).tally()),
{
    if out.issues == 0 && out.warnings == 0 {
        out.line(String::from_str("\n  ✓ Clean audit."));
    } else {
        let mut s = count_text("\n  ", out.issues, " error(s), ");
        push_decimal(&mut s, out.warnings);
        push_str(&mut s, " warning(s)");
        let failed = out.issues > 0;
        out.line(s);
        if failed {
            out.line(String::from_str("  Audit FAILED"));
        } else {
            out.line(String::from_str("  Audit PASSED (warnings)"));
        }
    }
}

/// The audit's report and, with `fix`, the files to rewrite with their new
/// text.
pub fn audit_report(input: &AuditInput) -> (r: (Vec<String>, Vec<(String, String)>))
    requires
        input.deep ==> script_bytes(input@.files) <= u64::MAX,
        input.deep && ts_count(input@.code_files) > 0 ==> input.qjs is Some,
    ensures
        views(r.0@) == audit_spec(input@).lines,
        write_views(r.1@) == (if input.fix { fix_writes(input@.files) } else { Seq::empty() }),
{
    let mut first: Vec<String> = Vec::new();
    if input.fix {
        first.push(String::from_str("⚑ Audit --fix\n"));
    } else if input.deep {
        first.push(String::from_str("⚑ Deep Audit\n"));
    } else {
        first.push(String::from_str("⚑ Quick Audit (use --deep for full)\n"));
    }
    assert(first@.len() == 1);
    assert(first@[0]@ == audit_header(input.deep, input.fix));
    assert(views(first@) =~= seq![audit_header(input.deep, input.fix)]);
    let mut out = Sink { lines: first, issues: 0, warnings: 0 };
    assert(out.tally() == (Tally { lines: seq![audit_header(input.deep, input.fix)], issues: 0, warnings: 0 }));
    structure(input, &mut out);
    typescript(input, &mut out);
    security(input, &mut out);
    if input.deep {
        type_safety(input, &mut out);
        handlers(input, &mut out);
        packages(input, &mut out);
        sizes(input, &mut out);
        compile(input, &mut out);
    }
    let mut writes: Vec<(String, String)> = Vec::new();
    if input.fix {
        writes = fixes(input, &mut out);
    } else {
        assert(write_views(writes@) =~= Seq::<(Seq<char>, Seq<char>)>::empty());
    }
    summary(&mut out);
    (out.lines, writes)
}

} // verus!
