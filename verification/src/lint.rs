//! The lint command: its flags, reading the lint runner's answer, and the
//! report.

use vstd::prelude::*;
use vstd::utf8::encode_utf8;
use crate::cli::{any_arg, has_arg};
use crate::json::{JVal, Value, str_member, last_num, model, model_items, model_pairs, parse, parse_spec, lemma_model_items_index, lemma_model_pairs_index};
use crate::num::{lexeme_u32, lexeme_to_u32, count_or_zero, decimal, push_decimal};
use crate::text::{str_eq, to_chars, trim, trim_chars, push_str, views, quoted, push_quoted};
use crate::path::{extension_spec, file_name_spec, rel_path, ext_is, name_is, rel_path_of};
use crate::order::{path_le, sort_paths, str_le, sort_strings};
use crate::quickjs::{sources_json, file_views, push_sources_json};
use crate::audit::is_strict;

verus! {

/// The flags of `glas lint`.
pub struct LintFlags {
    pub realtime: bool,
    pub fix: bool,
    pub json: bool,
    pub strict: bool,
}

impl Default for LintFlags {
    fn default() -> (r: Self)
        ensures
            !r.realtime && !r.fix && !r.json && !r.strict,
    {
        LintFlags { realtime: false, fix: false, json: false, strict: false }
    }
}

/// `--realtime`/`-r`, `--fix`/`-f`, `--json` and `--strict`, wherever they
/// stand among the arguments.
pub fn parse_lint_flags(args: &[String]) -> (r: LintFlags)
    ensures
        r.realtime == (has_arg(args@, "--realtime"@) || has_arg(args@, "-r"@)),
        r.fix == (has_arg(args@, "--fix"@) || has_arg(args@, "-f"@)),
        r.json == has_arg(args@, "--json"@),
        r.strict == has_arg(args@, "--strict"@),
{
    LintFlags {
        realtime: any_arg(args, "--realtime") || any_arg(args, "-r"),
        fix: any_arg(args, "--fix") || any_arg(args, "-f"),
        json: any_arg(args, "--json"),
        strict: any_arg(args, "--strict"),
    }
}


/// One finding of the linter.
pub struct LintViolation {
    pub file: String,
    pub line: u32,
    pub col: u32,
    pub severity: String,
    pub rule: String,
    pub message: String,
}

/// A finding as plain values.
pub struct Violation {
    pub file: Seq<char>,
    pub line: nat,
    pub col: nat,
    pub severity: Seq<char>,
    pub rule: Seq<char>,
    pub message: Seq<char>,
}

impl View for LintViolation {
    type V = Violation;

    open spec fn view(&self) -> Violation {
        Violation {
            file: self.file@,
            line: self.line as nat,
            col: self.col as nat,
            severity: self.severity@,
            rule: self.rule@,
            message: self.message@,
        }
    }
}

pub open spec fn vviews(v: Seq<LintViolation>) -> Seq<Violation> {
    v.map_values(|x: LintViolation| x@)
}

/// What one member of a finding object sets: `file`, `severity`, `rule` and
/// `message` from strings, `line` and `col` from numbers; any other member,
/// or one of another kind, sets nothing.
pub open spec fn apply_field(v: Violation, m: (Seq<char>, JVal)) -> Violation {
    match m.1 {
        JVal::Str(s) => if m.0 == "file"@ {
            Violation { file: s, ..v }
        } else if m.0 == "severity"@ {
            Violation { severity: s, ..v }
        } else if m.0 == "rule"@ {
            Violation { rule: s, ..v }
        } else if m.0 == "message"@ {
            Violation { message: s, ..v }
        } else {
            v
        },
        JVal::Num(t) => if m.0 == "line"@ {
            Violation { line: lexeme_u32(t), ..v }
        } else if m.0 == "col"@ {
            Violation { col: lexeme_u32(t), ..v }
        } else {
            v
        },
        _ => v,
    }
}

/// The finding that an object describes: its last `file`, `severity`,
/// `rule` and `message` strings, and the counts in its last `line` and
/// `col` numbers (0 where there is none).
pub open spec fn violation_of(ps: Seq<(Seq<char>, JVal)>) -> Violation {
    Violation {
        file: str_member(ps, "file"@),
        line: count_or_zero(last_num(ps, "line"@)),
        col: count_or_zero(last_num(ps, "col"@)),
        severity: str_member(ps, "severity"@),
        rule: str_member(ps, "rule"@),
        message: str_member(ps, "message"@),
    }
}

proof fn lemma_violation_of_step(ps: Seq<(Seq<char>, JVal)>, i: int)
    requires
        0 <= i < ps.len(),
    ensures
        violation_of(ps.take(i + 1)) == apply_field(violation_of(ps.take(i)), ps[i]),
{
    let q = ps.take(i + 1);
    assert(q.drop_last() =~= ps.take(i));
    assert(q.last() == ps[i]);
    reveal_strlit("file");
    reveal_strlit("severity");
    reveal_strlit("rule");
    reveal_strlit("message");
    reveal_strlit("line");
    reveal_strlit("col");
    assert("file"@[0] != "rule"@[0]);
    assert("line"@.len() != "col"@.len());
    assert("message"@.len() != "file"@.len() && "message"@.len() != "severity"@.len() && "message"@.len() != "rule"@.len());
    assert("severity"@.len() != "file"@.len() && "severity"@.len() != "rule"@.len());
    let a = violation_of(q);
    let b = apply_field(violation_of(ps.take(i)), ps[i]);
    assert(a.file == b.file);
    assert(a.line == b.line);
    assert(a.col == b.col);
    assert(a.severity == b.severity);
    assert(a.rule == b.rule);
    assert(a.message == b.message);
}

/// The findings that the objects of an array describe; other items are
/// passed over.
pub open spec fn violations_of(items: Seq<JVal>) -> Seq<Violation>
    decreases items.len(),
{
    if items.len() == 0 {
        Seq::empty()
    } else {
        let r = violations_of(items.drop_last());
        match items.last() {
            JVal::Obj(ps) => r.push(violation_of(ps)),
            _ => r,
        }
    }
}

/// What the lint runner's output says: no findings for blank output, the
/// findings of a JSON array, and nothing readable otherwise.
pub open spec fn lint_json_spec(out: Seq<char>) -> Option<Seq<Violation>> {
    if trim(out).len() == 0 {
        Some(Seq::empty())
    } else {
        match parse_spec(out) {
            Some(JVal::Arr(items)) => Some(violations_of(items)),
            _ => None,
        }
    }
}

fn violation_from_pairs(pairs: &Vec<(String, Value)>) -> (r: LintViolation)
    ensures
        r@ == violation_of(model_pairs(pairs@)),
{
    proof {
        lemma_model_pairs_index(pairs@);
    }
    let ghost ps = model_pairs(pairs@);
    let mut v = LintViolation {
        file: String::new(),
        line: 0,
        col: 0,
        severity: String::new(),
        rule: String::new(),
        message: String::new(),
    };
    let mut i: usize = 0;
    while i < pairs.len()
        invariant
            i <= pairs@.len() == ps.len(),
            ps == model_pairs(pairs@),
            forall|j: int| 0 <= j < ps.len() ==> #[trigger] ps[j] == (pairs@[j].0@, model(pairs@[j].1)),
            v@ == violation_of(ps.take(i as int)),
        decreases pairs.len() - i,
    {
        proof {
            lemma_violation_of_step(ps, i as int);
        }
        assert(ps[i as int] == (pairs@[i as int].0@, model(pairs@[i as int].1)));
        let k = pairs[i].0.as_str();
        match &pairs[i].1 {
            Value::String(s) => {
                if str_eq(k, "file") {
                    v.file = s.clone();
                } else if str_eq(k, "severity") {
                    v.severity = s.clone();
                } else if str_eq(k, "rule") {
                    v.rule = s.clone();
                } else if str_eq(k, "message") {
                    v.message = s.clone();
                }
            },
            Value::Number(n) => {
                if str_eq(k, "line") {
                    v.line = lexeme_to_u32(n.as_str());
                } else if str_eq(k, "col") {
                    v.col = lexeme_to_u32(n.as_str());
                }
            },
            _ => {},
        }
        i = i + 1;
    }
    assert(ps.take(ps.len() as int) =~= ps);
    v
}

/// Reads the lint runner's output.
pub fn parse_lint_json(output: &str) -> (r: Option<Vec<LintViolation>>)
    requires
        encode_utf8(output@).len() < usize::MAX,
    ensures
        match r {
            Some(v) => lint_json_spec(output@) == Some(vviews(v@)),
            None => lint_json_spec(output@) is None,
        },
{
    let t = trim_chars(to_chars(output).as_slice());
    if t.len() == 0 {
        let e: Vec<LintViolation> = Vec::new();
        assert(vviews(e@) =~= Seq::<Violation>::empty());
        return Some(e);
    }
    match parse(output) {
        Some(Value::Array(items)) => {
            proof {
                lemma_model_items_index(items@);
            }
            let ghost xs = model_items(items@);
            let mut out: Vec<LintViolation> = Vec::new();
            let mut i: usize = 0;
            while i < items.len()
                invariant
                    i <= items@.len() == xs.len(),
                    xs == model_items(items@),
                    forall|j: int| 0 <= j < xs.len() ==> #[trigger] xs[j] == model(items@[j]),
                    vviews(out@) == violations_of(xs.take(i as int)),
                decreases items.len() - i,
            {
                assert(xs.take(i + 1).drop_last() =~= xs.take(i as int));
                assert(xs[i as int] == model(items@[i as int]));
                match &items[i] {
                    Value::Object(pairs) => {
                        let v = violation_from_pairs(pairs);
                        let ghost before = out@;
                        out.push(v);
                        assert(vviews(out@) =~= vviews(before).push(v@));
                    },
                    _ => {},
                }
                i = i + 1;
            }
            assert(xs.take(xs.len() as int) =~= xs);
            Some(out)
        },
        _ => None,
    }
}


/// The message given for a JavaScript file in the project's own code.
pub const JS_FORBIDDEN: &'static str = "JavaScript files not allowed in user codebase. Use TypeScript (.ts/.tsx).";

/// A JavaScript file that the project's own code may not hold: one with the
/// extension `js`, other than a file named `.registry.json`.
pub open spec fn is_forbidden_js(p: Seq<char>) -> bool {
    extension_spec(p) == Some("js"@) && file_name_spec(p) != Some(".registry.json"@)
}

/// The finding for a forbidden JavaScript file, named relative to the
/// project root.
pub open spec fn js_violation(root: Seq<char>, p: Seq<char>) -> Violation {
    Violation {
        file: rel_path(root, p),
        line: 0,
        col: 0,
        severity: "error"@,
        rule: "NO_JS_FILES"@,
        message: JS_FORBIDDEN@,
    }
}

/// The findings for the forbidden JavaScript files among `ps`, in order.
pub open spec fn forbidden_js_spec(root: Seq<char>, ps: Seq<Seq<char>>) -> Seq<Violation>
    decreases ps.len(),
{
    if ps.len() == 0 {
        Seq::empty()
    } else {
        let r = forbidden_js_spec(root, ps.drop_last());
        if is_forbidden_js(ps.last()) {
            r.push(js_violation(root, ps.last()))
        } else {
            r
        }
    }
}

/// The findings for the forbidden JavaScript files among the files found
/// under `src/` and `packages/`.
pub fn forbidden_js(root: &str, files: &[String]) -> (r: Vec<LintViolation>)
    ensures
        vviews(r@) == forbidden_js_spec(root@, views(files@)),
{
    let ghost ps = views(files@);
    let mut out: Vec<LintViolation> = Vec::new();
    let mut i: usize = 0;
    while i < files.len()
        invariant
            i <= files@.len() == ps.len(),
            ps == views(files@),
            vviews(out@) == forbidden_js_spec(root@, ps.take(i as int)),
        decreases files.len() - i,
    {
        assert(ps.take(i + 1).drop_last() =~= ps.take(i as int));
        assert(ps[i as int] == files@[i as int]@);
        let p = files[i].as_str();
        if ext_is(p, "js") && !name_is(p, ".registry.json") {
            let v = LintViolation {
                file: rel_path_of(root, p),
                line: 0,
                col: 0,
                severity: String::from_str("error"),
                rule: String::from_str("NO_JS_FILES"),
                message: String::from_str(JS_FORBIDDEN),
            };
            let ghost before = out@;
            out.push(v);
            assert(vviews(out@) =~= vviews(before).push(v@));
        }
        i = i + 1;
    }
    assert(ps.take(ps.len() as int) =~= ps);
    out
}

/// Whether `p` is a TypeScript file (`ts` or `tsx`).
pub open spec fn is_ts(p: Seq<char>) -> bool {
    extension_spec(p) == Some("ts"@) || extension_spec(p) == Some("tsx"@)
}

/// The TypeScript files among `ps`, in order.
pub open spec fn ts_only(ps: Seq<Seq<char>>) -> Seq<Seq<char>>
    decreases ps.len(),
{
    if ps.len() == 0 {
        Seq::empty()
    } else if is_ts(ps.last()) {
        ts_only(ps.drop_last()).push(ps.last())
    } else {
        ts_only(ps.drop_last())
    }
}

/// The files to lint: the TypeScript files among those found under `src/`
/// and `packages/`, in path order.
pub fn lint_files(files: &[String]) -> (r: Vec<String>)
    ensures
        views(r@) == ts_only(views(files@)).sort_by(|a: Seq<char>, b: Seq<char>| path_le(a, b)),
{
    let ghost ps = views(files@);
    let mut out: Vec<String> = Vec::new();
    let mut i: usize = 0;
    while i < files.len()
        invariant
            i <= files@.len() == ps.len(),
            ps == views(files@),
            views(out@) == ts_only(ps.take(i as int)),
        decreases files.len() - i,
    {
        assert(ps.take(i + 1).drop_last() =~= ps.take(i as int));
        assert(ps[i as int] == files@[i as int]@);
        let p = files[i].as_str();
        if ext_is(p, "ts") || ext_is(p, "tsx") {
            let ghost before = out@;
            out.push(files[i].clone());
            assert(views(out@) =~= views(before).push(files@[i as int]@));
        }
        i = i + 1;
    }
    assert(ps.take(ps.len() as int) =~= ps);
    sort_paths(&out)
}

/// The outcome of a lint run.
pub struct LintResult {
    pub violations: Vec<LintViolation>,
    pub errors: usize,
    pub warnings: usize,
}

/// How many findings are errors.
pub open spec fn error_count(vs: Seq<Violation>) -> nat
    decreases vs.len(),
{
    if vs.len() == 0 {
        0
    } else {
        error_count(vs.drop_last()) + if vs.last().severity == "error"@ { 1nat } else { 0nat }
    }
}

/// How many findings are not errors.
pub open spec fn warning_count(vs: Seq<Violation>) -> nat
    decreases vs.len(),
{
    if vs.len() == 0 {
        0
    } else {
        warning_count(vs.drop_last()) + if vs.last().severity == "error"@ { 0nat } else { 1nat }
    }
}

/// The finding reported when the lint runner could not be run.
pub open spec fn runner_violation(e: Seq<char>) -> Violation {
    Violation {
        file: "(lint runner)"@,
        line: 0,
        col: 0,
        severity: "error"@,
        rule: "RUNNER"@,
        message: "Lint runner failed: "@ + e,
    }
}

pub open spec fn ran_view(r: Option<Result<String, String>>) -> Option<Result<Seq<char>, Seq<char>>> {
    match r {
        None => None,
        Some(Ok(o)) => Some(Ok(o@)),
        Some(Err(e)) => Some(Err(e@)),
    }
}

/// All findings of a run: those for forbidden JavaScript files, then, when
/// there were files to lint, what the runner found (nothing when its output
/// cannot be read) or the finding that it failed.
pub open spec fn lint_findings(js: Seq<Violation>, ran: Option<Result<Seq<char>, Seq<char>>>) -> Seq<Violation> {
    match ran {
        None => js,
        Some(Ok(out)) => match lint_json_spec(out) {
            Some(vs) => js + vs,
            None => js,
        },
        Some(Err(e)) => js.push(runner_violation(e)),
    }
}

/// Puts a lint run together: `js` are the findings for forbidden JavaScript
/// files, `ran` is `None` when there was nothing to lint, else the runner's
/// output or its error.
pub fn lint_result(js: Vec<LintViolation>, ran: Option<Result<String, String>>) -> (r: LintResult)
    requires
        ran matches Some(Ok(out)) ==> encode_utf8(out@).len() < usize::MAX,
    ensures
        vviews(r.violations@) == lint_findings(vviews(js@), ran_view(ran)),
        r.errors == error_count(vviews(r.violations@)),
        r.warnings == warning_count(vviews(r.violations@)),
{
    let mut vs = js;
    match ran {
        None => {},
        Some(Ok(out)) => {
            match parse_lint_json(out.as_str()) {
                Some(mut found) => {
                    let ghost a = vs@;
                    let ghost b = found@;
                    vs.append(&mut found);
                    assert(vviews(vs@) =~= vviews(a) + vviews(b));
                },
                None => {},
            }
        },
        Some(Err(e)) => {
            let mut m = String::from_str("Lint runner failed: ");
            push_str(&mut m, e.as_str());
            let v = LintViolation {
                file: String::from_str("(lint runner)"),
                line: 0,
                col: 0,
                severity: String::from_str("error"),
                rule: String::from_str("RUNNER"),
                message: m,
            };
            let ghost a = vs@;
            vs.push(v);
            assert(vviews(vs@) =~= vviews(a).push(v@));
        },
    }
    let ghost all = vviews(vs@);
    let mut errors: usize = 0;
    let mut warnings: usize = 0;
    let mut i: usize = 0;
    while i < vs.len()
        invariant
            i <= vs@.len() == all.len(),
            all == vviews(vs@),
            errors == error_count(all.take(i as int)),
            warnings == warning_count(all.take(i as int)),
            errors + warnings == i,
        decreases vs.len() - i,
    {
        assert(all.take(i + 1).drop_last() =~= all.take(i as int));
        assert(all[i as int] == vs@[i as int]@);
        if str_eq(vs[i].severity.as_str(), "error") {
            errors = errors + 1;
        } else {
            warnings = warnings + 1;
        }
        i = i + 1;
    }
    assert(all.take(all.len() as int) =~= all);
    LintResult { violations: vs, errors, warnings }
}


/// `"s"` unless the count is one.
pub open spec fn plural(n: nat) -> Seq<char> {
    if n == 1 {
        ""@
    } else {
        "s"@
    }
}

/// Where a finding is: `line:col`, or `-` when it has no line.
pub open spec fn loc_text(v: Violation) -> Seq<char> {
    if v.line > 0 {
        decimal(v.line) + ":"@ + decimal(v.col)
    } else {
        "-"@
    }
}

/// The report line of a finding.
pub open spec fn violation_line(v: Violation) -> Seq<char> {
    "    "@ + (if v.severity == "error"@ {
        "✗"@
    } else {
        "⚠"@
    }) + " "@ + loc_text(v) + " ["@ + v.rule + "] "@ + v.message
}

/// The report lines of the findings in file `f`, in order.
pub open spec fn file_lines(vs: Seq<Violation>, f: Seq<char>) -> Seq<Seq<char>>
    decreases vs.len(),
{
    if vs.len() == 0 {
        Seq::empty()
    } else if vs.last().file == f {
        file_lines(vs.drop_last(), f).push(violation_line(vs.last()))
    } else {
        file_lines(vs.drop_last(), f)
    }
}

/// The files that the findings name, each once, in the order they first
/// appear.
pub open spec fn first_files(vs: Seq<Violation>) -> Seq<Seq<char>>
    decreases vs.len(),
{
    if vs.len() == 0 {
        Seq::empty()
    } else {
        let r = first_files(vs.drop_last());
        if r.contains(vs.last().file) {
            r
        } else {
            r.push(vs.last().file)
        }
    }
}

/// The files that the findings name, each once, in string order.
pub open spec fn report_files(vs: Seq<Violation>) -> Seq<Seq<char>> {
    first_files(vs).sort_by(|a: Seq<char>, b: Seq<char>| str_le(a, b))
}

/// For each file in `fs`: its name, its findings, and a blank line.
pub open spec fn file_blocks(vs: Seq<Violation>, fs: Seq<Seq<char>>) -> Seq<Seq<char>>
    decreases fs.len(),
{
    if fs.len() == 0 {
        Seq::empty()
    } else {
        file_blocks(vs, fs.drop_last()) + seq!["  "@ + fs.last()] + file_lines(vs, fs.last()) + seq![""@]
    }
}

/// The closing line, given when the run fails: on errors, and with
/// `strict` on warnings too.
pub open spec fn lint_summary(e: nat, w: nat, strict: bool) -> Seq<Seq<char>> {
    if e > 0 || (strict && w > 0) {
        seq![
            "  Lint FAILED ("@ + decimal(e) + " error"@ + plural(e) + ", "@ + decimal(w) + " warning"@
                + plural(w) + ")"@,
        ]
    } else {
        Seq::empty()
    }
}

/// A finding as a JSON object.
pub open spec fn violation_json(v: Violation) -> Seq<char> {
    "{\"file\":\""@ + quoted(v.file, false) + "\",\"line\":"@ + decimal(v.line) + ",\"col\":"@ + decimal(v.col)
        + ",\"severity\":\""@ + v.severity + "\",\"rule\":\""@ + v.rule + "\",\"message\":\""@ + quoted(
        v.message,
        false,
    ) + "\"}"@
}

/// The findings as JSON objects separated by commas.
pub open spec fn violations_json(vs: Seq<Violation>) -> Seq<char>
    decreases vs.len(),
{
    if vs.len() == 0 {
        Seq::empty()
    } else if vs.len() == 1 {
        violation_json(vs[0])
    } else {
        violations_json(vs.drop_last()) + ","@ + violation_json(vs.last())
    }
}

/// The lines that report a lint run: with `json` one JSON array of the
/// findings; else a line for a clean run, or a count, the findings grouped
/// by file in file order, and the closing line.
pub open spec fn lint_report_spec(vs: Seq<Violation>, e: nat, w: nat, json: bool, strict: bool) -> Seq<Seq<char>> {
    if json {
        seq!["["@ + violations_json(vs) + "]"@]
    } else if vs.len() == 0 {
        seq!["✓ No issues found."@]
    } else {
        seq![
            "⚑ Lint: "@ + decimal(e + w) + " issue(s) found ("@ + decimal(e) + " errors, "@ + decimal(w)
                + " warnings)"@,
            ""@,
        ] + file_blocks(vs, report_files(vs)) + lint_summary(e, w, strict)
    }
}

fn contains_str(v: &Vec<String>, s: &str) -> (r: bool)
    ensures
        r == views(v@).contains(s@),
{
    let mut i: usize = 0;
    while i < v.len()
        invariant
            i <= v@.len(),
            forall|j: int| 0 <= j < i ==> v@[j]@ != s@,
        decreases v.len() - i,
    {
        if str_eq(v[i].as_str(), s) {
            assert(views(v@)[i as int] == s@);
            return true;
        }
        i = i + 1;
    }
    proof {
        if views(v@).contains(s@) {
            let j = choose|j: int| 0 <= j < views(v@).len() && views(v@)[j] == s@;
            assert(v@[j]@ == s@);
        }
    }
    false
}

fn violation_line_of(v: &LintViolation) -> (r: String)
    ensures
        r@ == violation_line(v@),
{
    let mut s = String::from_str("    ");
    if str_eq(v.severity.as_str(), "error") {
        push_str(&mut s, "✗");
    } else {
        push_str(&mut s, "⚠");
    }
    push_str(&mut s, " ");
    if v.line > 0 {
        push_decimal(&mut s, v.line as u64);
        push_str(&mut s, ":");
        push_decimal(&mut s, v.col as u64);
    } else {
        push_str(&mut s, "-");
    }
    push_str(&mut s, " [");
    push_str(&mut s, v.rule.as_str());
    push_str(&mut s, "] ");
    push_str(&mut s, v.message.as_str());
    assert(s@ =~= violation_line(v@));
    s
}

fn push_violation_json(out: &mut String, v: &LintViolation)
    ensures
        final(out)@ == old(out)@ + violation_json(v@),
{
    push_str(out, "{\"file\":\"");
    push_quoted(out, v.file.as_str(), false);
    push_str(out, "\",\"line\":");
    push_decimal(out, v.line as u64);
    push_str(out, ",\"col\":");
    push_decimal(out, v.col as u64);
    push_str(out, ",\"severity\":\"");
    push_str(out, v.severity.as_str());
    push_str(out, "\",\"rule\":\"");
    push_str(out, v.rule.as_str());
    push_str(out, "\",\"message\":\"");
    push_quoted(out, v.message.as_str(), false);
    push_str(out, "\"}");
    assert(out@ =~= old(out)@ + violation_json(v@));
}

/// The lines of the lint report.
pub fn lint_report(result: &LintResult, flags: &LintFlags) -> (r: Vec<String>)
    requires
        result.errors + result.warnings <= u64::MAX,
    ensures
        views(r@) == lint_report_spec(
            vviews(result.violations@),
            result.errors as nat,
            result.warnings as nat,
            flags.json,
            flags.strict,
        ),
{
    proof {
        reveal_strlit("");
    }
    let vs = &result.violations;
    let ghost all = vviews(vs@);
    let mut lines: Vec<String> = Vec::new();
    if flags.json {
        let mut s = String::from_str("[");
        let mut i: usize = 0;
        while i < vs.len()
            invariant
                i <= vs@.len() == all.len(),
                all == vviews(vs@),
                s@ == "["@ + violations_json(all.take(i as int)),
            decreases vs.len() - i,
        {
            assert(all.take(i + 1).drop_last() =~= all.take(i as int));
            assert(all[i as int] == vs@[i as int]@);
            if i > 0 {
                push_str(&mut s, ",");
            }
            push_violation_json(&mut s, &vs[i]);
            proof {
                if i == 0 {
                    assert(all.take(1) =~= seq![all[0]]);
                }
            }
            assert(s@ =~= "["@ + violations_json(all.take(i + 1)));
            i = i + 1;
        }
        assert(all.take(all.len() as int) =~= all);
        push_str(&mut s, "]");
        lines.push(s);
        assert(views(lines@) =~= seq![s@]);
        return lines;
    }
    if vs.len() == 0 {
        lines.push(String::from_str("✓ No issues found."));
        assert(views(lines@) =~= seq!["✓ No issues found."@]);
        return lines;
    }
    let mut head = String::from_str("⚑ Lint: ");
    push_decimal(&mut head, result.errors as u64 + result.warnings as u64);
    push_str(&mut head, " issue(s) found (");
    push_decimal(&mut head, result.errors as u64);
    push_str(&mut head, " errors, ");
    push_decimal(&mut head, result.warnings as u64);
    push_str(&mut head, " warnings)");
    lines.push(head);
    lines.push(String::new());
    let ghost top = seq![
        "⚑ Lint: "@ + decimal((result.errors + result.warnings) as nat) + " issue(s) found ("@ + decimal(
            result.errors as nat,
        ) + " errors, "@ + decimal(result.warnings as nat) + " warnings)"@,
        ""@,
    ];
    assert(lines@.len() == 2);
    assert(lines@[1]@ == ""@);
    assert(lines@[0]@ == top[0]);
    assert(views(lines@) =~= top);
    // The files named, each once, then in string order.
    let mut seen: Vec<String> = Vec::new();
    let mut i: usize = 0;
    while i < vs.len()
        invariant
            i <= vs@.len() == all.len(),
            all == vviews(vs@),
            views(seen@) == first_files(all.take(i as int)),
        decreases vs.len() - i,
    {
        assert(all.take(i + 1).drop_last() =~= all.take(i as int));
        assert(all[i as int] == vs@[i as int]@);
        if !contains_str(&seen, vs[i].file.as_str()) {
            let ghost before = seen@;
            seen.push(vs[i].file.clone());
            assert(views(seen@) =~= views(before).push(vs@[i as int].file@));
        }
        i = i + 1;
    }
    assert(all.take(all.len() as int) =~= all);
    let files = sort_strings(&seen);
    let ghost fs = views(files@);
    let mut k: usize = 0;
    while k < files.len()
        invariant
            k <= files@.len() == fs.len(),
            fs == views(files@),
            all == vviews(vs@),
            views(lines@) == top + file_blocks(all, fs.take(k as int)),
        decreases files.len() - k,
    {
        assert(fs.take(k + 1).drop_last() =~= fs.take(k as int));
        assert(fs[k as int] == files@[k as int]@);
        let f = files[k].as_str();
        let mut name = String::from_str("  ");
        push_str(&mut name, f);
        let ghost before_name = lines@;
        lines.push(name);
        assert(views(lines@) =~= views(before_name).push("  "@ + fs[k as int]));
        let ghost mid = views(lines@);
        let mut j: usize = 0;
        while j < vs.len()
            invariant
                j <= vs@.len() == all.len(),
                all == vviews(vs@),
                views(lines@) == mid + file_lines(all.take(j as int), f@),
            decreases vs.len() - j,
        {
            assert(all.take(j + 1).drop_last() =~= all.take(j as int));
            assert(all[j as int] == vs@[j as int]@);
            if str_eq(vs[j].file.as_str(), f) {
                let l = violation_line_of(&vs[j]);
                let ghost before = lines@;
                lines.push(l);
                assert(views(lines@) =~= views(before).push(l@));
            }
            j = j + 1;
        }
        assert(all.take(all.len() as int) =~= all);
        let ghost before = lines@;
        lines.push(String::new());
        proof {
            reveal_strlit("");
        }
        assert(lines@[before.len() as int]@ == ""@);
        assert(views(lines@) =~= views(before).push(""@));
        assert(fs.take(k + 1).last() == fs[k as int]);
        assert(views(lines@) =~= top + file_blocks(all, fs.take(k + 1)));
        k = k + 1;
    }
    assert(fs.take(fs.len() as int) =~= fs);
    if result.errors > 0 || (flags.strict && result.warnings > 0) {
        let mut t = String::from_str("  Lint FAILED (");
        push_decimal(&mut t, result.errors as u64);
        push_str(&mut t, " error");
        if result.errors != 1 {
            push_str(&mut t, "s");
        }
        push_str(&mut t, ", ");
        push_decimal(&mut t, result.warnings as u64);
        push_str(&mut t, " warning");
        if result.warnings != 1 {
            push_str(&mut t, "s");
        }
        push_str(&mut t, ")");
        let ghost before = lines@;
        lines.push(t);
        assert(t@ =~= "  Lint FAILED ("@ + decimal(result.errors as nat) + " error"@ + plural(result.errors as nat)
            + ", "@ + decimal(result.warnings as nat) + " warning"@ + plural(result.warnings as nat) + ")"@);
        assert(views(lines@) =~= views(before).push(t@));
    }
    assert(views(lines@) =~= lint_report_spec(all, result.errors as nat, result.warnings as nat, flags.json, flags.strict));
    lines
}


/// The lint runner program up to the files it lints.
pub const LINT_RUNNER_HEAD: &'static str = r###"
// Lint runner for GlassHouse CLI
var sources = "###;

/// The lint runner program between the files and the strict flag.
pub const LINT_RUNNER_MID: &'static str = r###";
var strictMode = "###;

/// The rest of the lint runner program: the checks, and the findings
/// printed as JSON.
pub const LINT_RUNNER_TAIL: &'static str = r###";

// Lint each source file
var allViolations = [];

function lintSource(source, filename) {
    var violations = [];
    var s = source;

    // Strict mode check
    if (s.indexOf("'use strict'") === -1 && s.indexOf('"use strict"') === -1) {
        violations.push({
            file: filename, line: 0, col: 0,
            severity: 'warning',
            rule: 'STRICT_MODE',
            message: 'Missing "use strict" directive'
        });
    }

    // Security: eval()
    if (/\beval\s*\(/.test(s)) {
        violations.push({
            file: filename, line: 0, col: 0,
            severity: 'error',
            rule: 'SECURITY',
            message: 'Uses forbidden eval()'
        });
    }

    // Security: new Function()
    if (/\bnew\s+Function\s*\(/.test(s)) {
        violations.push({
            file: filename, line: 0, col: 0,
            severity: 'error',
            rule: 'SECURITY',
            message: 'Uses forbidden new Function()'
        });
    }

    // Security: document.write()
    if (/document\.write\s*\(/.test(s)) {
        violations.push({
            file: filename, line: 0, col: 0,
            severity: 'error',
            rule: 'SECURITY',
            message: 'Uses forbidden document.write()'
        });
    }

    // Security: innerHTML assignment
    if (/innerHTML\s*=/.test(s) && !/\/\/\s*ok/.test(s)) {
        violations.push({
            file: filename, line: 0, col: 0,
            severity: 'warning',
            rule: 'SECURITY',
            message: 'Direct innerHTML assignment — use dom.safe() or textContent'
        });
    }

    // Security: setTimeout/setInterval with string
    if (/setTimeout\s*\(\s*['"][\s\S]*?['"]/.test(s) ||
        /setInterval\s*\(\s*['"][\s\S]*?['"]/.test(s)) {
        violations.push({
            file: filename, line: 0, col: 0,
            severity: 'warning',
            rule: 'SECURITY',
            message: 'setTimeout/setInterval with string argument — use function reference'
        });
    }

    // Size check: file over 40KB
    if (s.length > 40960) {
        violations.push({
            file: filename, line: 0, col: 0,
            severity: 'error',
            rule: 'MAX_SIZE',
            message: 'File size ' + s.length + 'B exceeds 40KB limit'
        });
    }

    // Type safety: Pebble/Shine without propTypes
    if (/\bnew\s+Pebble\s*\(/.test(s) || /\bPebble\s*\(\s*\{/.test(s) ||
        /\bnew\s+Shine\s*\(/.test(s) || /\bShine\s*\(\s*\{/.test(s)) {
        if (!/\bpropTypes\b/.test(s)) {
            violations.push({
                file: filename, line: 0, col: 0,
                severity: 'error',
                rule: 'TYPE_SAFETY',
                message: 'Pebble/Shine must declare propTypes'
            });
        }
        if (/\b\.setState\b/.test(s) && !/\bstateTypes\b/.test(s)) {
            violations.push({
                file: filename, line: 0, col: 0,
                severity: 'warning',
                rule: 'TYPE_SAFETY',
                message: 'Uses setState without declaring stateTypes'
            });
        }
    }

    // Handler logic in Pebbles
    if (/\bnew\s+Pebble\s*\(/.test(s) || /\bPebble\s*\(\s*\{/.test(s)) {
        if (/\bfetch\s*\(/.test(s)) {
            violations.push({
                file: filename, line: 0, col: 0,
                severity: 'error',
                rule: 'HANDLER_LOGIC',
                message: 'fetch() in Pebble — extract to a Handler via this.use()'
            });
        }
        if (/\bXMLHttpRequest\b/.test(s)) {
            violations.push({
                file: filename, line: 0, col: 0,
                severity: 'error',
                rule: 'HANDLER_LOGIC',
                message: 'XMLHttpRequest in Pebble — extract to a Handler'
            });
        }
        if (/\blocalStorage\s*\./.test(s) || /\bsessionStorage\s*\./.test(s)) {
            violations.push({
                file: filename, line: 0, col: 0,
                severity: 'error',
                rule: 'HANDLER_LOGIC',
                message: 'Storage access in Pebble — extract to a Handler'
            });
        }
        if (/\bdocument\.cookie\b/.test(s)) {
            violations.push({
                file: filename, line: 0, col: 0,
                severity: 'error',
                rule: 'HANDLER_LOGIC',
                message: 'document.cookie in Pebble — extract to a Handler'
            });
        }
        if (/\bthis\.use\s*\(/.test(s) && !/\bhandlers\s*\:/.test(s) && !/\bhandlers\s*=/.test(s)) {
            violations.push({
                file: filename, line: 0, col: 0,
                severity: 'error',
                rule: 'HANDLER_UNDECLARED',
                message: 'Uses this.use() without declaring handlers array'
            });
        }
    }

    // TS-specific: use of 'any' type
    if (/:\s*any\b/.test(s)) {
        violations.push({
            file: filename, line: 0, col: 0,
            severity: 'warning',
            rule: 'TYPE_ANY',
            message: 'Use of "any" type — prefer explicit typing'
        });
    }

    return violations;
}

for (var i = 0; i < sources.length; i++) {
    var v = lintSource(sources[i].source, sources[i].file);
    for (var j = 0; j < v.length; j++) {
        allViolations.push(v[j]);
    }
}

// Output results as JSON to stdout
var out = JSON.stringify(allViolations);
print(out);
"###;

pub open spec fn bool_text(b: bool) -> Seq<char> {
    if b {
        "true"@
    } else {
        "false"@
    }
}

/// The lint runner program for `files` (each a path and its text), run with
/// the project's `glasshouse` and `lint` modules loaded.
pub open spec fn lint_runner_spec(root: Seq<char>, fs: Seq<(Seq<char>, Seq<char>)>, strict: bool) -> Seq<char> {
    LINT_RUNNER_HEAD@ + sources_json(root, fs) + LINT_RUNNER_MID@ + bool_text(strict) + LINT_RUNNER_TAIL@
}

/// The lint runner program.
pub fn lint_runner_code(root: &str, files: &[(String, String)], strict: bool) -> (r: String)
    ensures
        r@ == lint_runner_spec(root@, file_views(files@), strict),
{
    let mut s = String::from_str(LINT_RUNNER_HEAD);
    push_sources_json(&mut s, root, files);
    push_str(&mut s, LINT_RUNNER_MID);
    if strict {
        push_str(&mut s, "true");
    } else {
        push_str(&mut s, "false");
    }
    push_str(&mut s, LINT_RUNNER_TAIL);
    assert(s@ =~= lint_runner_spec(root@, file_views(files@), strict));
    s
}

/// The files that `--fix` rewrites, each with its new text: those among
/// `fs` (path and text) that declare no strict mode get `'use strict';` and
/// a line feed in front, in order.
pub open spec fn lint_fix_writes(fs: Seq<(Seq<char>, Seq<char>)>) -> Seq<(Seq<char>, Seq<char>)>
    decreases fs.len(),
{
    if fs.len() == 0 {
        Seq::empty()
    } else {
        let r = lint_fix_writes(fs.drop_last());
        if is_strict(fs.last().1) {
            r
        } else {
            r.push((fs.last().0, "'use strict';\n"@ + fs.last().1))
        }
    }
}

/// The line printed for each file that `--fix` rewrote, named relative to
/// the project root.
pub open spec fn lint_fix_lines(root: Seq<char>, ws: Seq<(Seq<char>, Seq<char>)>) -> Seq<Seq<char>> {
    ws.map_values(|w: (Seq<char>, Seq<char>)| "↻ Added strict mode to "@ + rel_path(root, w.0))
}

/// What `--fix` does to the files to lint (path and text): the files to
/// rewrite with their new text, and the lines to print.
pub fn lint_fix(root: &str, files: &[(String, String)]) -> (r: (Vec<(String, String)>, Vec<String>))
    ensures
        file_views(r.0@) == lint_fix_writes(file_views(files@)),
        views(r.1@) == lint_fix_lines(root@, lint_fix_writes(file_views(files@))),
{
    let ghost fv = file_views(files@);
    let mut writes: Vec<(String, String)> = Vec::new();
    let mut lines: Vec<String> = Vec::new();
    let mut i: usize = 0;
    assert(file_views(writes@) =~= lint_fix_writes(fv.take(0)));
    assert(views(lines@) =~= lint_fix_lines(root@, lint_fix_writes(fv.take(0))));
    while i < files.len()
        invariant
            i <= files@.len() == fv.len(),
            fv == file_views(files@),
            file_views(writes@) == lint_fix_writes(fv.take(i as int)),
            views(lines@) == lint_fix_lines(root@, lint_fix_writes(fv.take(i as int))),
        decreases files.len() - i,
    {
        assert(fv.take(i + 1).drop_last() =~= fv.take(i as int));
        assert(fv[i as int] == (files@[i as int].0@, files@[i as int].1@));
        let cv = to_chars(files[i].1.as_str());
        let strict = crate::audit::contains_text(&cv, "'use strict'") || crate::audit::contains_text(&cv, "\"use strict\"");
        if !strict {
            let mut text = String::from_str("'use strict';\n");
            push_str(&mut text, files[i].1.as_str());
            let ghost w0 = file_views(writes@);
            let ghost l0 = views(lines@);
            writes.push((files[i].0.clone(), text));
            assert(file_views(writes@) =~= w0.push((fv[i as int].0, "'use strict';\n"@ + fv[i as int].1)));
            let mut line = String::from_str("↻ Added strict mode to ");
            let rel = rel_path_of(root, files[i].0.as_str());
            push_str(&mut line, rel.as_str());
            lines.push(line);
            assert(views(lines@) =~= l0.push(line@));
            assert(lint_fix_lines(root@, lint_fix_writes(fv.take(i + 1))) =~= lint_fix_lines(root@, w0).push(line@));
        }
        i = i + 1;
    }
    assert(fv.take(fv.len() as int) =~= fv);
    (writes, lines)
}

} // verus!
