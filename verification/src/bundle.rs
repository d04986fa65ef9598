//! The build command: which sources go into a build, the programs that
//! compile and compact them, how their answers are read, the readable dev
//! bundle, and the pages of `dist/`.

use vstd::prelude::*;
use vstd::utf8::encode_utf8;
use crate::json::{JVal, Value, str_member, last_num, last_bool, last_val, model, model_items, model_pairs, parse, parse_spec, lemma_model_items_index, lemma_model_pairs_index};
use crate::num::{lexeme_u32, lexeme_to_u32, count_or_zero};
use crate::text::{str_eq, to_chars, trim, trim_chars, from_chars, push_str, push_char, views, quoted, push_quoted};
use crate::path::{rel_path, rel_path_of, ext_is, name_is};
use crate::order::{str_le, sort_strings};
use crate::lint::is_forbidden_js;
use crate::quickjs::{sources_json, file_views, push_sources_json};
use crate::dev_http::{cut_ok, cut200, cut_text, framework_names, framework_list, index_scripts, opt_views, push_index_scripts};
use crate::path::{file_name_spec, file_name};

verus! {

/// The forbidden JavaScript files among `ps`, each relative to the root,
/// in order.
pub open spec fn forbidden_rels(root: Seq<char>, ps: Seq<Seq<char>>) -> Seq<Seq<char>>
    decreases ps.len(),
{
    if ps.len() == 0 {
        Seq::empty()
    } else if is_forbidden_js(ps.last()) {
        forbidden_rels(root, ps.drop_last()).push(rel_path(root, ps.last()))
    } else {
        forbidden_rels(root, ps.drop_last())
    }
}

/// The JavaScript files that stop a build, among those found under `src/`
/// and `packages/`: each relative to the root, in string order.
pub fn forbidden_js_paths(root: &str, files: &[String]) -> (r: Vec<String>)
    ensures
        views(r@) == forbidden_rels(root@, views(files@)).sort_by(|a: Seq<char>, b: Seq<char>| str_le(a, b)),
{
    let ghost ps = views(files@);
    let mut found: Vec<String> = Vec::new();
    let mut i: usize = 0;
    while i < files.len()
        invariant
            i <= files@.len() == ps.len(),
            ps == views(files@),
            views(found@) == forbidden_rels(root@, ps.take(i as int)),
        decreases files.len() - i,
    {
        assert(ps.take(i + 1).drop_last() =~= ps.take(i as int));
        assert(ps[i as int] == files@[i as int]@);
        let p = files[i].as_str();
        if ext_is(p, "js") && !name_is(p, ".registry.json") {
            let r = rel_path_of(root, p);
            let ghost before = views(found@);
            found.push(r);
            assert(views(found@) =~= before.push(r@));
        }
        i = i + 1;
    }
    assert(ps.take(ps.len() as int) =~= ps);
    sort_strings(&found)
}

/// The program that compiles the TypeScript files, up to the files.
pub const COMPILE_ALL_HEAD: &'static str = r###"
var sources = "###;

/// The rest of the program that compiles the TypeScript files.
pub const COMPILE_ALL_TAIL: &'static str = r###";
var compiler = GlassHouse.require('ts-compiler');
var results = [];

for (var i = 0; i < sources.length; i++) {
    var sf = sources[i];
    var result = compiler.compile(sf.source, {});
    results.push({
        file: sf.file,
        success: result.success,
        js: result.js || '',
        diagnostics: result.diagnostics || [],
        parseTime: result.parseTime || 0,
        totalTime: result.totalTime || 0
    });
}

print(JSON.stringify(results));
"###;

/// The program that compiles the TypeScript files `fs` (path and text).
pub open spec fn compile_all_spec(root: Seq<char>, fs: Seq<(Seq<char>, Seq<char>)>) -> Seq<char> {
    COMPILE_ALL_HEAD@ + sources_json(root, fs) + COMPILE_ALL_TAIL@
}

/// The program that compiles the TypeScript files.
pub fn compile_all_code(root: &str, files: &[(String, String)]) -> (r: String)
    ensures
        r@ == compile_all_spec(root@, file_views(files@)),
{
    let mut s = String::from_str(COMPILE_ALL_HEAD);
    push_sources_json(&mut s, root, files);
    push_str(&mut s, COMPILE_ALL_TAIL);
    s
}

/// The program that compacts the sources, up to the sources.
pub const COMPACT_HEAD: &'static str = r###"
var sources = "###;

/// The rest of the program that compacts the sources.
pub const COMPACT_TAIL: &'static str = r###";
var compactor = GlassHouse.require('hyper-compactor');
var result = compactor.compactAll(sources);

// Build the bundle string
var bundle = '/* Glass House GHC2 */\n';
bundle += 'var _GH="' + result.binaryBase64 + '";\n';
bundle += 'GlassHouse.require("decompressor").loadFromBase64(_GH);\n';

// Output JSON with bundle + stats
var out = {
    bundle: bundle,
    renamed: result.totalRenamed || 0,
    poolEntries: result.poolEntries || 0,
    reduction: result.reduction || 0,
    originalSize: result.originalSize || 0,
    binarySize: result.binarySize || 0,
    time: result.time || 0
};

print(JSON.stringify(out));
"###;

/// How a character of a source is written for the compactor: backslash,
/// quote, line feed and carriage return escaped.
pub open spec fn src_char(c: char) -> Seq<char> {
    if c == '\\' {
        seq!['\\', '\\']
    } else if c == '"' {
        seq!['\\', '"']
    } else if c == '\n' {
        seq!['\\', 'n']
    } else if c == '\r' {
        seq!['\\', 'r']
    } else {
        seq![c]
    }
}

pub open spec fn src_text(s: Seq<char>) -> Seq<char>
    decreases s.len(),
{
    if s.len() == 0 {
        Seq::empty()
    } else {
        src_text(s.drop_last()) + src_char(s.last())
    }
}

/// One source for the compactor: its name and its escaped text.
pub open spec fn compact_member(m: (Seq<char>, Seq<char>)) -> Seq<char> {
    "\""@ + quoted(m.0, false) + "\":\""@ + src_text(m.1) + "\""@
}

pub open spec fn compact_members(ms: Seq<(Seq<char>, Seq<char>)>) -> Seq<char>
    decreases ms.len(),
{
    if ms.len() == 0 {
        Seq::empty()
    } else if ms.len() == 1 {
        compact_member(ms[0])
    } else {
        compact_members(ms.drop_last()) + ","@ + compact_member(ms.last())
    }
}

/// The program that compacts the sources `ms` (name and text).
pub open spec fn compact_spec(ms: Seq<(Seq<char>, Seq<char>)>) -> Seq<char> {
    COMPACT_HEAD@ + "{"@ + compact_members(ms) + "}"@ + COMPACT_TAIL@
}

fn push_src_text(out: &mut String, s: &str)
    ensures
        final(out)@ == old(out)@ + src_text(s@),
{
    let v = to_chars(s);
    let mut i: usize = 0;
    while i < v.len()
        invariant
            v@ == s@,
            i <= v@.len(),
            out@ == old(out)@ + src_text(v@.take(i as int)),
        decreases v.len() - i,
    {
        let c = v[i];
        let ghost before = out@;
        if c == '\\' {
            push_char(out, '\\');
            push_char(out, '\\');
        } else if c == '"' {
            push_char(out, '\\');
            push_char(out, '"');
        } else if c == '\n' {
            push_char(out, '\\');
            push_char(out, 'n');
        } else if c == '\r' {
            push_char(out, '\\');
            push_char(out, 'r');
        } else {
            push_char(out, c);
        }
        assert(v@.take(i + 1).drop_last() =~= v@.take(i as int));
        assert(out@ =~= before + src_char(c));
        i = i + 1;
    }
    assert(v@.take(v@.len() as int) =~= v@);
}

/// The program that compacts the sources (name and text).
pub fn compact_code(sources: &[(String, String)]) -> (r: String)
    ensures
        r@ == compact_spec(file_views(sources@)),
{
    let ghost ms = file_views(sources@);
    let mut s = String::from_str(COMPACT_HEAD);
    push_str(&mut s, "{");
    let ghost head = s@;
    let mut i: usize = 0;
    while i < sources.len()
        invariant
            i <= sources@.len() == ms.len(),
            ms == file_views(sources@),
            s@ == head + compact_members(ms.take(i as int)),
        decreases sources.len() - i,
    {
        assert(ms.take(i + 1).drop_last() =~= ms.take(i as int));
        assert(ms[i as int] == (sources@[i as int].0@, sources@[i as int].1@));
        let ghost before = s@;
        if i > 0 {
            push_str(&mut s, ",");
        }
        push_str(&mut s, "\"");
        push_quoted(&mut s, sources[i].0.as_str(), false);
        push_str(&mut s, "\":\"");
        push_src_text(&mut s, sources[i].1.as_str());
        push_str(&mut s, "\"");
        proof {
            if i == 0 {
                assert(ms.take(1) =~= seq![ms[0]]);
            }
        }
        assert(s@ =~= head + compact_members(ms.take(i + 1)));
        i = i + 1;
    }
    assert(ms.take(ms.len() as int) =~= ms);
    push_str(&mut s, "}");
    push_str(&mut s, COMPACT_TAIL);
    s
}

/// The line of one diagnostic object: its severity and its message.
pub open spec fn diag_line(ps: Seq<(Seq<char>, JVal)>) -> Seq<char> {
    "    ["@ + str_member(ps, "severity"@) + "] "@ + str_member(ps, "message"@) + "\n"@
}

/// The lines of the diagnostic objects among `items`, in order.
pub open spec fn diag_lines(items: Seq<JVal>) -> Seq<char>
    decreases items.len(),
{
    if items.len() == 0 {
        Seq::empty()
    } else {
        diag_lines(items.drop_last()) + match items.last() {
            JVal::Obj(ps) => diag_line(ps),
            _ => Seq::empty(),
        }
    }
}

/// The diagnostics of a compiled file as they are printed: a line for each
/// diagnostic object when they are an array, else nothing.
pub open spec fn format_diagnostics_spec(v: JVal) -> Seq<char> {
    match v {
        JVal::Arr(items) => diag_lines(items),
        _ => Seq::empty(),
    }
}

fn last_str_of(pairs: &Vec<(String, Value)>, key: &str) -> (r: String)
    ensures
        r@ == str_member(model_pairs(pairs@), key@),
{
    proof {
        lemma_model_pairs_index(pairs@);
    }
    let ghost ps = model_pairs(pairs@);
    let mut m = String::new();
    proof {
        reveal_strlit("");
    }
    let mut i: usize = 0;
    while i < pairs.len()
        invariant
            i <= pairs@.len() == ps.len(),
            ps == model_pairs(pairs@),
            forall|j: int| 0 <= j < ps.len() ==> #[trigger] ps[j] == (pairs@[j].0@, model(pairs@[j].1)),
            m@ == str_member(ps.take(i as int), key@),
        decreases pairs.len() - i,
    {
        assert(ps.take(i + 1).drop_last() =~= ps.take(i as int));
        assert(ps[i as int] == (pairs@[i as int].0@, model(pairs@[i as int].1)));
        match &pairs[i].1 {
            Value::String(s) => {
                if str_eq(pairs[i].0.as_str(), key) {
                    m = s.clone();
                }
            },
            _ => {},
        }
        i = i + 1;
    }
    assert(ps.take(ps.len() as int) =~= ps);
    m
}

/// The diagnostics of a compiled file as they are printed.
pub fn format_diagnostics(val: &Value) -> (r: String)
    ensures
        r@ == format_diagnostics_spec(model(*val)),
{
    let mut out = String::new();
    proof {
        reveal_strlit("");
    }
    match val {
        Value::Array(items) => {
            proof {
                lemma_model_items_index(items@);
            }
            let ghost xs = model_items(items@);
            let mut i: usize = 0;
            while i < items.len()
                invariant
                    i <= items@.len() == xs.len(),
                    xs == model_items(items@),
                    forall|j: int| 0 <= j < xs.len() ==> #[trigger] xs[j] == model(items@[j]),
                    out@ == diag_lines(xs.take(i as int)),
                decreases items.len() - i,
            {
                assert(xs.take(i + 1).drop_last() =~= xs.take(i as int));
                assert(xs[i as int] == model(items@[i as int]));
                let ghost before = out@;
                match &items[i] {
                    Value::Object(dp) => {
                        let sev = last_str_of(dp, "severity");
                        let msg = last_str_of(dp, "message");
                        push_str(&mut out, "    [");
                        push_str(&mut out, sev.as_str());
                        push_str(&mut out, "] ");
                        push_str(&mut out, msg.as_str());
                        push_str(&mut out, "\n");
                        assert(out@ =~= before + diag_line(model_pairs(dp@)));
                    },
                    _ => {
                        assert(out@ =~= before + Seq::<char>::empty());
                    },
                }
                i = i + 1;
            }
            assert(xs.take(xs.len() as int) =~= xs);
        },
        _ => {},
    }
    out
}

/// What the compiler's answer says of one file.
pub struct FileScan {
    pub file: Seq<char>,
    pub js: Seq<char>,
    pub success: bool,
    pub diags: Seq<char>,
}

pub open spec fn apply_file_member(sc: FileScan, m: (Seq<char>, JVal)) -> FileScan {
    if m.0 == "file"@ {
        match m.1 {
            JVal::Str(s) => FileScan { file: s, ..sc },
            _ => sc,
        }
    } else if m.0 == "js"@ {
        match m.1 {
            JVal::Str(s) => FileScan { js: s, ..sc },
            _ => sc,
        }
    } else if m.0 == "success"@ {
        match m.1 {
            JVal::Bool(b) => FileScan { success: b, ..sc },
            _ => sc,
        }
    } else if m.0 == "diagnostics"@ {
        FileScan { diags: format_diagnostics_spec(m.1), ..sc }
    } else {
        sc
    }
}

/// What a compiled file's object says: its last `file` and `js` strings,
/// whether its last `success` flag is `true`, and its diagnostics as they
/// are printed, from its last `diagnostics` member (nothing where there is
/// none).
pub open spec fn file_scan(ps: Seq<(Seq<char>, JVal)>) -> FileScan {
    FileScan {
        file: str_member(ps, "file"@),
        js: str_member(ps, "js"@),
        success: last_bool(ps, "success"@) == Some(true),
        diags: match last_val(ps, "diagnostics"@) {
            Some(v) => format_diagnostics_spec(v),
            None => Seq::empty(),
        },
    }
}

proof fn lemma_file_scan_step(ps: Seq<(Seq<char>, JVal)>, i: int)
    requires
        0 <= i < ps.len(),
    ensures
        file_scan(ps.take(i + 1)) == apply_file_member(file_scan(ps.take(i)), ps[i]),
{
    let q = ps.take(i + 1);
    assert(q.drop_last() =~= ps.take(i));
    assert(q.last() == ps[i]);
    reveal_strlit("file");
    reveal_strlit("js");
    reveal_strlit("success");
    reveal_strlit("diagnostics");
    assert("js"@.len() != "file"@.len() && "js"@.len() != "success"@.len() && "js"@.len() != "diagnostics"@.len());
    assert("diagnostics"@.len() != "file"@.len() && "diagnostics"@.len() != "success"@.len());
    assert("file"@.len() != "success"@.len());
    let a = file_scan(q);
    let b = apply_file_member(file_scan(ps.take(i)), ps[i]);
    assert(a.file == b.file);
    assert(a.js == b.js);
    assert(a.success == b.success);
    assert(a.diags == b.diags);
}

/// The lines printed for a file that did not compile and has diagnostics.
pub open spec fn file_errors(sc: FileScan) -> Seq<Seq<char>> {
    if !sc.success && sc.diags.len() > 0 {
        seq!["  ✗ Compile error in "@ + sc.file + ":"@, sc.diags]
    } else {
        Seq::empty()
    }
}

/// The files that produced JavaScript, with it, in order.
pub open spec fn compiled_of(items: Seq<JVal>) -> Seq<(Seq<char>, Seq<char>)>
    decreases items.len(),
{
    if items.len() == 0 {
        Seq::empty()
    } else {
        let r = compiled_of(items.drop_last());
        match items.last() {
            JVal::Obj(ps) => if file_scan(ps).js.len() > 0 {
                r.push((file_scan(ps).file, file_scan(ps).js))
            } else {
                r
            },
            _ => r,
        }
    }
}

/// The lines printed for the files that did not compile, in order.
pub open spec fn compile_errors_of(items: Seq<JVal>) -> Seq<Seq<char>>
    decreases items.len(),
{
    if items.len() == 0 {
        Seq::empty()
    } else {
        compile_errors_of(items.drop_last()) + match items.last() {
            JVal::Obj(ps) => file_errors(file_scan(ps)),
            _ => Seq::empty(),
        }
    }
}

/// The closing line when some file did not compile.
pub const COMPILE_FAILED: &'static str = "glas: TypeScript compilation had errors. Fix them and try again.";

/// The outcome of compiling the TypeScript files, from the compiler's
/// printed answer: the files that produced JavaScript, and the lines to
/// print for those that did not; or the error when the answer is not a
/// JSON array.
pub open spec fn compile_all_result_spec(out: Seq<char>) -> Result<(Seq<(Seq<char>, Seq<char>)>, Seq<Seq<char>>), Seq<char>> {
    let t = trim(out);
    match parse_spec(t) {
        Some(JVal::Arr(items)) => {
            let es = compile_errors_of(items);
            Ok((compiled_of(items), if es.len() > 0 { es.push(COMPILE_FAILED@) } else { es }))
        },
        _ => Err("Failed to parse TS compiler output: "@ + t),
    }
}

struct FileOut {
    file: String,
    js: String,
    success: bool,
    diags: String,
}

fn scan_file(pairs: &Vec<(String, Value)>) -> (r: FileOut)
    ensures
        (FileScan { file: r.file@, js: r.js@, success: r.success, diags: r.diags@ }) == file_scan(model_pairs(pairs@)),
{
    proof {
        lemma_model_pairs_index(pairs@);
        reveal_strlit("");
    }
    let ghost ps = model_pairs(pairs@);
    let mut o = FileOut { file: String::new(), js: String::new(), success: false, diags: String::new() };
    assert(ps.take(0) =~= Seq::<(Seq<char>, JVal)>::empty());
    let mut i: usize = 0;
    while i < pairs.len()
        invariant
            i <= pairs@.len() == ps.len(),
            ps == model_pairs(pairs@),
            forall|j: int| 0 <= j < ps.len() ==> #[trigger] ps[j] == (pairs@[j].0@, model(pairs@[j].1)),
            (FileScan { file: o.file@, js: o.js@, success: o.success, diags: o.diags@ }) == file_scan(ps.take(i as int)),
        decreases pairs.len() - i,
    {
        proof {
            lemma_file_scan_step(ps, i as int);
        }
        assert(ps[i as int] == (pairs@[i as int].0@, model(pairs@[i as int].1)));
        let k = pairs[i].0.as_str();
        if str_eq(k, "file") {
            match &pairs[i].1 {
                Value::String(s) => {
                    o.file = s.clone();
                },
                _ => {},
            }
        } else if str_eq(k, "js") {
            match &pairs[i].1 {
                Value::String(s) => {
                    o.js = s.clone();
                },
                _ => {},
            }
        } else if str_eq(k, "success") {
            match &pairs[i].1 {
                Value::Boolean(b) => {
                    o.success = *b;
                },
                _ => {},
            }
        } else if str_eq(k, "diagnostics") {
            o.diags = format_diagnostics(&pairs[i].1);
        }
        i = i + 1;
    }
    assert(ps.take(ps.len() as int) =~= ps);
    o
}

/// Reads the compiler's answer for the TypeScript files.
pub fn compile_all_result(output: &str) -> (r: Result<(Vec<(String, String)>, Vec<String>), String>)
    requires
        encode_utf8(output@).len() < usize::MAX,
    ensures
        match r {
            Ok((c, e)) => compile_all_result_spec(output@) == Ok::<(Seq<(Seq<char>, Seq<char>)>, Seq<Seq<char>>), Seq<char>>((file_views(c@), views(e@))),
            Err(e) => compile_all_result_spec(output@) == Err::<(Seq<(Seq<char>, Seq<char>)>, Seq<Seq<char>>), Seq<char>>(e@),
        },
{
    let t = trim_chars(to_chars(output).as_slice());
    let text = from_chars(t.as_slice());
    proof {
        crate::text::lemma_encode_len_trim(output@);
    }
    match parse(text.as_str()) {
        Some(Value::Array(items)) => {
            proof {
                lemma_model_items_index(items@);
            }
            let ghost xs = model_items(items@);
            let mut compiled: Vec<(String, String)> = Vec::new();
            let mut errors: Vec<String> = Vec::new();
            assert(file_views(compiled@) =~= Seq::<(Seq<char>, Seq<char>)>::empty());
            assert(views(errors@) =~= Seq::<Seq<char>>::empty());
            let mut i: usize = 0;
            while i < items.len()
                invariant
                    i <= items@.len() == xs.len(),
                    xs == model_items(items@),
                    forall|j: int| 0 <= j < xs.len() ==> #[trigger] xs[j] == model(items@[j]),
                    file_views(compiled@) == compiled_of(xs.take(i as int)),
                    views(errors@) == compile_errors_of(xs.take(i as int)),
                decreases items.len() - i,
            {
                assert(xs.take(i + 1).drop_last() =~= xs.take(i as int));
                assert(xs[i as int] == model(items@[i as int]));
                match &items[i] {
                    Value::Object(pairs) => {
                        let f = scan_file(pairs);
                        let ghost e0 = views(errors@);
                        if !f.success && f.diags.as_str().unicode_len() > 0 {
                            let mut l = String::from_str("  ✗ Compile error in ");
                            push_str(&mut l, f.file.as_str());
                            push_str(&mut l, ":");
                            errors.push(l);
                            errors.push(f.diags.clone());
                            assert(views(errors@) =~= e0 + file_errors(file_scan(model_pairs(pairs@))));
                        } else {
                            assert(views(errors@) =~= e0 + file_errors(file_scan(model_pairs(pairs@))));
                        }
                        if f.js.as_str().unicode_len() > 0 {
                            let ghost c0 = file_views(compiled@);
                            compiled.push((f.file, f.js));
                            assert(file_views(compiled@) =~= c0.push((file_scan(model_pairs(pairs@)).file, file_scan(model_pairs(pairs@)).js)));
                        }
                    },
                    _ => {
                        assert(views(errors@) =~= views(errors@) + Seq::<Seq<char>>::empty());
                    },
                }
                i = i + 1;
            }
            assert(xs.take(xs.len() as int) =~= xs);
            if errors.len() > 0 {
                let ghost e0 = views(errors@);
                errors.push(String::from_str(COMPILE_FAILED));
                assert(views(errors@) =~= e0.push(COMPILE_FAILED@));
            }
            Ok((compiled, errors))
        },
        _ => {
            let mut e = String::from_str("Failed to parse TS compiler output: ");
            push_str(&mut e, text.as_str());
            Err(e)
        },
    }
}

/// What the compactor's answer says: the bundle, how many identifiers it
/// renamed, and how many strings it pooled.
pub struct CompactScan {
    pub bundle: Seq<char>,
    pub renamed: nat,
    pub pool: nat,
}

/// What the compactor's answer object says: its last `bundle` string, and
/// the counts in its last `renamed` and `poolEntries` numbers (0 where
/// there is none).
pub open spec fn compact_scan(ps: Seq<(Seq<char>, JVal)>) -> CompactScan {
    CompactScan {
        bundle: str_member(ps, "bundle"@),
        renamed: count_or_zero(last_num(ps, "renamed"@)),
        pool: count_or_zero(last_num(ps, "poolEntries"@)),
    }
}

/// What one more member of the answer object changes.
pub open spec fn apply_compact_member(sc: CompactScan, m: (Seq<char>, JVal)) -> CompactScan {
    match m.1 {
        JVal::Str(s) => if m.0 == "bundle"@ { CompactScan { bundle: s, ..sc } } else { sc },
        JVal::Num(t) => if m.0 == "renamed"@ {
            CompactScan { renamed: lexeme_u32(t), ..sc }
        } else if m.0 == "poolEntries"@ {
            CompactScan { pool: lexeme_u32(t), ..sc }
        } else {
            sc
        },
        _ => sc,
    }
}

proof fn lemma_compact_scan_step(ps: Seq<(Seq<char>, JVal)>, i: int)
    requires
        0 <= i < ps.len(),
    ensures
        compact_scan(ps.take(i + 1)) == apply_compact_member(compact_scan(ps.take(i)), ps[i]),
{
    let q = ps.take(i + 1);
    assert(q.drop_last() =~= ps.take(i));
    assert(q.last() == ps[i]);
    reveal_strlit("renamed");
    reveal_strlit("poolEntries");
    assert("renamed"@.len() != "poolEntries"@.len());
    let a = compact_scan(q);
    let b = apply_compact_member(compact_scan(ps.take(i)), ps[i]);
    assert(a.bundle == b.bundle);
    assert(a.renamed == b.renamed);
    assert(a.pool == b.pool);
}

/// The outcome of a compaction, from the compactor's printed answer: the
/// bundle and its counts, or the error.
pub open spec fn compact_result_spec(out: Seq<char>) -> Result<(Seq<char>, nat, nat), Seq<char>> {
    let t = trim(out);
    match parse_spec(t) {
        Some(JVal::Obj(ps)) => {
            let sc = compact_scan(ps);
            if sc.bundle.len() == 0 {
                Err("Hyper-compactor produced empty output"@)
            } else {
                Ok((sc.bundle, sc.renamed, sc.pool))
            }
        },
        _ => Err("Failed to parse hyper-compactor output: "@ + cut200(t)),
    }
}

/// Reads the compactor's answer.
pub fn compact_result(output: &str) -> (r: Result<(String, u32, u32), String>)
    requires
        encode_utf8(output@).len() < usize::MAX,
        (parse_spec(trim(output@)) matches Some(JVal::Obj(_))) || cut_ok(trim(output@)),
    ensures
        match r {
            Ok((b, n, p)) => compact_result_spec(output@) == Ok::<(Seq<char>, nat, nat), Seq<char>>((b@, n as nat, p as nat)),
            Err(e) => compact_result_spec(output@) == Err::<(Seq<char>, nat, nat), Seq<char>>(e@),
        },
{
    let t = trim_chars(to_chars(output).as_slice());
    let text = from_chars(t.as_slice());
    proof {
        crate::text::lemma_encode_len_trim(output@);
    }
    match parse(text.as_str()) {
        Some(Value::Object(pairs)) => {
            proof {
                lemma_model_pairs_index(pairs@);
                reveal_strlit("");
            }
            let ghost ps = model_pairs(pairs@);
            let mut bundle = String::new();
            let mut renamed: u32 = 0;
            let mut pool: u32 = 0;
            let mut i: usize = 0;
            while i < pairs.len()
                invariant
                    i <= pairs@.len() == ps.len(),
                    ps == model_pairs(pairs@),
                    forall|j: int| 0 <= j < ps.len() ==> #[trigger] ps[j] == (pairs@[j].0@, model(pairs@[j].1)),
                    (CompactScan { bundle: bundle@, renamed: renamed as nat, pool: pool as nat }) == compact_scan(ps.take(i as int)),
                decreases pairs.len() - i,
            {
                proof {
                    lemma_compact_scan_step(ps, i as int);
                }
                assert(ps[i as int] == (pairs@[i as int].0@, model(pairs@[i as int].1)));
                let k = pairs[i].0.as_str();
                match &pairs[i].1 {
                    Value::String(s) => {
                        if str_eq(k, "bundle") {
                            bundle = s.clone();
                        }
                    },
                    Value::Number(n) => {
                        if str_eq(k, "renamed") {
                            renamed = lexeme_to_u32(n.as_str());
                        } else if str_eq(k, "poolEntries") {
                            pool = lexeme_to_u32(n.as_str());
                        }
                    },
                    _ => {},
                }
                i = i + 1;
            }
            assert(ps.take(ps.len() as int) =~= ps);
            if bundle.as_str().unicode_len() == 0 {
                Err(String::from_str("Hyper-compactor produced empty output"))
            } else {
                Ok((bundle, renamed, pool))
            }
        },
        _ => {
            let mut e = String::from_str("Failed to parse hyper-compactor output: ");
            if text.as_str().as_bytes().len() > 200 {
                let c = cut_text(&t);
                push_str(&mut e, c.as_str());
            } else {
                push_str(&mut e, text.as_str());
            }
            Err(e)
        },
    }
}

/// The text of the first framework file named `name`, when there is one
/// (`None` inside when it could not be read).
pub open spec fn first_named(fw: Seq<(Seq<char>, Option<Seq<char>>)>, name: Seq<char>) -> Option<Option<Seq<char>>>
    decreases fw.len(),
{
    if fw.len() == 0 {
        None
    } else if file_name_spec(fw[0].0) == Some(name) {
        Some(fw[0].1)
    } else {
        first_named(fw.drop_first(), name)
    }
}

/// The texts of the framework files named in `order`, in that order, for
/// those that could be read.
pub open spec fn ordered_texts(order: Seq<Seq<char>>, fw: Seq<(Seq<char>, Option<Seq<char>>)>) -> Seq<Seq<char>>
    decreases order.len(),
{
    if order.len() == 0 {
        Seq::empty()
    } else {
        let r = ordered_texts(order.drop_last(), fw);
        match first_named(fw, order.last()) {
            Some(Some(c)) => r.push(c),
            _ => r,
        }
    }
}

/// A path's file name, or nothing.
pub open spec fn name_or_empty(p: Seq<char>) -> Seq<char> {
    match file_name_spec(p) {
        Some(n) => n,
        None => Seq::empty(),
    }
}

/// The texts of the framework files whose names are not in the dependency
/// order, for those that could be read, in order.
pub open spec fn other_texts(fw: Seq<(Seq<char>, Option<Seq<char>>)>) -> Seq<Seq<char>>
    decreases fw.len(),
{
    if fw.len() == 0 {
        Seq::empty()
    } else {
        let r = other_texts(fw.drop_last());
        match fw.last().1 {
            Some(c) => if !framework_names().contains(name_or_empty(fw.last().0)) { r.push(c) } else { r },
            None => r,
        }
    }
}

pub open spec fn js_texts(cs: Seq<(Seq<char>, Seq<char>)>) -> Seq<Seq<char>> {
    cs.map_values(|c: (Seq<char>, Seq<char>)| c.1)
}

/// The parts of the dev bundle: the framework files in dependency order,
/// the other framework files, and the compiled files.
pub open spec fn dev_parts(fw: Seq<(Seq<char>, Option<Seq<char>>)>, compiled: Seq<(Seq<char>, Seq<char>)>) -> Seq<Seq<char>> {
    ordered_texts(framework_names(), fw) + other_texts(fw) + js_texts(compiled)
}

/// Each part followed by a line feed.
pub open spec fn part_lines(ps: Seq<Seq<char>>) -> Seq<char>
    decreases ps.len(),
{
    if ps.len() == 0 {
        Seq::empty()
    } else {
        part_lines(ps.drop_last()) + ps.last() + "\n"@
    }
}

/// The start of the dev bundle.
pub const DEV_BUNDLE_HEAD: &'static str = "/* Glass House dev build */\n(function(){\n\"use strict\";\n";

/// The end of the dev bundle.
pub const DEV_BUNDLE_TAIL: &'static str = "\n})();\n";

/// The dev bundle and how many files went into it.
pub open spec fn dev_bundle_spec(fw: Seq<(Seq<char>, Option<Seq<char>>)>, compiled: Seq<(Seq<char>, Seq<char>)>) -> (Seq<char>, nat) {
    (DEV_BUNDLE_HEAD@ + part_lines(dev_parts(fw, compiled)) + DEV_BUNDLE_TAIL@, dev_parts(fw, compiled).len())
}

pub open spec fn fw_views(fw: Seq<(String, Option<String>)>) -> Seq<(Seq<char>, Option<Seq<char>>)> {
    fw.map_values(|f: (String, Option<String>)| (f.0@, crate::utils::opt_view(f.1)))
}

fn first_named_of(fw: &[(String, Option<String>)], name: &str) -> (r: Option<Option<String>>)
    ensures
        match r {
            Some(Some(c)) => first_named(fw_views(fw@), name@) == Some(Some(c@)),
            Some(None) => first_named(fw_views(fw@), name@) == Some(None::<Seq<char>>),
            None => first_named(fw_views(fw@), name@) is None,
        },
{
    let ghost v = fw_views(fw@);
    let mut i: usize = 0;
    assert(v.skip(0) =~= v);
    while i < fw.len()
        invariant
            i <= fw@.len() == v.len(),
            v == fw_views(fw@),
            first_named(v.skip(i as int), name@) == first_named(v, name@),
        decreases fw.len() - i,
    {
        assert(v.skip(i as int)[0] == v[i as int]);
        assert(v.skip(i as int).drop_first() =~= v.skip(i + 1));
        assert(v[i as int] == (fw@[i as int].0@, crate::utils::opt_view(fw@[i as int].1)));
        if name_is(fw[i].0.as_str(), name) {
            return Some(fw[i].1.clone());
        }
        i = i + 1;
    }
    None
}

fn in_framework_order(n: &str) -> (r: bool)
    ensures
        r == framework_names().contains(n@),
{
    let fl = framework_list();
    let mut j: usize = 0;
    while j < fl.len()
        invariant
            j <= fl@.len(),
            fl@.map_values(|x: &str| x@) == framework_names(),
            forall|q: int| 0 <= q < j ==> fl@[q]@ != n@,
        decreases fl.len() - j,
    {
        if str_eq(fl[j], n) {
            proof {
                let fnv = fl@.map_values(|x: &str| x@);
                assert(fnv[j as int] == n@);
            }
            return true;
        }
        j = j + 1;
    }
    proof {
        let fnv = fl@.map_values(|x: &str| x@);
        if framework_names().contains(n@) {
            let q = choose|q: int| 0 <= q < fnv.len() && fnv[q] == n@;
            assert(fl@[q]@ == n@);
        }
    }
    false
}

/// The readable dev bundle: the framework files (each with its text when it
/// could be read) in dependency order and then the others, then the
/// compiled files; and how many files went into it.
pub fn dev_bundle(framework: &[(String, Option<String>)], compiled: &[(String, String)]) -> (r: (String, usize))
    ensures
        (r.0@, r.1 as nat) == dev_bundle_spec(fw_views(framework@), file_views(compiled@)),
{
    let ghost fv = fw_views(framework@);
    let ghost cv = file_views(compiled@);
    let mut parts: Vec<String> = Vec::new();
    let order = framework_list();
    let ghost on = order@.map_values(|x: &str| x@);
    assert(views(parts@) =~= ordered_texts(on.take(0), fv));
    let mut i: usize = 0;
    while i < order.len()
        invariant
            i <= order@.len() == on.len(),
            on == order@.map_values(|x: &str| x@),
            on == framework_names(),
            fv == fw_views(framework@),
            views(parts@) == ordered_texts(on.take(i as int), fv),
        decreases order.len() - i,
    {
        assert(on.take(i + 1).drop_last() =~= on.take(i as int));
        assert(on[i as int] == order@[i as int]@);
        match first_named_of(framework, order[i]) {
            Some(Some(c)) => {
                let ghost before = views(parts@);
                parts.push(c);
                assert(views(parts@) =~= before.push(c@));
            },
            _ => {},
        }
        i = i + 1;
    }
    assert(on.take(on.len() as int) =~= on);
    let ghost p1 = views(parts@);
    let mut k: usize = 0;
    assert(p1 + other_texts(fv.take(0)) =~= p1);
    while k < framework.len()
        invariant
            k <= framework@.len() == fv.len(),
            fv == fw_views(framework@),
            views(parts@) == p1 + other_texts(fv.take(k as int)),
        decreases framework.len() - k,
    {
        assert(fv.take(k + 1).drop_last() =~= fv.take(k as int));
        assert(fv[k as int] == (framework@[k as int].0@, crate::utils::opt_view(framework@[k as int].1)));
        match &framework[k].1 {
            Some(c) => {
                let known = match file_name(framework[k].0.as_str()) {
                    Some(n) => in_framework_order(n.as_str()),
                    None => {
                        proof {
                            reveal_strlit("");
                        }
                        assert(name_or_empty(fv[k as int].0) == ""@);
                        in_framework_order("")
                    },
                };
                assert(known == framework_names().contains(name_or_empty(fv[k as int].0)));
                let ghost before = views(parts@);
                if !known {
                    parts.push(c.clone());
                    assert(views(parts@) =~= before.push(c@));
                }
                assert(views(parts@) =~= p1 + other_texts(fv.take(k + 1)));
            },
            None => {
                assert(views(parts@) =~= p1 + other_texts(fv.take(k + 1)));
            },
        }
        k = k + 1;
    }
    assert(fv.take(fv.len() as int) =~= fv);
    let ghost p2 = views(parts@);
    let mut m: usize = 0;
    assert(js_texts(cv.take(0)) =~= Seq::<Seq<char>>::empty());
    assert(p2 + js_texts(cv.take(0)) =~= p2);
    while m < compiled.len()
        invariant
            m <= compiled@.len() == cv.len(),
            cv == file_views(compiled@),
            views(parts@) == p2 + js_texts(cv.take(m as int)),
        decreases compiled.len() - m,
    {
        let ghost before = views(parts@);
        parts.push(compiled[m].1.clone());
        assert(cv[m as int] == (compiled@[m as int].0@, compiled@[m as int].1@));
        assert(js_texts(cv.take(m + 1)) =~= js_texts(cv.take(m as int)).push(cv[m as int].1));
        assert(views(parts@) =~= before.push(compiled@[m as int].1@));
        m = m + 1;
    }
    assert(cv.take(cv.len() as int) =~= cv);
    let ghost pv = views(parts@);
    assert(pv =~= dev_parts(fv, cv));
    let mut s = String::from_str(DEV_BUNDLE_HEAD);
    let ghost head = s@;
    let mut j: usize = 0;
    while j < parts.len()
        invariant
            j <= parts@.len() == pv.len(),
            pv == views(parts@),
            s@ == head + part_lines(pv.take(j as int)),
        decreases parts.len() - j,
    {
        assert(pv.take(j + 1).drop_last() =~= pv.take(j as int));
        assert(pv[j as int] == parts@[j as int]@);
        push_str(&mut s, parts[j].as_str());
        push_str(&mut s, "\n");
        j = j + 1;
    }
    assert(pv.take(pv.len() as int) =~= pv);
    push_str(&mut s, DEV_BUNDLE_TAIL);
    let n = parts.len();
    (s, n)
}

/// The `dist/index.html` of a production build: it loads the bundle.
pub const PROD_INDEX_HTML: &'static str = "<!DOCTYPE html><html lang=\"en\"><head><meta charset=\"utf-8\"><meta name=\"viewport\" content=\"width=device-width,initial-scale=1.0\"><title>Glass House</title><script src=\"glasshouse.bundle.js\"></script></head><body><div id=\"app\"></div></body></html>";

/// The `dist/index.html` of a dev build up to its scripts.
pub const DEV_BUILD_INDEX_HEAD: &'static str = "<!DOCTYPE html><html lang=\"en\"><head><meta charset=\"utf-8\"><meta name=\"viewport\" content=\"width=device-width,initial-scale=1.0\"><title>Glass House</title>\n";

/// The end of the `dist/index.html` of a dev build.
pub const DEV_BUILD_INDEX_TAIL: &'static str = "</head><body><div id=\"app\"></div></body></html>";

/// The `dist/index.html` of a dev build: the framework scripts and the
/// TypeScript files, each named from `dist/`.
pub open spec fn dev_build_index_spec(
    root: Seq<char>,
    gh_names: Option<Seq<Seq<char>>>,
    src_files: Seq<Seq<char>>,
    pkg_files: Seq<Seq<char>>,
) -> Seq<char> {
    DEV_BUILD_INDEX_HEAD@ + index_scripts(root, gh_names, src_files, pkg_files, "../glasshouse/"@, "../"@)
        + DEV_BUILD_INDEX_TAIL@
}

/// The `dist/index.html` of a dev build. `gh_names` are the names of the
/// entries of `glasshouse/` when it is there; `src_files` and `pkg_files`
/// are the files found under `src/` and `packages/`.
pub fn dev_build_index(root: &str, gh_names: &Option<Vec<String>>, src_files: &[String], pkg_files: &[String]) -> (r: String)
    ensures
        r@ == dev_build_index_spec(root@, opt_views(*gh_names), views(src_files@), views(pkg_files@)),
{
    let mut s = String::from_str(DEV_BUILD_INDEX_HEAD);
    push_index_scripts(&mut s, root, gh_names, src_files, pkg_files, "../glasshouse/", "../");
    push_str(&mut s, DEV_BUILD_INDEX_TAIL);
    s
}

} // verus!
