//! What the dev server answers: the routing of a request, the responses,
//! and the JavaScript sent when TypeScript does not compile.

use vstd::prelude::*;
use crate::text::{str_eq, push_str, push_char, to_chars, first_words, first_two_words, occurs_at, has_prefix};
use crate::path::{extension_spec, ext_is, drop_slashes, join_path, join_path_of, swap_ext2, swap_ext2_of, lemma_ext2_len, file_name_spec, file_name, rel_path, rel_path_of};
use crate::server::{response_text, response, js_response, drop_slashes_of};
use crate::lint::JS_FORBIDDEN;
use crate::dev::DevState;
use crate::lint::{is_ts, ts_only, lint_files};
use crate::order::{path_le, str_le, sort_strings};
use crate::text::views;
use crate::json::{JVal, Value, str_member, last_bool, items_under, model, model_items, model_pairs, parse, parse_spec, lemma_model_items_index, lemma_model_pairs_index};
use crate::text::{trim, trim_chars, from_chars, quoted, push_quoted, lemma_encode_len_trim};
use vstd::utf8::encode_utf8;

verus! {

/// What the dev server does with a request.
pub enum DevRoute {
    /// The request line has no path: answer 404.
    NotFound,
    /// The browser's ping: answer the time of the last change and the errors.
    Ping,
    /// Send the index page.
    Index,
    /// Compile this TypeScript file and send the JavaScript.
    Compile(String),
    /// A JavaScript file under `src/` or `packages/`: compile the TypeScript
    /// file of the same name (`ts`, else `tsx`) if there is one, else refuse
    /// with 403 naming `shown`.
    JsFile { ts: String, tsx: String, shown: String },
    /// Send the file the request path names.
    File(String),
}

/// The route for a request line, the project root being `root`.
pub open spec fn dev_route_spec(line: Seq<char>, root: Seq<char>, r: DevRoute) -> bool {
    let (method, rp) = first_words(line);
    if rp.len() == 0 {
        r is NotFound
    } else if rp == "/__glas_ping"@ && method == "GET"@ {
        r is Ping
    } else if rp == "/"@ || rp == "/index.html"@ {
        r is Index
    } else {
        let path = drop_slashes(rp);
        let fp = join_path(root, path);
        if extension_spec(fp) == Some("js"@) && (occurs_at(fp, join_path(root, "src"@), 0) || occurs_at(
            fp,
            join_path(root, "packages"@),
            0,
        )) {
            r matches DevRoute::JsFile { ts, tsx, shown } && ts@ == swap_ext2(fp, "ts"@) && tsx@ == swap_ext2(
                fp,
                "tsx"@,
            ) && shown@ == path
        } else if extension_spec(fp) == Some("ts"@) || extension_spec(fp) == Some("tsx"@) {
            r matches DevRoute::Compile(f) && f@ == fp
        } else {
            r matches DevRoute::File(p) && p@ == rp
        }
    }
}

/// Routes a request line of the dev server.
pub fn dev_route(line: &str, root: &str) -> (r: DevRoute)
    ensures
        dev_route_spec(line@, root@, r),
{
    let (method, rp) = first_two_words(line);
    if rp.as_str().unicode_len() == 0 {
        return DevRoute::NotFound;
    }
    if str_eq(rp.as_str(), "/__glas_ping") && str_eq(method.as_str(), "GET") {
        return DevRoute::Ping;
    }
    if str_eq(rp.as_str(), "/") || str_eq(rp.as_str(), "/index.html") {
        return DevRoute::Index;
    }
    let path = drop_slashes_of(rp.as_str());
    let fp = join_path_of(root, path.as_str());
    if ext_is(fp.as_str(), "js") {
        proof {
            reveal_strlit("src");
            reveal_strlit("packages");
        }
        let src = join_path_of(root, "src");
        let pkg = join_path_of(root, "packages");
        if has_prefix(fp.as_str(), src.as_str()) || has_prefix(fp.as_str(), pkg.as_str()) {
            proof {
                reveal_strlit("js");
                lemma_ext2_len(fp@);
            }
            let ts = swap_ext2_of(fp.as_str(), "ts");
            let tsx = swap_ext2_of(fp.as_str(), "tsx");
            return DevRoute::JsFile { ts, tsx, shown: path };
        }
    }
    if ext_is(fp.as_str(), "ts") || ext_is(fp.as_str(), "tsx") {
        return DevRoute::Compile(fp);
    }
    DevRoute::File(rp)
}

/// The text of the 403 answer for a JavaScript file in the project's code.
pub open spec fn js_refusal(shown: Seq<char>) -> Seq<char> {
    JS_FORBIDDEN@ + "\n\nFile: "@ + shown + "\n\nConvert this file to .ts or .tsx."@
}

/// The 403 answer for a JavaScript file in the project's code.
pub fn js_refusal_response(shown: &str) -> (r: String)
    ensures
        r@ == response_text("403 Forbidden"@, "text/plain; charset=utf-8"@, ""@, js_refusal(shown@)),
{
    let mut body = String::from_str(JS_FORBIDDEN);
    push_str(&mut body, "\n\nFile: ");
    push_str(&mut body, shown);
    push_str(&mut body, "\n\nConvert this file to .ts or .tsx.");
    response("403 Forbidden", "text/plain; charset=utf-8", "", body.as_str())
}

/// How a character is written inside a single-quoted JavaScript string:
/// backslash and quote are escaped, and with `controls` also line feed,
/// carriage return and tab.
pub open spec fn sq_char(c: char, controls: bool) -> Seq<char> {
    if c == '\\' {
        seq!['\\', '\\']
    } else if c == '\'' {
        seq!['\\', '\'']
    } else if controls && c == '\n' {
        seq!['\\', 'n']
    } else if controls && c == '\r' {
        seq!['\\', 'r']
    } else if controls && c == '\t' {
        seq!['\\', 't']
    } else {
        seq![c]
    }
}

pub open spec fn sq_text(s: Seq<char>, controls: bool) -> Seq<char>
    decreases s.len(),
{
    if s.len() == 0 {
        Seq::empty()
    } else {
        sq_text(s.drop_last(), controls) + sq_char(s.last(), controls)
    }
}

fn push_sq(out: &mut String, s: &str, controls: bool)
    ensures
        final(out)@ == old(out)@ + sq_text(s@, controls),
{
    let v = to_chars(s);
    let mut i: usize = 0;
    while i < v.len()
        invariant
            v@ == s@,
            i <= v@.len(),
            out@ == old(out)@ + sq_text(v@.take(i as int), controls),
        decreases v.len() - i,
    {
        let c = v[i];
        let ghost before = out@;
        if c == '\\' {
            push_char(out, '\\');
            push_char(out, '\\');
        } else if c == '\'' {
            push_char(out, '\\');
            push_char(out, '\'');
        } else if controls && c == '\n' {
            push_char(out, '\\');
            push_char(out, 'n');
        } else if controls && c == '\r' {
            push_char(out, '\\');
            push_char(out, 'r');
        } else if controls && c == '\t' {
            push_char(out, '\\');
            push_char(out, 't');
        } else {
            push_char(out, c);
        }
        assert(v@.take(i + 1).drop_last() =~= v@.take(i as int));
        assert(out@ =~= before + sq_char(c, controls));
        i = i + 1;
    }
    assert(v@.take(v@.len() as int) =~= v@);
}

/// A text as a single-quoted JavaScript string.
pub open spec fn js_string(s: Seq<char>) -> Seq<char> {
    seq!['\''] + sq_text(s, true) + seq!['\'']
}

/// A text as a single-quoted JavaScript string.
pub fn escape_js_string(s: &str) -> (r: String)
    ensures
        r@ == js_string(s@),
{
    let mut out = String::new();
    push_char(&mut out, '\'');
    push_sq(&mut out, s, true);
    push_char(&mut out, '\'');
    assert(out@ =~= js_string(s@));
    out
}

/// The script sent in place of a file that does not compile: it logs the
/// file's name and the error in the browser's console.
pub open spec fn compile_error_js(file: Seq<char>, err: Seq<char>) -> Seq<char> {
    let name = match file_name_spec(file) {
        Some(n) => n,
        None => Seq::empty(),
    };
    "console.error('GlassHouse TS Compile Error in "@ + sq_text(name, false) + ":');\nconsole.error("@ + js_string(err)
        + ");\n"@
}

/// The error shown in the browser for a file that does not compile.
pub open spec fn compile_error_line(root: Seq<char>, file: Seq<char>, err: Seq<char>) -> Seq<char> {
    "✗ "@ + rel_path(root, file) + ": "@ + err
}

/// The answer for a compiled file when its JavaScript is cached.
pub fn cached_response(state: &DevState, file: &str) -> (r: Option<String>)
    requires
        state.wf(),
    ensures
        match r {
            Some(t) => state.compiled().contains_key(file@) && t@ == response_text(
                "200 OK"@,
                "application/javascript; charset=utf-8"@,
                ""@,
                state.compiled()[file@],
            ),
            None => !state.compiled().contains_key(file@),
        },
{
    match state.cached(file) {
        Some(js) => Some(js_response(js.as_str())),
        None => None,
    }
}

/// The answer once `file` was compiled: its JavaScript, which is cached;
/// or, when it did not compile, a script that logs the error, and the error
/// is kept to be shown in the browser.
pub fn compiled_response(state: &mut DevState, root: &str, file: &str, result: Result<String, String>) -> (r: String)
    requires
        old(state).wf(),
    ensures
        final(state).wf(),
        final(state).modules() == old(state).modules(),
        match result {
            Ok(js) => {
                &&& r@ == response_text("200 OK"@, "application/javascript; charset=utf-8"@, ""@, js@)
                &&& final(state).compiled() == old(state).compiled().insert(file@, js@)
                &&& final(state).error_list() == old(state).error_list()
            },
            Err(e) => {
                &&& r@ == response_text(
                    "200 OK"@,
                    "application/javascript; charset=utf-8"@,
                    ""@,
                    compile_error_js(file@, e@),
                )
                &&& final(state).compiled() == old(state).compiled()
                &&& final(state).error_list() == old(state).error_list().push(compile_error_line(root@, file@, e@))
            },
        },
{
    match result {
        Ok(js) => {
            let resp = js_response(js.as_str());
            state.store(file, js);
            resp
        },
        Err(e) => {
            let mut body = String::from_str("console.error('GlassHouse TS Compile Error in ");
            match file_name(file) {
                Some(n) => push_sq(&mut body, n.as_str(), false),
                None => {
                    proof {
                        assert(sq_text(Seq::<char>::empty(), false) =~= Seq::<char>::empty());
                    }
                },
            }
            push_str(&mut body, ":');\nconsole.error(");
            let q = escape_js_string(e.as_str());
            push_str(&mut body, q.as_str());
            push_str(&mut body, ");\n");
            assert(body@ =~= compile_error_js(file@, e@));
            let resp = js_response(body.as_str());
            let rel = rel_path_of(root, file);
            let mut line = String::from_str("✗ ");
            push_str(&mut line, rel.as_str());
            push_str(&mut line, ": ");
            push_str(&mut line, e.as_str());
            state.push_error(line);
            resp
        },
    }
}


/// The program that compiles one TypeScript text, up to the text.
pub const COMPILE_HEAD: &'static str = r###"
var source = ""###;

/// The rest of the compile program: it prints the compiler's answer as
/// JSON.
pub const COMPILE_TAIL: &'static str = r###"";
var compiler = GlassHouse.require('ts-compiler');
var result = compiler.compile(source, {});

var out = {
    success: result.success,
    js: result.js || '',
    diagnostics: result.diagnostics || []
};

print(JSON.stringify(out));
"###;

/// The program that compiles `source`.
pub open spec fn compile_code_spec(source: Seq<char>) -> Seq<char> {
    COMPILE_HEAD@ + quoted(source, true) + COMPILE_TAIL@
}

/// The program that compiles `source`.
pub fn ts_compile_code(source: &str) -> (r: String)
    ensures
        r@ == compile_code_spec(source@),
{
    let mut s = String::from_str(COMPILE_HEAD);
    push_quoted(&mut s, source, true);
    push_str(&mut s, COMPILE_TAIL);
    s
}

/// The message of a diagnostic object: its last `message` that is a
/// string, or nothing.
pub open spec fn diag_message(ps: Seq<(Seq<char>, JVal)>) -> Seq<char> {
    str_member(ps, "message"@)
}

/// The non-empty messages of the diagnostic objects, in order.
pub open spec fn diags_of(items: Seq<JVal>) -> Seq<Seq<char>>
    decreases items.len(),
{
    if items.len() == 0 {
        Seq::empty()
    } else {
        let r = diags_of(items.drop_last());
        match items.last() {
            JVal::Obj(ps) => if diag_message(ps).len() > 0 { r.push(diag_message(ps)) } else { r },
            _ => r,
        }
    }
}

/// What the compiler's answer says: the JavaScript, whether it succeeded,
/// and the messages of its diagnostics.
pub struct CompileScan {
    pub js: Seq<char>,
    pub success: bool,
    pub diags: Seq<Seq<char>>,
}

/// What the compiler's answer object says: its last `js` string, whether
/// its last `success` flag is `true`, and the messages of the diagnostics
/// in all its `diagnostics` arrays.
pub open spec fn compile_scan(ps: Seq<(Seq<char>, JVal)>) -> CompileScan {
    CompileScan {
        js: str_member(ps, "js"@),
        success: last_bool(ps, "success"@) == Some(true),
        diags: diags_of(items_under(ps, "diagnostics"@)),
    }
}

proof fn lemma_diags_of_append(a: Seq<JVal>, b: Seq<JVal>)
    ensures
        diags_of(a + b) == diags_of(a) + diags_of(b),
    decreases b.len(),
{
    if b.len() == 0 {
        assert(a + b =~= a);
        assert(diags_of(a) + diags_of(b) =~= diags_of(a));
    } else {
        lemma_diags_of_append(a, b.drop_last());
        assert((a + b).drop_last() =~= a + b.drop_last());
        assert((a + b).last() == b.last());
        match b.last() {
            JVal::Obj(ps) => {
                if diag_message(ps).len() > 0 {
                    assert(diags_of(a) + diags_of(b.drop_last()).push(diag_message(ps)) =~= (diags_of(a)
                        + diags_of(b.drop_last())).push(diag_message(ps)));
                }
            },
            _ => {},
        }
    }
}

/// The texts joined by `"; "`.
pub open spec fn join_semi(ds: Seq<Seq<char>>) -> Seq<char>
    decreases ds.len(),
{
    if ds.len() == 0 {
        Seq::empty()
    } else if ds.len() == 1 {
        ds[0]
    } else {
        join_semi(ds.drop_last()) + "; "@ + ds.last()
    }
}

/// The UTF-8 width of a character.
pub open spec fn char_width(c: char) -> nat {
    encode_utf8(seq![c]).len()
}

/// The characters at the start of `t` that fit in `n` bytes of UTF-8.
pub open spec fn prefix_bytes(t: Seq<char>, n: nat) -> Seq<char>
    decreases t.len(),
{
    if t.len() == 0 || n < char_width(t[0]) {
        Seq::empty()
    } else {
        seq![t[0]] + prefix_bytes(t.drop_first(), (n - char_width(t[0])) as nat)
    }
}

/// Whether the first 200 bytes of `t` end on a character boundary (or `t`
/// is no longer than that), so that they can be cut off.
pub open spec fn cut_ok(t: Seq<char>) -> bool {
    encode_utf8(t).len() <= 200 || encode_utf8(prefix_bytes(t, 200)).len() == 200
}

/// At most the first 200 bytes of `t`.
pub open spec fn cut200(t: Seq<char>) -> Seq<char> {
    if encode_utf8(t).len() > 200 {
        prefix_bytes(t, 200)
    } else {
        t
    }
}

/// The outcome of a compile from the compiler's printed answer: the
/// JavaScript, with a warning line first when there were diagnostics, or
/// the error.
pub open spec fn compile_result_spec(out: Seq<char>) -> Result<Seq<char>, Seq<char>> {
    let t = trim(out);
    match parse_spec(t) {
        Some(JVal::Obj(ps)) => {
            let sc = compile_scan(ps);
            if !sc.success || sc.diags.len() > 0 {
                if sc.js.len() > 0 {
                    Ok("console.warn('TS warnings:');\n"@ + sc.js)
                } else {
                    Err(join_semi(sc.diags))
                }
            } else if sc.js.len() == 0 {
                Err("TypeScript compilation produced empty output"@)
            } else {
                Ok(sc.js)
            }
        },
        _ => Err("Failed to parse TS compiler output: "@ + cut200(t)),
    }
}

proof fn lemma_char_width(c: char)
    ensures
        char_width(c) == (if (c as u32) <= 0x7F {
            1nat
        } else if (c as u32) <= 0x7FF {
            2nat
        } else if (c as u32) <= 0xFFFF {
            3nat
        } else {
            4nat
        }),
{
    reveal_with_fuel(encode_utf8, 2);
    assert(seq![c].drop_first() =~= Seq::<char>::empty());
    vstd::utf8::char_is_scalar(c);
}

pub fn width_of(c: char) -> (w: usize)
    ensures
        w == char_width(c),
        1 <= w <= 4,
{
    proof {
        lemma_char_width(c);
    }
    let u = c as u32;
    if u <= 0x7F {
        1
    } else if u <= 0x7FF {
        2
    } else if u <= 0xFFFF {
        3
    } else {
        4
    }
}

/// The characters of `t` that fit in its first 200 bytes.
pub(crate) fn cut_text(t: &Vec<char>) -> (r: String)
    ensures
        r@ == prefix_bytes(t@, 200),
{
    let mut i: usize = 0;
    let mut used: usize = 0;
    assert(t@.skip(0) =~= t@);
    assert(t@.take(0) =~= Seq::<char>::empty());
    while i < t.len() && used + width_of(t[i]) <= 200
        invariant
            i <= t@.len(),
            used <= 200,
            prefix_bytes(t@, 200) == t@.take(i as int) + prefix_bytes(t@.skip(i as int), (200 - used) as nat),
        decreases t.len() - i,
    {
        let w = width_of(t[i]);
        let ghost rest = t@.skip(i as int);
        assert(rest[0] == t@[i as int]);
        assert(rest.drop_first() =~= t@.skip(i + 1));
        assert(t@.take(i + 1) =~= t@.take(i as int) + seq![t@[i as int]]);
        used = used + w;
        i = i + 1;
    }
    proof {
        let rest = t@.skip(i as int);
        if i < t.len() {
            assert(rest[0] == t@[i as int]);
        }
        assert(prefix_bytes(rest, (200 - used) as nat) =~= Seq::<char>::empty());
    }
    assert(t@.take(i as int) + Seq::<char>::empty() =~= t@.take(i as int));
    assert(t@.subrange(0, i as int) =~= t@.take(i as int));
    crate::text::string_of_range(t.as_slice(), 0, i)
}

fn diag_message_of(pairs: &Vec<(String, Value)>) -> (r: String)
    ensures
        r@ == diag_message(model_pairs(pairs@)),
{
    proof {
        lemma_model_pairs_index(pairs@);
    }
    let ghost ps = model_pairs(pairs@);
    let mut m = String::new();
    proof {
        reveal_strlit("");
    }
    let mut i: usize = 0;
    while i < pairs.len()
        invariant
            i <= pairs@.len() == ps.len(),
            ps == model_pairs(pairs@),
            forall|j: int| 0 <= j < ps.len() ==> #[trigger] ps[j] == (pairs@[j].0@, model(pairs@[j].1)),
            m@ == diag_message(ps.take(i as int)),
        decreases pairs.len() - i,
    {
        assert(ps.take(i + 1).drop_last() =~= ps.take(i as int));
        assert(ps[i as int] == (pairs@[i as int].0@, model(pairs@[i as int].1)));
        match &pairs[i].1 {
            Value::String(s) => {
                if str_eq(pairs[i].0.as_str(), "message") {
                    m = s.clone();
                }
            },
            _ => {},
        }
        i = i + 1;
    }
    assert(ps.take(ps.len() as int) =~= ps);
    m
}

fn push_diags(diags: &mut Vec<String>, items: &Vec<Value>)
    ensures
        crate::text::views(final(diags)@) == crate::text::views(old(diags)@) + diags_of(model_items(items@)),
{
    proof {
        lemma_model_items_index(items@);
    }
    let ghost xs = model_items(items@);
    let mut i: usize = 0;
    assert(crate::text::views(diags@) =~= crate::text::views(old(diags)@) + diags_of(xs.take(0)));
    while i < items.len()
        invariant
            i <= items@.len() == xs.len(),
            xs == model_items(items@),
            forall|j: int| 0 <= j < xs.len() ==> #[trigger] xs[j] == model(items@[j]),
            crate::text::views(diags@) == crate::text::views(old(diags)@) + diags_of(xs.take(i as int)),
        decreases items.len() - i,
    {
        assert(xs.take(i + 1).drop_last() =~= xs.take(i as int));
        assert(xs[i as int] == model(items@[i as int]));
        match &items[i] {
            Value::Object(dp) => {
                let m = diag_message_of(dp);
                if m.as_str().unicode_len() > 0 {
                    let ghost before = diags@;
                    diags.push(m);
                    assert(crate::text::views(diags@) =~= crate::text::views(before).push(m@));
                }
            },
            _ => {},
        }
        i = i + 1;
    }
    assert(xs.take(xs.len() as int) =~= xs);
}

/// Whether a printed answer can be read without cutting its text inside a
/// character: it is a JSON object, or its first 200 bytes (which an error
/// message quotes) end on a character boundary.
pub fn answer_readable(output: &str) -> (r: bool)
    requires
        encode_utf8(output@).len() < usize::MAX,
    ensures
        r == ((parse_spec(trim(output@)) matches Some(JVal::Obj(_))) || cut_ok(trim(output@))),
{
    let t = trim_chars(to_chars(output).as_slice());
    let text = from_chars(t.as_slice());
    proof {
        lemma_encode_len_trim(output@);
    }
    match parse(text.as_str()) {
        Some(Value::Object(_)) => true,
        _ => {
            if text.as_str().as_bytes().len() <= 200 {
                true
            } else {
                let c = cut_text(&t);
                c.as_str().as_bytes().len() == 200
            }
        },
    }
}

/// Reads the compiler's printed answer.
pub fn compile_result(output: &str) -> (r: Result<String, String>)
    requires
        encode_utf8(output@).len() < usize::MAX,
        (parse_spec(trim(output@)) matches Some(JVal::Obj(_))) || cut_ok(trim(output@)),
    ensures
        match r {
            Ok(js) => compile_result_spec(output@) == Ok::<Seq<char>, Seq<char>>(js@),
            Err(e) => compile_result_spec(output@) == Err::<Seq<char>, Seq<char>>(e@),
        },
{
    let t = trim_chars(to_chars(output).as_slice());
    let text = from_chars(t.as_slice());
    proof {
        lemma_encode_len_trim(output@);
    }
    match parse(text.as_str()) {
        Some(Value::Object(pairs)) => {
            proof {
                lemma_model_pairs_index(pairs@);
            }
            let ghost ps = model_pairs(pairs@);
            let mut js = String::new();
            let mut success = false;
            let mut diags: Vec<String> = Vec::new();
            proof {
                reveal_strlit("");
            }
            assert(crate::text::views(diags@) =~= Seq::<Seq<char>>::empty());
            let mut i: usize = 0;
            while i < pairs.len()
                invariant
                    i <= pairs@.len() == ps.len(),
                    ps == model_pairs(pairs@),
                    forall|j: int| 0 <= j < ps.len() ==> #[trigger] ps[j] == (pairs@[j].0@, model(pairs@[j].1)),
                    (CompileScan { js: js@, success, diags: crate::text::views(diags@) }) == compile_scan(ps.take(i as int)),
                decreases pairs.len() - i,
            {
                assert(ps.take(i + 1).drop_last() =~= ps.take(i as int));
                assert(ps[i as int] == (pairs@[i as int].0@, model(pairs@[i as int].1)));
                let k = pairs[i].0.as_str();
                match &pairs[i].1 {
                    Value::String(s) => {
                        if str_eq(k, "js") {
                            js = s.clone();
                        }
                    },
                    Value::Boolean(b) => {
                        if str_eq(k, "success") {
                            success = *b;
                        }
                    },
                    Value::Array(items) => {
                        if str_eq(k, "diagnostics") {
                            proof {
                                lemma_diags_of_append(items_under(ps.take(i as int), "diagnostics"@), model_items(items@));
                            }
                            push_diags(&mut diags, items);
                        }
                    },
                    _ => {},
                }
                i = i + 1;
            }
            assert(ps.take(ps.len() as int) =~= ps);
            let ghost dv = crate::text::views(diags@);
            if !success || diags.len() > 0 {
                if js.as_str().unicode_len() > 0 {
                    let mut w = String::from_str("console.warn('TS warnings:');\n");
                    push_str(&mut w, js.as_str());
                    return Ok(w);
                }
                let mut err = String::new();
                let mut k: usize = 0;
                while k < diags.len()
                    invariant
                        k <= diags@.len() == dv.len(),
                        dv == crate::text::views(diags@),
                        err@ == join_semi(dv.take(k as int)),
                    decreases diags.len() - k,
                {
                    assert(dv.take(k + 1).drop_last() =~= dv.take(k as int));
                    assert(dv[k as int] == diags@[k as int]@);
                    if k > 0 {
                        push_str(&mut err, "; ");
                    }
                    push_str(&mut err, diags[k].as_str());
                    proof {
                        if k == 0 {
                            assert(dv.take(1) =~= seq![dv[0]]);
                            assert(err@ =~= dv[0]);
                        }
                    }
                    assert(err@ =~= join_semi(dv.take(k + 1)));
                    k = k + 1;
                }
                assert(dv.take(dv.len() as int) =~= dv);
                return Err(err);
            }
            if js.as_str().unicode_len() == 0 {
                return Err(String::from_str("TypeScript compilation produced empty output"));
            }
            Ok(js)
        },
        _ => {
            let mut e = String::from_str("Failed to parse TS compiler output: ");
            if text.as_str().as_bytes().len() > 200 {
                let c = cut_text(&t);
                push_str(&mut e, c.as_str());
            } else {
                push_str(&mut e, text.as_str());
            }
            Err(e)
        },
    }
}


/// The framework's scripts, in the order they depend on each other.
pub open spec fn framework_names() -> Seq<Seq<char>> {
    seq!["glasshouse.js"@, "types.js"@, "dom.js"@, "pebble.js"@, "handler.js"@, "shine.js"@, "pane.js"@, "ts-lexer.js"@, "ts-parser.js"@, "ts-binder.js"@, "ts-checker.js"@, "ts-emitter.js"@, "ts-compiler.js"@, "resolver.js"@, "tree-shaker.js"@, "hyper-compactor.js"@, "rom.js"@, "decompressor.js"@, "builder.js"@, "package-manager.js"@, "package-validator.js"@, "package-scaffold.js"@, "lint.js"@, "auditor.js"@, "wcag-validator.js"@, "cli.js"@]
}

pub(crate) fn framework_list() -> (r: Vec<&'static str>)
    ensures
        r@.map_values(|x: &str| x@) == framework_names(),
{
    let r = vec!["glasshouse.js", "types.js", "dom.js", "pebble.js", "handler.js", "shine.js", "pane.js", "ts-lexer.js", "ts-parser.js", "ts-binder.js", "ts-checker.js", "ts-emitter.js", "ts-compiler.js", "resolver.js", "tree-shaker.js", "hyper-compactor.js", "rom.js", "decompressor.js", "builder.js", "package-manager.js", "package-validator.js", "package-scaffold.js", "lint.js", "auditor.js", "wcag-validator.js", "cli.js"];
    assert(r@.map_values(|x: &str| x@) =~= framework_names());
    r
}

/// The hot-reload script of the dev index page: it polls the ping endpoint,
/// reloads on a change, and shows the errors.
pub const RELOAD_SCRIPT: &'static str = r###"
<script>
var _g_timestamp = 0;
var _g_errors = [];
function _g_ping() {
    fetch('/__glas_ping')
        .then(function(r) { return r.json(); })
        .then(function(data) {
            if (_g_timestamp && data.timestamp !== _g_timestamp) {
                location.reload();
            }
            _g_timestamp = data.timestamp;
            _g_errors = data.errors || [];
            if (_g_errors.length > 0) {
                // Show errors in a dev overlay
                _g_showErrors(_g_errors);
            } else {
                _g_hideErrors();
            }
            setTimeout(_g_ping, 2000);
        })
        .catch(function() {
            setTimeout(_g_ping, 2000);
        });
}
function _g_showErrors(errors) {
    var el = document.getElementById('_glas_errors');
    if (!el) {
        el = document.createElement('div');
        el.id = '_glas_errors';
        el.style.cssText = 'position:fixed;bottom:0;left:0;right:0;background:#dc2626;color:#fff;padding:12px 16px;font-family:monospace;font-size:12px;z-index:99999;max-height:200px;overflow-y:auto;';
        document.body.appendChild(el);
    }
    el.innerHTML = '<strong>GLAS ERRORS</strong><br>' +
        errors.map(function(e) { return e.replace(/</g,'&lt;').replace(/>/g,'&gt;'); }).join('<br>');
    el.style.display = 'block';
}
function _g_hideErrors() {
    var el = document.getElementById('_glas_errors');
    if (el) el.style.display = 'none';
}
_g_ping();
</script>
"###;

/// The dev index page up to its scripts.
pub const DEV_INDEX_HEAD: &'static str = "<!DOCTYPE html><html lang=\"en\"><head><meta charset=\"utf-8\"><meta name=\"viewport\" content=\"width=device-width,initial-scale=1.0\"><title>Glass House (dev)</title>\n";

/// The dev index page after its scripts.
pub const DEV_INDEX_TAIL: &'static str = "</head><body><div id=\"app\"></div></body></html>";

/// A script element.
pub open spec fn script_tag(src: Seq<char>) -> Seq<char> {
    "  <script src=\""@ + src + "\"></script>\n"@
}

/// Script elements for `names`, each source being `prefix` and the name.
pub open spec fn tags(prefix: Seq<char>, names: Seq<Seq<char>>) -> Seq<char>
    decreases names.len(),
{
    if names.len() == 0 {
        Seq::empty()
    } else {
        tags(prefix, names.drop_last()) + script_tag(prefix + names.last())
    }
}

/// The names of `order` that are among `names`, in order.
pub open spec fn present_of(order: Seq<Seq<char>>, names: Seq<Seq<char>>) -> Seq<Seq<char>>
    decreases order.len(),
{
    if order.len() == 0 {
        Seq::empty()
    } else if names.contains(order.last()) {
        present_of(order.drop_last(), names).push(order.last())
    } else {
        present_of(order.drop_last(), names)
    }
}

/// The framework scripts that are present, in dependency order.
pub open spec fn present_framework(names: Seq<Seq<char>>) -> Seq<Seq<char>> {
    present_of(framework_names(), names)
}

/// The names that end with `.js` and are not framework scripts, in order.
pub open spec fn others_of(names: Seq<Seq<char>>) -> Seq<Seq<char>>
    decreases names.len(),
{
    if names.len() == 0 {
        Seq::empty()
    } else if ends_js(names.last()) && !framework_names().contains(names.last()) {
        others_of(names.drop_last()).push(names.last())
    } else {
        others_of(names.drop_last())
    }
}

/// Whether `n` ends with `.js`.
pub open spec fn ends_js(n: Seq<char>) -> bool {
    n.len() >= 3 && n.skip(n.len() - 3) == ".js"@
}

/// The other scripts of `glasshouse/`, in string order.
pub open spec fn other_scripts(names: Seq<Seq<char>>) -> Seq<Seq<char>> {
    others_of(names).sort_by(|a: Seq<char>, b: Seq<char>| str_le(a, b))
}

/// Each path relative to the root.
pub open spec fn rel_all(root: Seq<char>, fs: Seq<Seq<char>>) -> Seq<Seq<char>>
    decreases fs.len(),
{
    if fs.len() == 0 {
        Seq::empty()
    } else {
        rel_all(root, fs.drop_last()).push(rel_path(root, fs.last()))
    }
}

/// The TypeScript files of a directory, in path order, relative to the
/// root.
pub open spec fn rel_ts(root: Seq<char>, files: Seq<Seq<char>>) -> Seq<Seq<char>> {
    rel_all(root, ts_only(files).sort_by(|a: Seq<char>, b: Seq<char>| path_le(a, b)))
}

/// The script elements of an index page: the framework scripts (when
/// `glasshouse/` is there) in dependency order and then the others, each
/// named after `gh_prefix`; then the TypeScript files of `src/` and then of
/// `packages/`, each named relative to the root after `prefix`.
pub open spec fn index_scripts(
    root: Seq<char>,
    gh_names: Option<Seq<Seq<char>>>,
    src_files: Seq<Seq<char>>,
    pkg_files: Seq<Seq<char>>,
    gh_prefix: Seq<char>,
    prefix: Seq<char>,
) -> Seq<char> {
    let gh = match gh_names {
        Some(ns) => tags(gh_prefix, present_framework(ns)) + tags(gh_prefix, other_scripts(ns)),
        None => Seq::empty(),
    };
    gh + tags(prefix, rel_ts(root, src_files)) + tags(prefix, rel_ts(root, pkg_files))
}

/// The dev index page: the scripts, served from the root, and the
/// hot-reload script.
pub open spec fn dev_index_spec(
    root: Seq<char>,
    gh_names: Option<Seq<Seq<char>>>,
    src_files: Seq<Seq<char>>,
    pkg_files: Seq<Seq<char>>,
) -> Seq<char> {
    DEV_INDEX_HEAD@ + index_scripts(root, gh_names, src_files, pkg_files, "/glasshouse/"@, "/"@) + RELOAD_SCRIPT@
        + DEV_INDEX_TAIL@
}

pub open spec fn opt_views(o: Option<Vec<String>>) -> Option<Seq<Seq<char>>> {
    match o {
        Some(ns) => Some(views(ns@)),
        None => None,
    }
}

fn contains_name(v: &Vec<String>, s: &str) -> (r: bool)
    ensures
        r == views(v@).contains(s@),
{
    let mut i: usize = 0;
    while i < v.len()
        invariant
            i <= v@.len(),
            forall|j: int| 0 <= j < i ==> v@[j]@ != s@,
        decreases v.len() - i,
    {
        if str_eq(v[i].as_str(), s) {
            assert(views(v@)[i as int] == s@);
            return true;
        }
        i = i + 1;
    }
    proof {
        if views(v@).contains(s@) {
            let j = choose|j: int| 0 <= j < views(v@).len() && views(v@)[j] == s@;
            assert(v@[j]@ == s@);
        }
    }
    false
}

fn push_tags(out: &mut String, prefix: &str, names: &Vec<String>)
    ensures
        final(out)@ == old(out)@ + tags(prefix@, views(names@)),
{
    let ghost nv = views(names@);
    let mut i: usize = 0;
    while i < names.len()
        invariant
            i <= names@.len() == nv.len(),
            nv == views(names@),
            out@ == old(out)@ + tags(prefix@, nv.take(i as int)),
        decreases names.len() - i,
    {
        assert(nv.take(i + 1).drop_last() =~= nv.take(i as int));
        assert(nv[i as int] == names@[i as int]@);
        push_str(out, "  <script src=\"");
        push_str(out, prefix);
        push_str(out, names[i].as_str());
        push_str(out, "\"></script>\n");
        assert(out@ =~= old(out)@ + tags(prefix@, nv.take(i + 1)));
        i = i + 1;
    }
    assert(nv.take(nv.len() as int) =~= nv);
}

fn ends_with_js(n: &str) -> (r: bool)
    ensures
        r == ends_js(n@),
{
    let v = to_chars(n);
    let k = v.len();
    if k < 3 {
        return false;
    }
    let r = v[k - 3] == '.' && v[k - 2] == 'j' && v[k - 1] == 's';
    proof {
        reveal_strlit(".js");
        if r {
            assert(v@.skip(k - 3) =~= ".js"@);
        } else {
            if v@.skip(k - 3) == ".js"@ {
                assert(v@.skip(k - 3)[0] == '.');
                assert(v@.skip(k - 3)[1] == 'j');
                assert(v@.skip(k - 3)[2] == 's');
            }
        }
    }
    r
}

fn rel_ts_of(root: &str, files: &[String]) -> (r: Vec<String>)
    ensures
        views(r@) == rel_ts(root@, views(files@)),
{
    let sorted = lint_files(files);
    let ghost sv = views(sorted@);
    let mut out: Vec<String> = Vec::new();
    let mut i: usize = 0;
    while i < sorted.len()
        invariant
            i <= sorted@.len() == sv.len(),
            sv == views(sorted@),
            views(out@) == rel_all(root@, sv.take(i as int)),
        decreases sorted.len() - i,
    {
        let r = rel_path_of(root, sorted[i].as_str());
        let ghost before = views(out@);
        out.push(r);
        assert(sv[i as int] == sorted@[i as int]@);
        assert(sv.take(i + 1).drop_last() =~= sv.take(i as int));
        assert(views(out@) =~= before.push(r@));
        i = i + 1;
    }
    assert(sv.take(sv.len() as int) =~= sv);
    out
}

/// Appends the script elements of an index page. `gh_names` are the names
/// of the entries of `glasshouse/` when it is there; `src_files` and
/// `pkg_files` are the files found under `src/` and `packages/`.
pub(crate) fn push_index_scripts(
    out: &mut String,
    root: &str,
    gh_names: &Option<Vec<String>>,
    src_files: &[String],
    pkg_files: &[String],
    gh_prefix: &str,
    prefix: &str,
)
    ensures
        final(out)@ == old(out)@ + index_scripts(
            root@,
            opt_views(*gh_names),
            views(src_files@),
            views(pkg_files@),
            gh_prefix@,
            prefix@,
        ),
{
    match gh_names {
        Some(ns) => {
            let order = framework_list();
            let ghost fv = order@.map_values(|x: &str| x@);
            let ghost nv = views(ns@);
            let mut present: Vec<String> = Vec::new();
            let mut i: usize = 0;
            while i < order.len()
                invariant
                    i <= order@.len() == fv.len(),
                    fv == order@.map_values(|x: &str| x@),
                    fv == framework_names(),
                    nv == views(ns@),
                    views(present@) == present_of(fv.take(i as int), nv),
                decreases order.len() - i,
            {
                assert(fv.take(i + 1).drop_last() =~= fv.take(i as int));
                assert(fv[i as int] == order@[i as int]@);
                if contains_name(ns, order[i]) {
                    let ghost before = views(present@);
                    present.push(String::from_str(order[i]));
                    assert(views(present@) =~= before.push(fv[i as int]));
                }
                i = i + 1;
            }
            assert(fv.take(fv.len() as int) =~= fv);
            push_tags(out, gh_prefix, &present);
            let mut others: Vec<String> = Vec::new();
            let mut k: usize = 0;
            while k < ns.len()
                invariant
                    k <= ns@.len() == nv.len(),
                    nv == views(ns@),
                    views(others@) == others_of(nv.take(k as int)),
                decreases ns.len() - k,
            {
                assert(nv.take(k + 1).drop_last() =~= nv.take(k as int));
                assert(nv[k as int] == ns@[k as int]@);
                let n = ns[k].as_str();
                let fl = framework_list();
                let mut known = false;
                let mut j: usize = 0;
                while j < fl.len()
                    invariant
                        j <= fl@.len(),
                        fl@.map_values(|x: &str| x@) == framework_names(),
                        known == exists|q: int| 0 <= q < j && fl@[q]@ == n@,
                    decreases fl.len() - j,
                {
                    if str_eq(fl[j], n) {
                        known = true;
                    }
                    j = j + 1;
                }
                proof {
                    let fnv = fl@.map_values(|x: &str| x@);
                    if known {
                        let q = choose|q: int| 0 <= q < fl@.len() && fl@[q]@ == n@;
                        assert(fnv[q] == n@);
                    }
                    if framework_names().contains(n@) {
                        let q = choose|q: int| 0 <= q < fnv.len() && fnv[q] == n@;
                        assert(fl@[q]@ == n@);
                    }
                }
                if ends_with_js(n) && !known {
                    let ghost before = views(others@);
                    others.push(ns[k].clone());
                    assert(views(others@) =~= before.push(nv[k as int]));
                }
                k = k + 1;
            }
            assert(nv.take(nv.len() as int) =~= nv);
            let sorted = sort_strings(&others);
            push_tags(out, gh_prefix, &sorted);
        },
        None => {},
    }
    let src_rel = rel_ts_of(root, src_files);
    push_tags(out, prefix, &src_rel);
    let pkg_rel = rel_ts_of(root, pkg_files);
    push_tags(out, prefix, &pkg_rel);
}


/// The dev index page. `gh_names` are the names of the entries of
/// `glasshouse/` when it is there; `src_files` and `pkg_files` are the
/// files found under `src/` and `packages/`.
pub fn generate_dev_index_ts(root: &str, gh_names: &Option<Vec<String>>, src_files: &[String], pkg_files: &[String]) -> (r: String)
    ensures
        r@ == dev_index_spec(root@, opt_views(*gh_names), views(src_files@), views(pkg_files@)),
{
    let mut s = String::from_str(DEV_INDEX_HEAD);
    push_index_scripts(&mut s, root, gh_names, src_files, pkg_files, "/glasshouse/", "/");
    push_str(&mut s, RELOAD_SCRIPT);
    push_str(&mut s, DEV_INDEX_TAIL);
    s
}

} // verus!
