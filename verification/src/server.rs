//! What the development and production servers send.

use vstd::prelude::*;
use vstd::utf8::encode_utf8;
use crate::path::{extension, extension_spec, drop_slashes, join_path, join_path_of};
use crate::text::{str_eq, push_str, first_words, first_two_words, to_chars, string_of_range};
use crate::num::{decimal, push_decimal};
use crate::path::{rel_path, rel_path_of, ext_is};
use crate::order::{path_le, sort_paths, str_le, sort_strings};
use crate::text::{views, push_char};

verus! {

/// The content type for a file extension.
pub open spec fn mime_for(ext: Option<Seq<char>>) -> Seq<char> {
    match ext {
        Some(e) => if e == "html"@ {
            "text/html; charset=utf-8"@
        } else if e == "css"@ {
            "text/css; charset=utf-8"@
        } else if e == "js"@ {
            "application/javascript; charset=utf-8"@
        } else if e == "json"@ {
            "application/json"@
        } else if e == "png"@ {
            "image/png"@
        } else if e == "jpg"@ || e == "jpeg"@ {
            "image/jpeg"@
        } else if e == "svg"@ {
            "image/svg+xml"@
        } else if e == "ico"@ {
            "image/x-icon"@
        } else if e == "ts"@ {
            "application/typescript"@
        } else {
            "application/octet-stream"@
        },
        None => "application/octet-stream"@,
    }
}

/// The content type that a file is served with, by its extension.
pub fn mime_type(path: &str) -> (r: &'static str)
    ensures
        r@ == mime_for(extension_spec(path@)),
{
    match extension(path) {
        Some(e) => {
            let e = e.as_str();
            if str_eq(e, "html") {
                "text/html; charset=utf-8"
            } else if str_eq(e, "css") {
                "text/css; charset=utf-8"
            } else if str_eq(e, "js") {
                "application/javascript; charset=utf-8"
            } else if str_eq(e, "json") {
                "application/json"
            } else if str_eq(e, "png") {
                "image/png"
            } else if str_eq(e, "jpg") || str_eq(e, "jpeg") {
                "image/jpeg"
            } else if str_eq(e, "svg") {
                "image/svg+xml"
            } else if str_eq(e, "ico") {
                "image/x-icon"
            } else if str_eq(e, "ts") {
                "application/typescript"
            } else {
                "application/octet-stream"
            }
        },
        None => "application/octet-stream",
    }
}

pub const SERVE_INDEX: &'static str = "<!DOCTYPE html>
<html lang=\"en\">
<head>
  <meta charset=\"utf-8\">
  <meta name=\"viewport\" content=\"width=device-width, initial-scale=1.0\">
  <title>Glass House</title>
  <script src=\"glasshouse.bundle.js\"></script>
</head>
<body><div id=\"app\"></div></body>
</html>";

/// The page served when the build has no `dist/index.html`.
pub fn generate_serve_index() -> (r: String)
    ensures
        r@ == SERVE_INDEX@,
{
    SERVE_INDEX.to_owned()
}


/// The head of an HTTP response: status line, content type, length, any
/// further header lines, and the closing of the connection.
pub open spec fn response_head(status: Seq<char>, ctype: Seq<char>, len: nat, extra: Seq<char>) -> Seq<char> {
    "HTTP/1.1 "@ + status + "\r\nContent-Type: "@ + ctype + "\r\nContent-Length: "@ + decimal(len) + "\r\n"@ + extra
        + "Connection: close\r\n\r\n"@
}

/// A whole response whose body is text; its length counts UTF-8 bytes.
pub open spec fn response_text(status: Seq<char>, ctype: Seq<char>, extra: Seq<char>, body: Seq<char>) -> Seq<char> {
    response_head(status, ctype, encode_utf8(body).len(), extra) + body
}

/// The head of a response.
pub fn response_head_of(status: &str, ctype: &str, len: usize, extra: &str) -> (r: String)
    ensures
        r@ == response_head(status@, ctype@, len as nat, extra@),
{
    let mut s = String::from_str("HTTP/1.1 ");
    push_str(&mut s, status);
    push_str(&mut s, "\r\nContent-Type: ");
    push_str(&mut s, ctype);
    push_str(&mut s, "\r\nContent-Length: ");
    push_decimal(&mut s, len as u64);
    push_str(&mut s, "\r\n");
    push_str(&mut s, extra);
    push_str(&mut s, "Connection: close\r\n\r\n");
    s
}

/// A whole response with a text body.
pub fn response(status: &str, ctype: &str, extra: &str, body: &str) -> (r: String)
    ensures
        r@ == response_text(status@, ctype@, extra@, body@),
{
    let len = body.as_bytes().len();
    let mut s = response_head_of(status, ctype, len, extra);
    push_str(&mut s, body);
    s
}

/// The body of the answer for a file that is not there.
pub const NOT_FOUND_BODY: &'static str = "<h1>404 Not Found</h1><p>Glass House</p>";

/// The answer for a file that is not there.
pub fn not_found() -> (r: String)
    ensures
        r@ == response_text("404 Not Found"@, "text/html"@, ""@, NOT_FOUND_BODY@),
{
    response("404 Not Found", "text/html", "", NOT_FOUND_BODY)
}

/// A page.
pub fn html_response(body: &str) -> (r: String)
    ensures
        r@ == response_text("200 OK"@, "text/html; charset=utf-8"@, ""@, body@),
{
    response("200 OK", "text/html; charset=utf-8", "", body)
}

/// A script.
pub fn js_response(body: &str) -> (r: String)
    ensures
        r@ == response_text("200 OK"@, "application/javascript; charset=utf-8"@, ""@, body@),
{
    response("200 OK", "application/javascript; charset=utf-8", "", body)
}

/// The head of the answer that carries a file's bytes.
pub fn file_head(mime: &str, len: usize) -> (r: String)
    ensures
        r@ == response_head("200 OK"@, mime@, len as nat, ""@),
{
    response_head_of("200 OK", mime, len, "")
}

/// The file a request path names: the path without its leading
/// separators, joined to the root.
pub open spec fn request_file(root: Seq<char>, rp: Seq<char>) -> Seq<char> {
    join_path(root, drop_slashes(rp))
}

pub fn drop_slashes_of(s: &str) -> (r: String)
    ensures
        r@ == drop_slashes(s@),
        !(r@.len() > 0 && r@[0] == '/'),
{
    let v = to_chars(s);
    let mut k: usize = 0;
    assert(v@.subrange(0, v@.len() as int) =~= v@);
    while k < v.len() && v[k] == '/'
        invariant
            k <= v@.len(),
            v@ == s@,
            drop_slashes(v@.subrange(k as int, v@.len() as int)) == drop_slashes(s@),
        decreases v.len() - k,
    {
        assert(v@.subrange(k as int, v@.len() as int).drop_first() =~= v@.subrange(k + 1, v@.len() as int));
        k = k + 1;
    }
    let r = string_of_range(v.as_slice(), k, v.len());
    proof {
        if r@.len() > 0 {
            assert(r@[0] == v@[k as int]);
        }
        assert(drop_slashes(v@.subrange(k as int, v@.len() as int)) == v@.subrange(k as int, v@.len() as int));
    }
    r
}

/// The file a request path names.
pub fn request_file_of(root: &str, rp: &str) -> (r: String)
    ensures
        r@ == request_file(root@, rp@),
{
    let rel = drop_slashes_of(rp);
    join_path_of(root, rel.as_str())
}

/// What the production server does with a request.
pub enum ServeRoute {
    /// The request line has no path: answer 404.
    NotFound,
    /// Send the index page.
    Index,
    /// Send the file the path names.
    File(String),
}

/// Routes a request line of the production server: `/` and
/// `/dist/index.html` get the index page.
pub fn serve_route(line: &str) -> (r: ServeRoute)
    ensures
        first_words(line@).1.len() == 0 ==> r is NotFound,
        first_words(line@).1.len() > 0 ==> {
            let rp = first_words(line@).1;
            if rp == "/"@ || rp == "/dist/index.html"@ {
                r is Index
            } else {
                r matches ServeRoute::File(p) && p@ == rp
            }
        },
{
    let (_method, rp) = first_two_words(line);
    if rp.as_str().unicode_len() == 0 {
        return ServeRoute::NotFound;
    }
    if str_eq(rp.as_str(), "/") || str_eq(rp.as_str(), "/dist/index.html") {
        ServeRoute::Index
    } else {
        ServeRoute::File(rp)
    }
}


/// The script of the plain dev index page that reloads it on a change.
pub const PLAIN_RELOAD: &'static str = r###"<script>var _g=0;function _gp(){fetch('/__glas_ping').then(function(r){return r.text()}).then(function(v){if(_g&&v!==_g){location.reload()}_g=v;setTimeout(_gp,2000)}).catch(function(){setTimeout(_gp,2000)})}_gp()</script>"###;

/// The plain dev index page up to its scripts.
pub const PLAIN_INDEX_HEAD: &'static str = "<!DOCTYPE html><html lang=\"en\"><head><meta charset=\"utf-8\"><meta name=\"viewport\" content=\"width=device-width,initial-scale=1.0\"><title>Glass House (dev)</title>\n";

/// The plain dev index page after its scripts.
pub const PLAIN_INDEX_TAIL: &'static str = "</head><body><div id=\"app\"></div></body></html>";

/// The JavaScript files among `ps`, in order.
pub open spec fn js_only(ps: Seq<Seq<char>>) -> Seq<Seq<char>>
    decreases ps.len(),
{
    if ps.len() == 0 {
        Seq::empty()
    } else if extension_spec(ps.last()) == Some("js"@) {
        js_only(ps.drop_last()).push(ps.last())
    } else {
        js_only(ps.drop_last())
    }
}

/// A script element naming a path relative to the root.
pub open spec fn rel_tag(src: Seq<char>) -> Seq<char> {
    "  <script src=\""@ + src + "\"></script>\n"@
}

/// Script elements for the JavaScript entries of a directory, in path
/// order, each named relative to the root.
pub open spec fn dir_tags(root: Seq<char>, ps: Seq<Seq<char>>) -> Seq<char> {
    tags_of(root, js_only(ps).sort_by(|a: Seq<char>, b: Seq<char>| path_le(a, b)))
}

pub open spec fn tags_of(root: Seq<char>, ps: Seq<Seq<char>>) -> Seq<char>
    decreases ps.len(),
{
    if ps.len() == 0 {
        Seq::empty()
    } else {
        tags_of(root, ps.drop_last()) + rel_tag(rel_path(root, ps.last()))
    }
}

/// The script elements for `glasshouse/`, `packages/` and `src/`, each
/// directory's entries given when it could be listed.
pub open spec fn all_dir_tags(root: Seq<char>, dirs: Seq<Option<Seq<Seq<char>>>>) -> Seq<char>
    decreases dirs.len(),
{
    if dirs.len() == 0 {
        Seq::empty()
    } else {
        all_dir_tags(root, dirs.drop_last()) + match dirs.last() {
            Some(ps) => dir_tags(root, ps),
            None => Seq::empty(),
        }
    }
}

pub open spec fn dirs_view(dirs: Seq<Option<Vec<String>>>) -> Seq<Option<Seq<Seq<char>>>> {
    dirs.map_values(|d: Option<Vec<String>>| match d {
        Some(v) => Some(views(v@)),
        None => None,
    })
}

/// The JavaScript entries of a directory, in path order.
pub fn js_entries(entries: &Vec<String>) -> (r: Vec<String>)
    ensures
        views(r@) == js_only(views(entries@)).sort_by(|a: Seq<char>, b: Seq<char>| path_le(a, b)),
{
    let ghost ev = views(entries@);
    let mut js: Vec<String> = Vec::new();
    let mut i: usize = 0;
    while i < entries.len()
        invariant
            i <= entries@.len() == ev.len(),
            ev == views(entries@),
            views(js@) == js_only(ev.take(i as int)),
        decreases entries.len() - i,
    {
        assert(ev.take(i + 1).drop_last() =~= ev.take(i as int));
        assert(ev[i as int] == entries@[i as int]@);
        if ext_is(entries[i].as_str(), "js") {
            let ghost before = views(js@);
            js.push(entries[i].clone());
            assert(views(js@) =~= before.push(entries@[i as int]@));
        }
        i = i + 1;
    }
    assert(ev.take(ev.len() as int) =~= ev);
    sort_paths(&js)
}

fn push_dir_tags(out: &mut String, root: &str, entries: &Vec<String>)
    ensures
        final(out)@ == old(out)@ + dir_tags(root@, views(entries@)),
{
    let sorted = js_entries(entries);
    let ghost sv = views(sorted@);
    let mut k: usize = 0;
    while k < sorted.len()
        invariant
            k <= sorted@.len() == sv.len(),
            sv == views(sorted@),
            out@ == old(out)@ + tags_of(root@, sv.take(k as int)),
        decreases sorted.len() - k,
    {
        assert(sv.take(k + 1).drop_last() =~= sv.take(k as int));
        assert(sv[k as int] == sorted@[k as int]@);
        let rel = rel_path_of(root, sorted[k].as_str());
        push_str(out, "  <script src=\"");
        push_str(out, rel.as_str());
        push_str(out, "\"></script>\n");
        assert(out@ =~= old(out)@ + tags_of(root@, sv.take(k + 1)));
        k = k + 1;
    }
    assert(sv.take(sv.len() as int) =~= sv);
}

fn push_all_dir_tags(out: &mut String, root: &str, dirs: &Vec<Option<Vec<String>>>)
    ensures
        final(out)@ == old(out)@ + all_dir_tags(root@, dirs_view(dirs@)),
{
    let ghost dv = dirs_view(dirs@);
    let mut i: usize = 0;
    while i < dirs.len()
        invariant
            i <= dirs@.len() == dv.len(),
            dv == dirs_view(dirs@),
            out@ == old(out)@ + all_dir_tags(root@, dv.take(i as int)),
        decreases dirs.len() - i,
    {
        assert(dv.take(i + 1).drop_last() =~= dv.take(i as int));
        let ghost before = out@;
        match &dirs[i] {
            Some(v) => {
                assert(dv[i as int] == Some(views(v@)));
                push_dir_tags(out, root, v);
            },
            None => {
                assert(dv[i as int] is None);
            },
        }
        assert(out@ =~= old(out)@ + all_dir_tags(root@, dv.take(i + 1)));
        i = i + 1;
    }
    assert(dv.take(dv.len() as int) =~= dv);
}

/// The plain dev index page: the JavaScript entries of `glasshouse/`,
/// `packages/` and `src/` (those that could be listed, `dirs` in that
/// order), and the reload script.
pub open spec fn plain_index_spec(root: Seq<char>, dirs: Seq<Option<Seq<Seq<char>>>>) -> Seq<char> {
    PLAIN_INDEX_HEAD@ + all_dir_tags(root, dirs) + PLAIN_RELOAD@ + PLAIN_INDEX_TAIL@
}

/// The plain dev index page.
pub fn generate_dev_index(root: &str, dirs: &Vec<Option<Vec<String>>>) -> (r: String)
    ensures
        r@ == plain_index_spec(root@, dirs_view(dirs@)),
{
    let mut s = String::from_str(PLAIN_INDEX_HEAD);
    push_all_dir_tags(&mut s, root, dirs);
    push_str(&mut s, PLAIN_RELOAD);
    push_str(&mut s, PLAIN_INDEX_TAIL);
    s
}

/// The build page up to its scripts.
pub const BUILD_PAGE_HEAD: &'static str = r###"<!DOCTYPE html><html><head><meta charset="utf-8"><title>Build</title>"###;

/// The build page between its scripts and its sources.
pub const BUILD_PAGE_MID: &'static str = r###"</head><body><div id="status">Building...</div><script>
(function(){'use strict';var s=document.getElementById('status');var SOURCES={{"###;

/// The rest of the build page: it compacts the sources and posts the
/// bundle back.
pub const BUILD_PAGE_TAIL: &'static str = r###"}};
setTimeout(function(){try{
s.textContent='Compacting '+Object.keys(SOURCES).length+' sources...';
var cp=GlassHouse.require('hyper-compactor');
var result=cp.compactAll(SOURCES);
s.textContent='Packaging...';
var b='/* Glass House GHC2 */\n';b+='var _GH="'+result.binaryBase64+'";\n';b+='GlassHouse.require("decompressor").loadFromBase64(_GH);\n';
s.textContent='Sending '+(b.length/1024).toFixed(1)+' KB...';
fetch('/__glas_build',{method:'POST',headers:{'Content-Type':'application/javascript'},body:b}).then(function(){s.textContent='✓ Build complete ('+result.reduction+'% reduction,'+result.totalRenamed+' ids,'+Object.keys(SOURCES).length+' sources). Close this tab.'}).catch(function(e){s.textContent='✗ Failed: '+e.message})
}catch(e){s.textContent='✗ Error: '+e.message}},2000)})();
</script></body></html>"###;

/// How a character of a source is written in the build page: backslash,
/// quote and line feed escaped, carriage return dropped.
pub open spec fn build_char(c: char) -> Seq<char> {
    if c == '\\' {
        seq!['\\', '\\']
    } else if c == '"' {
        seq!['\\', '"']
    } else if c == '\n' {
        seq!['\\', 'n']
    } else if c == '\r' {
        Seq::empty()
    } else {
        seq![c]
    }
}

pub open spec fn build_text(s: Seq<char>) -> Seq<char>
    decreases s.len(),
{
    if s.len() == 0 {
        Seq::empty()
    } else {
        build_text(s.drop_last()) + build_char(s.last())
    }
}

/// The member for one readable JavaScript file: its path relative to the
/// root, as it is, and its escaped text.
pub open spec fn source_member(root: Seq<char>, p: Seq<char>, c: Seq<char>) -> Seq<char> {
    "\""@ + rel_path(root, p) + "\":\""@ + build_text(c) + "\""@
}

/// The members for the readable JavaScript files of a directory, in order.
pub open spec fn source_members(root: Seq<char>, fs: Seq<(Seq<char>, Option<Seq<char>>)>) -> Seq<Seq<char>>
    decreases fs.len(),
{
    if fs.len() == 0 {
        Seq::empty()
    } else {
        let r = source_members(root, fs.drop_last());
        match fs.last().1 {
            Some(c) => if extension_spec(fs.last().0) == Some("js"@) {
                r.push(source_member(root, fs.last().0, c))
            } else {
                r
            },
            None => r,
        }
    }
}

/// The texts joined by commas.
pub open spec fn join_commas(ms: Seq<Seq<char>>) -> Seq<char>
    decreases ms.len(),
{
    if ms.len() == 0 {
        Seq::empty()
    } else if ms.len() == 1 {
        ms[0]
    } else {
        join_commas(ms.drop_last()) + ","@ + ms.last()
    }
}

/// The members of all the listed directories: each directory's members in
/// string order, directory after directory.
pub open spec fn all_members(root: Seq<char>, dirs: Seq<Option<Seq<(Seq<char>, Option<Seq<char>>)>>>) -> Seq<Seq<char>>
    decreases dirs.len(),
{
    if dirs.len() == 0 {
        Seq::empty()
    } else {
        all_members(root, dirs.drop_last()) + match dirs.last() {
            Some(fs) => source_members(root, fs).sort_by(|a: Seq<char>, b: Seq<char>| str_le(a, b)),
            None => Seq::empty(),
        }
    }
}

pub open spec fn file_dirs_view(dirs: Seq<Option<Vec<(String, Option<String>)>>>) -> Seq<Option<Seq<(Seq<char>, Option<Seq<char>>)>>> {
    dirs.map_values(|d: Option<Vec<(String, Option<String>)>>| match d {
        Some(v) => Some(v@.map_values(|f: (String, Option<String>)| (f.0@, crate::utils::opt_view(f.1)))),
        None => None,
    })
}

/// The paths of the entries.
pub open spec fn entry_names(fs: Seq<(Seq<char>, Option<Seq<char>>)>) -> Seq<Seq<char>>
    decreases fs.len(),
{
    if fs.len() == 0 {
        Seq::empty()
    } else {
        entry_names(fs.drop_last()).push(fs.last().0)
    }
}

pub open spec fn names_of(dirs: Seq<Option<Seq<(Seq<char>, Option<Seq<char>>)>>>) -> Seq<Option<Seq<Seq<char>>>> {
    dirs.map_values(|d: Option<Seq<(Seq<char>, Option<Seq<char>>)>>| match d {
        Some(fs) => Some(entry_names(fs)),
        None => None,
    })
}

/// The build page for the entries of `glasshouse/`, `packages/` and `src/`
/// (each with its text when it could be read): their scripts, and the
/// sources that the page compacts.
pub open spec fn build_page_spec(root: Seq<char>, dirs: Seq<Option<Seq<(Seq<char>, Option<Seq<char>>)>>>) -> Seq<char> {
    BUILD_PAGE_HEAD@ + all_dir_tags(root, names_of(dirs)) + BUILD_PAGE_MID@ + join_commas(all_members(root, dirs))
        + BUILD_PAGE_TAIL@
}

fn push_build_text(out: &mut String, s: &str)
    ensures
        final(out)@ == old(out)@ + build_text(s@),
{
    let v = to_chars(s);
    let mut i: usize = 0;
    while i < v.len()
        invariant
            v@ == s@,
            i <= v@.len(),
            out@ == old(out)@ + build_text(v@.take(i as int)),
        decreases v.len() - i,
    {
        let c = v[i];
        let ghost before = out@;
        if c == '\\' {
            push_char(out, '\\');
            push_char(out, '\\');
        } else if c == '"' {
            push_char(out, '\\');
            push_char(out, '"');
        } else if c == '\n' {
            push_char(out, '\\');
            push_char(out, 'n');
        } else if c == '\r' {
        } else {
            push_char(out, c);
        }
        assert(v@.take(i + 1).drop_last() =~= v@.take(i as int));
        assert(out@ =~= before + build_char(c));
        i = i + 1;
    }
    assert(v@.take(v@.len() as int) =~= v@);
}

/// The build page.
pub fn generate_build_page(root: &str, dirs: &Vec<Option<Vec<(String, Option<String>)>>>) -> (r: String)
    ensures
        r@ == build_page_spec(root@, file_dirs_view(dirs@)),
{
    let ghost dv = file_dirs_view(dirs@);
    // The members, directory by directory.
    let mut members: Vec<String> = Vec::new();
    let mut names: Vec<Option<Vec<String>>> = Vec::new();
    let mut i: usize = 0;
    while i < dirs.len()
        invariant
            i <= dirs@.len() == dv.len(),
            dv == file_dirs_view(dirs@),
            views(members@) == all_members(root@, dv.take(i as int)),
            dirs_view(names@) == names_of(dv.take(i as int)),
        decreases dirs.len() - i,
    {
        assert(dv.take(i + 1).drop_last() =~= dv.take(i as int));
        let ghost nbefore = names@;
        match &dirs[i] {
            Some(fs) => {
                let ghost fv = fs@.map_values(|f: (String, Option<String>)| (f.0@, crate::utils::opt_view(f.1)));
                assert(dv[i as int] == Some(fv));
                let mut mine: Vec<String> = Vec::new();
                let mut ns: Vec<String> = Vec::new();
                let mut k: usize = 0;
                while k < fs.len()
                    invariant
                        k <= fs@.len() == fv.len(),
                        fv == fs@.map_values(|f: (String, Option<String>)| (f.0@, crate::utils::opt_view(f.1))),
                        views(mine@) == source_members(root@, fv.take(k as int)),
                        views(ns@) == entry_names(fv.take(k as int)),
                    decreases fs.len() - k,
                {
                    assert(fv.take(k + 1).drop_last() =~= fv.take(k as int));
                    assert(fv[k as int] == (fs@[k as int].0@, crate::utils::opt_view(fs@[k as int].1)));
                    let ghost nb = views(ns@);
                    ns.push(fs[k].0.clone());
                    assert(views(ns@) =~= nb.push(fv[k as int].0));
                    match &fs[k].1 {
                        Some(c) => {
                            if ext_is(fs[k].0.as_str(), "js") {
                                let rel = rel_path_of(root, fs[k].0.as_str());
                                let mut m = String::from_str("\"");
                                push_str(&mut m, rel.as_str());
                                push_str(&mut m, "\":\"");
                                push_build_text(&mut m, c.as_str());
                                push_str(&mut m, "\"");
                                let ghost before = views(mine@);
                                mine.push(m);
                                assert(views(mine@) =~= before.push(m@));
                            }
                        },
                        None => {},
                    }
                    k = k + 1;
                }
                assert(fv.take(fv.len() as int) =~= fv);
                let sorted = sort_strings(&mine);
                let ghost mb = views(members@);
                let mut j: usize = 0;
                while j < sorted.len()
                    invariant
                        j <= sorted@.len(),
                        views(members@) == mb + views(sorted@).take(j as int),
                    decreases sorted.len() - j,
                {
                    let ghost before = views(members@);
                    members.push(sorted[j].clone());
                    assert(views(members@) =~= before.push(sorted@[j as int]@));
                    assert(views(sorted@).take(j + 1) =~= views(sorted@).take(j as int).push(sorted@[j as int]@));
                    j = j + 1;
                }
                assert(views(sorted@).take(views(sorted@).len() as int) =~= views(sorted@));
                names.push(Some(ns));
                assert(dirs_view(names@) =~= dirs_view(nbefore).push(Some(entry_names(fv))));
            },
            None => {
                assert(dv[i as int] is None);
                names.push(None);
                assert(dirs_view(names@) =~= dirs_view(nbefore).push(None));
            },
        }
        assert(names_of(dv.take(i + 1)) =~= names_of(dv.take(i as int)).push(names_of(dv.take(i + 1)).last()));
        i = i + 1;
    }
    assert(dv.take(dv.len() as int) =~= dv);
    let mut s = String::from_str(BUILD_PAGE_HEAD);
    push_all_dir_tags(&mut s, root, &names);
    push_str(&mut s, BUILD_PAGE_MID);
    let ghost mv = views(members@);
    let ghost before = s@;
    let mut k: usize = 0;
    while k < members.len()
        invariant
            k <= members@.len() == mv.len(),
            mv == views(members@),
            s@ == before + join_commas(mv.take(k as int)),
        decreases members.len() - k,
    {
        assert(mv.take(k + 1).drop_last() =~= mv.take(k as int));
        assert(mv[k as int] == members@[k as int]@);
        if k > 0 {
            push_str(&mut s, ",");
        }
        push_str(&mut s, members[k].as_str());
        proof {
            if k == 0 {
                assert(mv.take(1) =~= seq![mv[0]]);
            }
        }
        assert(s@ =~= before + join_commas(mv.take(k + 1)));
        k = k + 1;
    }
    assert(mv.take(mv.len() as int) =~= mv);
    push_str(&mut s, BUILD_PAGE_TAIL);
    s
}

} // verus!
