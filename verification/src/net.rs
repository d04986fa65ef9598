//! Downloads and subprocesses: the pieces of a plain HTTP request and its
//! answer, the shell scripts that fetch and unpack releases, and how a
//! QuickJS run's outcome is read.

use vstd::prelude::*;
use crate::text::{str_eq, push_str, to_chars, find_chars, find_from, occurs_at, has_prefix, lemma_find_from, string_of_range, split_char, split_spec, views, trim, trim_chars, from_chars};
use crate::num::{parse_unsigned, parse_unsigned_exec};

verus! {

/// The host, port and path of an `http://` or `https://` address; `None`
/// for any other. The port is the number after a colon in the host when it
/// reads as one, else 80.
pub open spec fn split_url_spec(url: Seq<char>) -> Option<(Seq<char>, u16, Seq<char>, Seq<char>)> {
    let rest = if occurs_at(url, "http://"@, 0) {
        Some(url.skip(7))
    } else if occurs_at(url, "https://"@, 0) {
        Some(url.skip(8))
    } else {
        None
    };
    match rest {
        Some(r) => {
            let (host, path) = match find_from(r, "/"@, 0) {
                Some(i) => (r.take(i), r.skip(i)),
                None => (r, "/"@),
            };
            let hp = split_spec(host, ':');
            let port: u16 = if hp.len() > 1 {
                match parse_unsigned(hp[1], 65535) {
                    Some(p) => p as u16,
                    None => 80,
                }
            } else {
                80
            };
            Some((hp[0], port, host, path))
        },
        None => None,
    }
}

/// Splits an address into host name, port, the host as written (with its
/// port), and path.
pub fn split_url(url: &str) -> (r: Option<(String, u16, String, String)>)
    ensures
        match r {
            Some((h, p, hw, path)) => split_url_spec(url@) == Some((h@, p, hw@, path@)),
            None => split_url_spec(url@) is None,
        },
{
    let v = to_chars(url);
    proof {
        reveal_strlit("http://");
        reveal_strlit("https://");
        reveal_strlit("/");
    }
    let start: usize = if has_prefix(url, "http://") {
        7
    } else if has_prefix(url, "https://") {
        8
    } else {
        return None;
    };
    let rest = string_of_range(v.as_slice(), start, v.len());
    assert(rest@ =~= url@.skip(start as int));
    let rv = to_chars(rest.as_str());
    let slash = to_chars("/");
    proof {
        lemma_find_from(rv@, slash@, 0);
    }
    let (host, path) = match find_chars(rv.as_slice(), slash.as_slice(), 0) {
        Some(i) => {
            assert(occurs_at(rv@, slash@, i as int));
            let h = string_of_range(rv.as_slice(), 0, i);
            let p = string_of_range(rv.as_slice(), i, rv.len());
            assert(rv@.subrange(0, i as int) =~= rv@.take(i as int));
            assert(rv@.subrange(i as int, rv@.len() as int) =~= rv@.skip(i as int));
            (h, p)
        },
        None => (rest.clone(), String::from_str("/")),
    };
    let hp = split_char(host.as_str(), ':');
    proof {
        crate::utils::lemma_split_nonempty(host@, ':');
    }
    let port: u16 = if hp.len() > 1 {
        match parse_unsigned_exec(hp[1].as_str(), 65535) {
            Some(p) => p as u16,
            None => 80,
        }
    } else {
        80
    };
    assert(views(hp@)[0] == hp@[0]@);
    Some((hp[0].clone(), port, host, path))
}

/// The text of a plain GET request.
pub fn get_request(path: &str, host: &str) -> (r: String)
    ensures
        r@ == "GET "@ + path@ + " HTTP/1.1\r\nHost: "@ + host@ + "\r\nUser-Agent: glas/1.0\r\nConnection: close\r\n\r\n"@,
{
    let mut s = String::from_str("GET ");
    push_str(&mut s, path);
    push_str(&mut s, " HTTP/1.1\r\nHost: ");
    push_str(&mut s, host);
    push_str(&mut s, "\r\nUser-Agent: glas/1.0\r\nConnection: close\r\n\r\n");
    s
}

/// The body of an answer: what follows the first blank line, or the whole
/// answer when there is none.
pub open spec fn response_body_spec(resp: Seq<char>) -> Seq<char> {
    match find_from(resp, "\r\n\r\n"@, 0) {
        Some(b) => resp.skip(b + 4),
        None => resp,
    }
}

/// The body of an answer.
pub fn response_body(resp: &str) -> (r: String)
    ensures
        r@ == response_body_spec(resp@),
{
    let v = to_chars(resp);
    let sep = to_chars("\r\n\r\n");
    proof {
        reveal_strlit("\r\n\r\n");
        lemma_find_from(v@, sep@, 0);
    }
    match find_chars(v.as_slice(), sep.as_slice(), 0) {
        Some(b) => {
            assert(occurs_at(v@, sep@, b as int));
            assert(v@.len() == v.len());
            assert(v@.subrange(b + 4, v@.len() as int) =~= v@.skip(b + 4));
            string_of_range(v.as_slice(), b + 4, v.len())
        },
        None => String::from_str(resp),
    }
}

/// The PowerShell script that downloads `url` to `dest`.
pub fn fetch_script(url: &str, dest: &str) -> (r: String)
    ensures
        r@ == "[Net.ServicePointManager]::SecurityProtocol = [Net.SecurityProtocolType]::Tls12\r\nInvoke-WebRequest -Uri '"@
            + url@ + "' -OutFile '"@ + dest@ + "'\r\n"@,
{
    let mut s = String::new();
    push_str(&mut s, "[Net.ServicePointManager]::SecurityProtocol = [Net.SecurityProtocolType]::Tls12\r\nInvoke-WebRequest -Uri '");
    push_str(&mut s, url);
    push_str(&mut s, "' -OutFile '");
    push_str(&mut s, dest);
    push_str(&mut s, "'\r\n");
    s
}

/// The shell command that downloads `url` to `dest`.
pub fn curl_command(url: &str, dest: &str) -> (r: String)
    ensures
        r@ == "curl -L -o '"@ + dest@ + "' '"@ + url@ + "'"@,
{
    let mut s = String::new();
    push_str(&mut s, "curl -L -o '");
    push_str(&mut s, dest);
    push_str(&mut s, "' '");
    push_str(&mut s, url);
    push_str(&mut s, "'");
    s
}

/// The PowerShell script that downloads a release list from GitHub's API.
pub fn api_fetch_script(url: &str, dest: &str) -> (r: String)
    ensures
        r@ == "[Net.ServicePointManager]::SecurityProtocol = [Net.SecurityProtocolType]::Tls12\r\nInvoke-WebRequest -Uri '"@
            + url@ + "' -OutFile '"@ + dest@ + "' -Headers @{'User-Agent'='glas/2.0'}\r\n"@,
{
    let mut s = String::new();
    push_str(&mut s, "[Net.ServicePointManager]::SecurityProtocol = [Net.SecurityProtocolType]::Tls12\r\nInvoke-WebRequest -Uri '");
    push_str(&mut s, url);
    push_str(&mut s, "' -OutFile '");
    push_str(&mut s, dest);
    push_str(&mut s, "' -Headers @{'User-Agent'='glas/2.0'}\r\n");
    s
}

/// The shell command that downloads a release list from GitHub's API.
pub fn api_curl_command(url: &str, dest: &str) -> (r: String)
    ensures
        r@ == "curl -L -H 'User-Agent: glas/2.0' -o '"@ + dest@ + "' '"@ + url@ + "'"@,
{
    let mut s = String::new();
    push_str(&mut s, "curl -L -H 'User-Agent: glas/2.0' -o '");
    push_str(&mut s, dest);
    push_str(&mut s, "' '");
    push_str(&mut s, url);
    push_str(&mut s, "'");
    s
}

/// The address of a repository's release list in GitHub's API.
pub fn releases_api_url(owner: &str, repo: &str) -> (r: String)
    ensures
        r@ == "https://api.github.com/repos/"@ + owner@ + "/"@ + repo@ + "/releases"@,
{
    let mut s = String::new();
    push_str(&mut s, "https://api.github.com/repos/");
    push_str(&mut s, owner);
    push_str(&mut s, "/");
    push_str(&mut s, repo);
    push_str(&mut s, "/releases");
    s
}

/// The PowerShell script that unpacks `zip` into `dest`.
pub fn extract_script(zip: &str, dest: &str) -> (r: String)
    ensures
        r@ == "Expand-Archive -Path '"@ + zip@ + "' -DestinationPath '"@ + dest@ + "' -Force\r\n"@,
{
    let mut s = String::new();
    push_str(&mut s, "Expand-Archive -Path '");
    push_str(&mut s, zip);
    push_str(&mut s, "' -DestinationPath '");
    push_str(&mut s, dest);
    push_str(&mut s, "' -Force\r\n");
    s
}

/// The shell command that unpacks `zip` into `dest`.
pub fn unzip_command(zip: &str, dest: &str) -> (r: String)
    ensures
        r@ == "unzip -o '"@ + zip@ + "' -d '"@ + dest@ + "'"@,
{
    let mut s = String::new();
    push_str(&mut s, "unzip -o '");
    push_str(&mut s, zip);
    push_str(&mut s, "' -d '");
    push_str(&mut s, dest);
    push_str(&mut s, "'");
    s
}

/// Where the framework is cached: under the local application data on
/// Windows, under the home directory elsewhere.
pub fn cache_dir(base: &str, windows: bool) -> (r: String)
    ensures
        r@ == (if windows {
            base@ + "\\GlassHouse\\glasshouse"@
        } else {
            base@ + "/.glasshouse/glasshouse"@
        }),
{
    let mut s = String::from_str(base);
    if windows {
        push_str(&mut s, "\\GlassHouse\\glasshouse");
    } else {
        push_str(&mut s, "/.glasshouse/glasshouse");
    }
    s
}

/// What a QuickJS run gives: its output when it succeeded, else its error
/// output (or, when that is empty, its output) without surrounding
/// whitespace.
pub open spec fn qjs_outcome_spec(success: bool, stdout: Seq<char>, stderr: Seq<char>) -> Result<Seq<char>, Seq<char>> {
    if success {
        Ok(stdout)
    } else {
        Err("QuickJS error: "@ + if stderr.len() > 0 { trim(stderr) } else { trim(stdout) })
    }
}

/// Reads a QuickJS run's outcome.
pub fn qjs_outcome(success: bool, stdout: String, stderr: String) -> (r: Result<String, String>)
    ensures
        match r {
            Ok(o) => qjs_outcome_spec(success, stdout@, stderr@) == Ok::<Seq<char>, Seq<char>>(o@),
            Err(e) => qjs_outcome_spec(success, stdout@, stderr@) == Err::<Seq<char>, Seq<char>>(e@),
        },
{
    if success {
        return Ok(stdout);
    }
    let src = if stderr.as_str().unicode_len() > 0 {
        stderr
    } else {
        stdout
    };
    let t = trim_chars(to_chars(src.as_str()).as_slice());
    let mut e = String::from_str("QuickJS error: ");
    let ts = from_chars(t.as_slice());
    push_str(&mut e, ts.as_str());
    Err(e)
}

/// Where QuickJS is looked for next to the tool, in order.
pub fn qjs_candidates(exe_dir: &str) -> (r: Vec<String>)
    ensures
        views(r@) == seq![
            crate::path::join_path(exe_dir@, "qjs.exe"@),
            crate::path::join_path(crate::path::join_path(exe_dir@, "quickjs"@), "qjs.exe"@),
            crate::path::join_path(exe_dir@, "qjs"@),
        ],
{
    proof {
        reveal_strlit("qjs.exe");
        reveal_strlit("quickjs");
        reveal_strlit("qjs");
    }
    let a = crate::path::join_path_of(exe_dir, "qjs.exe");
    let q = crate::path::join_path_of(exe_dir, "quickjs");
    let b = crate::path::join_path_of(q.as_str(), "qjs.exe");
    let c = crate::path::join_path_of(exe_dir, "qjs");
    let r = vec![a, b, c];
    assert(views(r@) =~= seq![a@, b@, c@]);
    r
}

/// The name of a runner script written at time `ms`.
pub fn runner_file_name(ms: u64) -> (r: String)
    ensures
        r@ == "glas_qjs_"@ + crate::num::decimal(ms as nat) + ".js"@,
{
    let mut s = String::from_str("glas_qjs_");
    crate::num::push_decimal(&mut s, ms);
    push_str(&mut s, ".js");
    s
}

} // verus!
