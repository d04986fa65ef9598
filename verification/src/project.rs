//! A new project: the files it starts with, and where the framework is
//! fetched from. Also the self-update of the tool and the release list.

use vstd::prelude::*;
use crate::text::{str_eq, push_str, views};
use crate::releases::{Release, release_views, first_stable};
use crate::commands::VERSION;

verus! {

/// The index page of a new project.
pub const INDEX_HTML: &'static str = r#"<!DOCTYPE html><html lang="en"><head><meta charset="utf-8"><meta name="viewport" content="width=device-width,initial-scale=1.0"><title>Glass House</title><script src="glasshouse/glasshouse.js"></script><script src="glasshouse/types.js"></script><script src="glasshouse/dom.js"></script><script src="glasshouse/pebble.js"></script><script src="src/app.js"></script></head><body><div id="app"></div></body></html>"#;

/// The style sheet of a new project.
pub const MAIN_CSS: &'static str = "*,*::before,*::after{box-sizing:border-box;margin:0;padding:0}html{font-size:16px}body{font-family:system-ui,sans-serif;line-height:1.6;color:#111827;background:#fff;min-height:100vh}#app{min-height:100vh}";

/// The script of a new project.
pub const APP_JS: &'static str = "(function(){'use strict';GlassHouse.ready(function(){console.log('Glass House ready.');});})();";

/// Where the framework's releases are.
pub const GLASSHOUSE_RELEASES: &'static str = "https://github.com/OniuUI/GlassHouse/releases";

/// Where the tool's releases are.
pub const GLAS_RELEASES: &'static str = "https://github.com/OniuUI/Glas-CLI/releases";

/// The directories of a new project.
pub open spec fn scaffold_dirs() -> Seq<Seq<char>> {
    seq!["glasshouse"@, "packages"@, "src"@, "styles"@]
}

/// The files of a new project, each a path and its text.
pub open spec fn scaffold_files_spec() -> Seq<(Seq<char>, Seq<char>)> {
    seq![
        ("index.html"@, INDEX_HTML@),
        ("styles/main.css"@, MAIN_CSS@),
        ("src/app.js"@, APP_JS@),
        ("packages/.registry.json"@, "{}"@),
        (".gitignore"@, "dist/\n"@),
    ]
}

/// The directories of a new project.
pub fn scaffold_dirs_list() -> (r: Vec<String>)
    ensures
        views(r@) == scaffold_dirs(),
{
    let r = vec![
        String::from_str("glasshouse"),
        String::from_str("packages"),
        String::from_str("src"),
        String::from_str("styles"),
    ];
    assert(views(r@) =~= scaffold_dirs());
    r
}

/// The files of a new project.
pub fn scaffold_files() -> (r: Vec<(String, String)>)
    ensures
        crate::dev::pair_views(r@) == scaffold_files_spec(),
{
    let r = vec![
        (String::from_str("index.html"), String::from_str(INDEX_HTML)),
        (String::from_str("styles/main.css"), String::from_str(MAIN_CSS)),
        (String::from_str("src/app.js"), String::from_str(APP_JS)),
        (String::from_str("packages/.registry.json"), String::from_str("{}")),
        (String::from_str(".gitignore"), String::from_str("dist/\n")),
    ];
    assert(crate::dev::pair_views(r@) =~= scaffold_files_spec());
    r
}

/// The `glass.json` of a new project; the name is written as it is.
pub fn glass_json(name: &str) -> (r: String)
    ensures
        r@ == "{\"name\":\""@ + name@ + "\",\"version\":\"0.1.0\",\"entry\":\"src/app.js\"}"@,
{
    let mut s = String::from_str("{\"name\":\"");
    push_str(&mut s, name);
    push_str(&mut s, "\",\"version\":\"0.1.0\",\"entry\":\"src/app.js\"}");
    s
}

/// Where a framework version is downloaded from: the latest release's
/// asset, or the asset of the tag `v<version>`.
pub open spec fn glasshouse_url_spec(version: Seq<char>) -> Seq<char> {
    if version == "latest"@ {
        GLASSHOUSE_RELEASES@ + "/latest/download/glasshouse.zip"@
    } else {
        GLASSHOUSE_RELEASES@ + "/download/v"@ + version + "/glasshouse-v"@ + version + ".zip"@
    }
}

/// Where a framework version is downloaded from.
pub fn glasshouse_url(version: &str) -> (r: String)
    ensures
        r@ == glasshouse_url_spec(version@),
{
    let mut s = String::from_str(GLASSHOUSE_RELEASES);
    if str_eq(version, "latest") {
        push_str(&mut s, "/latest/download/glasshouse.zip");
    } else {
        push_str(&mut s, "/download/v");
        push_str(&mut s, version);
        push_str(&mut s, "/glasshouse-v");
        push_str(&mut s, version);
        push_str(&mut s, ".zip");
    }
    s
}

/// What `glas update` does once it knows the newest release.
pub enum UpdateStep {
    /// Nothing to do: the line to print.
    UpToDate(String),
    /// Only asked to check: the line to print.
    Available(String),
    /// Download and replace the tool: the line to print first.
    Update(String),
}

/// The version of the running tool as releases tag it.
pub open spec fn current_tag() -> Seq<char> {
    "v"@ + VERSION@
}

/// Decides `glas update` from the newest release's tag.
pub fn update_step(latest: &str, check: bool) -> (r: UpdateStep)
    ensures
        latest@ == current_tag() ==> (r matches UpdateStep::UpToDate(l) && l@ == "glas is up to date ("@
            + current_tag() + ")."@),
        latest@ != current_tag() && check ==> (r matches UpdateStep::Available(l) && l@ == "glas "@ + current_tag()
            + " → "@ + latest@ + " (update available)"@),
        latest@ != current_tag() && !check ==> (r matches UpdateStep::Update(l) && l@ == "glas "@ + current_tag()
            + " → "@ + latest@ + " — updating..."@),
{
    let mut current = String::from_str("v");
    push_str(&mut current, VERSION);
    if str_eq(latest, current.as_str()) {
        let mut l = String::from_str("glas is up to date (");
        push_str(&mut l, current.as_str());
        push_str(&mut l, ").");
        return UpdateStep::UpToDate(l);
    }
    let mut l = String::from_str("glas ");
    push_str(&mut l, current.as_str());
    push_str(&mut l, " → ");
    push_str(&mut l, latest);
    if check {
        push_str(&mut l, " (update available)");
        UpdateStep::Available(l)
    } else {
        push_str(&mut l, " — updating...");
        UpdateStep::Update(l)
    }
}

/// Where a version of the tool is downloaded from.
pub fn cli_download_url(version: &str) -> (r: String)
    ensures
        r@ == GLAS_RELEASES@ + "/download/"@ + version@ + "/glas.exe"@,
{
    let mut s = String::from_str(GLAS_RELEASES);
    push_str(&mut s, "/download/");
    push_str(&mut s, version);
    push_str(&mut s, "/glas.exe");
    s
}

/// The batch file that deletes the replaced tool, then itself.
pub fn cleanup_script(backup: &str) -> (r: String)
    ensures
        r@ == "@echo off\r\ntimeout /t 1 /nobreak >nul\r\ndel /f \""@ + backup@ + "\" 2>nul\r\ndel /f \"%~f0\" 2>nul\r\n"@,
{
    let mut s = String::from_str("@echo off\r\ntimeout /t 1 /nobreak >nul\r\ndel /f \"");
    push_str(&mut s, backup);
    push_str(&mut s, "\" 2>nul\r\ndel /f \"%~f0\" 2>nul\r\n");
    s
}

/// Where a tagged framework release is downloaded from.
pub fn glasshouse_release_url(tag: &str) -> (r: String)
    ensures
        r@ == "https://github.com/OniuUI/GlassHouse/releases/download/"@ + tag@ + "/glasshouse.zip"@,
{
    let mut s = String::from_str("https://github.com/OniuUI/GlassHouse/releases/download/");
    push_str(&mut s, tag);
    push_str(&mut s, "/glasshouse.zip");
    s
}

/// The line of one release: its tag, its name, whether it is a
/// pre-release, and a mark on the latest stable one.
pub open spec fn release_line(r: (Seq<char>, Seq<char>, bool), latest: Seq<char>) -> Seq<char> {
    "  "@ + r.0 + "  "@ + r.1 + "  "@ + (if r.2 {
        "(pre-release)"@
    } else {
        "(stable)"@
    }) + (if !r.2 && r.0 == latest {
        " ← latest"@
    } else {
        ""@
    })
}

pub open spec fn release_lines_of(rs: Seq<(Seq<char>, Seq<char>, bool)>, latest: Seq<char>) -> Seq<Seq<char>>
    decreases rs.len(),
{
    if rs.len() == 0 {
        Seq::empty()
    } else {
        release_lines_of(rs.drop_last(), latest).push(release_line(rs.last(), latest))
    }
}

/// The lines of `glas glasshouse list`: each release, the latest stable one
/// marked, then how to install one.
pub open spec fn release_list_spec(rs: Seq<(Seq<char>, Seq<char>, bool)>) -> Seq<Seq<char>> {
    if rs.len() == 0 {
        seq!["No releases found."@]
    } else {
        let latest = match first_stable(rs) {
            Some(t) => t,
            None => ""@,
        };
        seq![""@] + release_lines_of(rs, latest) + seq![""@, "Install: glas init my-app --glasshouse <version>"@]
    }
}

/// The lines of `glas glasshouse list`.
pub fn release_list(rs: &[Release]) -> (r: Vec<String>)
    ensures
        views(r@) == release_list_spec(release_views(rs@)),
{
    let mut lines: Vec<String> = Vec::new();
    if rs.len() == 0 {
        lines.push(String::from_str("No releases found."));
        assert(views(lines@) =~= seq!["No releases found."@]);
        return lines;
    }
    let latest = match crate::releases::first_stable_tag(rs) {
        Some(t) => t,
        None => String::from_str(""),
    };
    let ghost rv = release_views(rs@);
    lines.push(String::from_str(""));
    let ghost top = views(lines@);
    assert(top =~= seq![""@]);
    let mut i: usize = 0;
    while i < rs.len()
        invariant
            i <= rs@.len() == rv.len(),
            rv == release_views(rs@),
            views(lines@) == top + release_lines_of(rv.take(i as int), latest@),
        decreases rs.len() - i,
    {
        assert(rv.take(i + 1).drop_last() =~= rv.take(i as int));
        assert(rv[i as int] == (rs@[i as int].0@, rs@[i as int].1@, rs@[i as int].2));
        let mut l = String::from_str("  ");
        push_str(&mut l, rs[i].0.as_str());
        push_str(&mut l, "  ");
        push_str(&mut l, rs[i].1.as_str());
        push_str(&mut l, "  ");
        if rs[i].2 {
            push_str(&mut l, "(pre-release)");
        } else {
            push_str(&mut l, "(stable)");
        }
        if !rs[i].2 && str_eq(rs[i].0.as_str(), latest.as_str()) {
            push_str(&mut l, " ← latest");
        } else {
            push_str(&mut l, "");
        }
        let ghost before = views(lines@);
        lines.push(l);
        assert(views(lines@) =~= before.push(l@));
        i = i + 1;
    }
    assert(rv.take(rv.len() as int) =~= rv);
    lines.push(String::from_str(""));
    lines.push(String::from_str("Install: glas init my-app --glasshouse <version>"));
    lines
}

} // verus!
