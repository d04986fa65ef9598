//! The installer and the uninstaller: the release tag they fetch, the
//! download commands, and the scripts and registry entries they write.

use vstd::prelude::*;
use crate::text::{str_eq, push_str, push_char, to_chars, find_chars, find_from, occurs_at, lemma_find_from, string_of_range, contains, views, split_char, split_spec};
use crate::dev_http::{char_width, width_of};
use crate::path::{join_path, join_path_of};

verus! {

/// Where reading resumes after a `"tag_name"` key that ends at `j`: twelve
/// bytes after the key's start, that is two one-byte characters or one
/// two-byte character further on; `None` where that is not the end of a
/// character within the text.
pub open spec fn after_key(s: Seq<char>, j: int) -> Option<int> {
    if 0 <= j && j + 2 <= s.len() && char_width(s[j]) == 1 && char_width(s[j + 1]) == 1 {
        Some(j + 2)
    } else if 0 <= j && j + 1 <= s.len() && char_width(s[j]) == 2 {
        Some(j + 1)
    } else {
        None
    }
}

/// The fallback tag.
pub open spec fn tag_or_default(best: Seq<char>) -> Seq<char> {
    if best.len() > 0 {
        best
    } else {
        "v0.1.0"@
    }
}

/// Whether the release whose tag's text runs from `st` to `e` is marked
/// `"prerelease":true`: the mark comes after its tag and before the next
/// release's `"tag_name"` key, or anywhere after its tag when it is the
/// last release.
pub open spec fn own_prerelease(s: Seq<char>, st: int, e: int) -> bool {
    match find_from(s, "\"prerelease\":true"@, st) {
        None => false,
        Some(p) => match find_from(s, "\"tag_name\""@, e) {
            None => true,
            Some(n) => p < n,
        },
    }
}

/// Where the next `"tag_name"` value at or after `i` lies.
pub enum TagStep {
    /// No further tag: no further key, or no closing quote.
    Done,
    /// The value would start inside a character.
    Cut,
    /// The tag's text runs from the first position to the second.
    At(int, int),
}

pub open spec fn next_tag(s: Seq<char>, i: int) -> TagStep {
    match find_from(s, "\"tag_name\""@, i) {
        None => TagStep::Done,
        Some(k) => match after_key(s, k + "\"tag_name\""@.len()) {
            None => TagStep::Cut,
            Some(st) => match find_from(s, "\""@, st) {
                None => TagStep::Done,
                Some(e) => TagStep::At(st, e),
            },
        },
    }
}

/// The tags of a release list from position `i` on, in order, each with
/// whether its own release is marked as a pre-release; and whether the
/// reading stopped inside a character.
pub open spec fn release_tags(s: Seq<char>, i: int) -> (Seq<(Seq<char>, bool)>, bool)
    decreases s.len() - i,
{
    if i < 0 || i > s.len() {
        (Seq::empty(), true)
    } else {
        match next_tag(s, i) {
            TagStep::Done => (Seq::empty(), false),
            TagStep::Cut => (Seq::empty(), true),
            TagStep::At(st, e) => {
                proof {
                    lemma_next_tag(s, i);
                }
                let rest = release_tags(s, e);
                (seq![(s.subrange(st, e), own_prerelease(s, st, e))] + rest.0, rest.1)
            },
        }
    }
}

/// Whether a tag starts with `v`.
pub open spec fn is_v_tag(t: Seq<char>) -> bool {
    t.len() > 0 && t[0] == 'v'
}

/// The first tag that starts with `v`, among all tags or among those whose
/// release is not a pre-release.
pub open spec fn first_v_tag(ts: Seq<(Seq<char>, bool)>, stable_only: bool) -> Option<Seq<char>>
    decreases ts.len(),
{
    if ts.len() == 0 {
        None
    } else if is_v_tag(ts[0].0) && (!stable_only || !ts[0].1) {
        Some(ts[0].0)
    } else {
        first_v_tag(ts.drop_first(), stable_only)
    }
}

/// The tag the installer takes from a release list: the first tag that
/// starts with `v` and whose own release is not a pre-release; else the
/// first tag that starts with `v`; else `v0.1.0`. `None` where no such
/// release comes before the point where reading would stop inside a
/// character.
pub open spec fn chosen_tag(s: Seq<char>) -> Option<Seq<char>> {
    let (ts, cut) = release_tags(s, 0);
    match first_v_tag(ts, true) {
        Some(t) => Some(t),
        None => if cut {
            None
        } else {
            match first_v_tag(ts, false) {
                Some(t) => Some(t),
                None => Some("v0.1.0"@),
            }
        },
    }
}

pub proof fn lemma_next_tag(s: Seq<char>, i: int)
    requires
        0 <= i <= s.len(),
    ensures
        next_tag(s, i) matches TagStep::At(st, e) ==> i < st <= e <= s.len(),
{
    lemma_find_from(s, "\"tag_name\""@, i);
    match find_from(s, "\"tag_name\""@, i) {
        Some(k) => match after_key(s, k + "\"tag_name\""@.len()) {
            Some(st) => lemma_find_from(s, "\""@, st),
            None => {},
        },
        None => {},
    }
}

/// The scan that the installer's loop performs, from position `i` with the
/// first `v` tag seen so far.
spec fn tag_scan(s: Seq<char>, i: int, best: Seq<char>) -> Option<Seq<char>>
    decreases s.len() - i,
{
    if i < 0 || i > s.len() {
        None
    } else {
        match find_from(s, "\"tag_name\""@, i) {
            None => Some(tag_or_default(best)),
            Some(k) => match after_key(s, k + "\"tag_name\""@.len()) {
                None => None,
                Some(st) => match find_from(s, "\""@, st) {
                    None => Some(tag_or_default(best)),
                    Some(e) => {
                        proof {
                            lemma_find_from(s, "\"tag_name\""@, i);
                            lemma_find_from(s, "\""@, st);
                        }
                        let tag = s.subrange(st, e);
                        let v = tag.len() > 0 && tag[0] == 'v';
                        if !own_prerelease(s, st, e) && v {
                            Some(tag)
                        } else {
                            tag_scan(s, e, if best.len() == 0 && v { tag } else { best })
                        }
                    },
                },
            },
        }
    }
}

proof fn lemma_tag_scan(s: Seq<char>, i: int, best: Seq<char>)
    requires
        best.len() == 0 || is_v_tag(best),
    ensures
        tag_scan(s, i, best) == ({
            let (ts, cut) = release_tags(s, i);
            match first_v_tag(ts, true) {
                Some(t) => Some(t),
                None => if cut {
                    None
                } else if best.len() > 0 {
                    Some(best)
                } else {
                    match first_v_tag(ts, false) {
                        Some(t) => Some(t),
                        None => Some("v0.1.0"@),
                    }
                },
            }
        }),
    decreases s.len() - i,
{
    if 0 <= i <= s.len() {
        lemma_next_tag(s, i);
        match next_tag(s, i) {
            TagStep::At(st, e) => {
                let t = s.subrange(st, e);
                let nb = if best.len() == 0 && is_v_tag(t) { t } else { best };
                lemma_tag_scan(s, e, nb);
                let rest = release_tags(s, e);
                let ts = seq![(t, own_prerelease(s, st, e))] + rest.0;
                assert(ts.drop_first() =~= rest.0);
                assert(ts[0] == (t, own_prerelease(s, st, e)));
            },
            _ => {},
        }
    }
}

/// The tag the installer takes from a release list.
pub fn latest_tag_from(raw: &str) -> (r: Option<String>)
    ensures
        crate::utils::opt_view(r) == chosen_tag(raw@),
{
    proof {
        lemma_tag_scan(raw@, 0, Seq::empty());
    }
    let s = to_chars(raw);
    let key = to_chars("\"tag_name\"");
    let quote = to_chars("\"");
    let pre = to_chars("\"prerelease\":true");
    let mut best = String::new();
    let mut from: usize = 0;
    loop
        invariant
            from <= s@.len(),
            s@ == raw@,
            key@ == "\"tag_name\""@,
            quote@ == "\""@,
            pre@ == "\"prerelease\":true"@,
            tag_scan(s@, from as int, best@) == tag_scan(raw@, 0, Seq::empty()),
            tag_scan(raw@, 0, Seq::empty()) == chosen_tag(raw@),
            best@.len() == 0 || is_v_tag(best@),
        decreases s@.len() - from,
    {
        proof {
            lemma_find_from(s@, key@, from as int);
        }
        let k = match find_chars(s.as_slice(), key.as_slice(), from) {
            Some(k) => k,
            None => {
                if best.as_str().unicode_len() > 0 {
                    return Some(best);
                }
                return Some(String::from_str("v0.1.0"));
            },
        };
        assert(occurs_at(s@, key@, k as int));
        assert(s@.len() == s.len());
        let j = k + key.len();
        let st: usize = if j < s.len() && s.len() - j >= 2 && width_of(s[j]) == 1 && width_of(s[j + 1]) == 1 {
            j + 2
        } else if j < s.len() && width_of(s[j]) == 2 {
            j + 1
        } else {
            return None;
        };
        assert(after_key(s@, j as int) == Some(st as int));
        proof {
            lemma_find_from(s@, quote@, st as int);
        }
        let e = match find_chars(s.as_slice(), quote.as_slice(), st) {
            Some(e) => e,
            None => {
                if best.as_str().unicode_len() > 0 {
                    return Some(best);
                }
                return Some(String::from_str("v0.1.0"));
            },
        };
        let tag = string_of_range(s.as_slice(), st, e);
        let v = e > st && s[st] == 'v';
        assert(v == (tag@.len() > 0 && tag@[0] == 'v'));
        let marked = match find_chars(s.as_slice(), pre.as_slice(), st) {
            None => false,
            Some(p) => match find_chars(s.as_slice(), key.as_slice(), e) {
                None => true,
                Some(n) => p < n,
            },
        };
        assert(marked == own_prerelease(s@, st as int, e as int));
        if !marked && v {
            return Some(tag);
        }
        if best.as_str().unicode_len() == 0 && v {
            best = tag;
        }
        from = e;
    }
}

/// The tools' release pages.
pub const GLAS_RELEASES: &'static str = "https://github.com/OniuUI/Glas-CLI/releases";

/// The framework's release pages.
pub const GH_RELEASES: &'static str = "https://github.com/OniuUI/GlassHouse/releases";

/// The registry key of the uninstall entry.
pub const REG_UNINSTALL_KEY: &'static str = "HKCU\\SOFTWARE\\Microsoft\\Windows\\CurrentVersion\\Uninstall\\GlasCLI";

/// Where the installer downloads the tool: the latest release's asset, or
/// the asset of the tag `v<version>`.
pub fn glas_exe_url(version: &str) -> (r: String)
    ensures
        r@ == (if version@ == "latest"@ {
            GLAS_RELEASES@ + "/latest/download/glas.exe"@
        } else {
            GLAS_RELEASES@ + "/download/v"@ + version@ + "/glas.exe"@
        }),
{
    let mut s = String::from_str(GLAS_RELEASES);
    if str_eq(version, "latest") {
        push_str(&mut s, "/latest/download/glas.exe");
    } else {
        push_str(&mut s, "/download/v");
        push_str(&mut s, version);
        push_str(&mut s, "/glas.exe");
    }
    s
}

/// Where an asset of a tagged release is downloaded from.
pub fn tagged_asset_url(releases: &str, tag: &str, asset: &str) -> (r: String)
    ensures
        r@ == releases@ + "/download/"@ + tag@ + "/"@ + asset@,
{
    let mut s = String::from_str(releases);
    push_str(&mut s, "/download/");
    push_str(&mut s, tag);
    push_str(&mut s, "/");
    push_str(&mut s, asset);
    s
}

/// The tag of a version asked for by number: `v` and the number.
pub fn version_tag(version: &str) -> (r: String)
    ensures
        r@ == "v"@ + version@,
{
    let mut s = String::from_str("v");
    push_str(&mut s, version);
    s
}

/// The QuickJS build for the platform.
pub fn qjs_asset(windows: bool, macos: bool) -> (r: &'static str)
    ensures
        r@ == (if windows {
            "qjs-windows-x86_64.exe"@
        } else if macos {
            "qjs-darwin"@
        } else {
            "qjs-linux-x86_64"@
        }),
{
    if windows {
        "qjs-windows-x86_64.exe"
    } else if macos {
        "qjs-darwin"
    } else {
        "qjs-linux-x86_64"
    }
}

/// Where a QuickJS build is downloaded from.
pub fn qjs_url(asset: &str) -> (r: String)
    ensures
        r@ == "https://github.com/quickjs-ng/quickjs/releases/download/v0.8.0/"@ + asset@,
{
    let mut s = String::from_str("https://github.com/quickjs-ng/quickjs/releases/download/v0.8.0/");
    push_str(&mut s, asset);
    s
}

/// The command that downloads `url` to `dest`.
pub fn download_command(url: &str, dest: &str, windows: bool) -> (r: String)
    ensures
        r@ == (if windows {
            "powershell -Command \"[Net.ServicePointManager]::SecurityProtocol = [Net.SecurityProtocolType]::Tls12; Invoke-WebRequest -Uri '"@
                + url@ + "' -OutFile '"@ + dest@ + "'\""@
        } else {
            "curl -L -o '"@ + dest@ + "' '"@ + url@ + "'"@
        }),
{
    if windows {
        let mut s = String::from_str(
            "powershell -Command \"[Net.ServicePointManager]::SecurityProtocol = [Net.SecurityProtocolType]::Tls12; Invoke-WebRequest -Uri '",
        );
        push_str(&mut s, url);
        push_str(&mut s, "' -OutFile '");
        push_str(&mut s, dest);
        push_str(&mut s, "'\"");
        s
    } else {
        let mut s = String::from_str("curl -L -o '");
        push_str(&mut s, dest);
        push_str(&mut s, "' '");
        push_str(&mut s, url);
        push_str(&mut s, "'");
        s
    }
}

/// The command that unpacks `zip` into `dest`.
pub fn unpack_command(zip: &str, dest: &str, windows: bool) -> (r: String)
    ensures
        r@ == (if windows {
            "powershell -Command \"Expand-Archive -Path '"@ + zip@ + "' -DestinationPath '"@ + dest@ + "' -Force\""@
        } else {
            "unzip -o '"@ + zip@ + "' -d '"@ + dest@ + "'"@
        }),
{
    if windows {
        let mut s = String::from_str("powershell -Command \"Expand-Archive -Path '");
        push_str(&mut s, zip);
        push_str(&mut s, "' -DestinationPath '");
        push_str(&mut s, dest);
        push_str(&mut s, "' -Force\"");
        s
    } else {
        let mut s = String::from_str("unzip -o '");
        push_str(&mut s, zip);
        push_str(&mut s, "' -d '");
        push_str(&mut s, dest);
        push_str(&mut s, "'");
        s
    }
}

/// Where the installer puts the tool by default: under the local
/// application data on Windows, under the home directory elsewhere.
pub fn default_install_dir(base: &str, windows: bool) -> (r: String)
    ensures
        r@ == (if windows {
            base@ + "\\GlassHouse"@
        } else {
            base@ + "/.glasshouse"@
        }),
{
    let mut s = String::from_str(base);
    if windows {
        push_str(&mut s, "\\GlassHouse");
    } else {
        push_str(&mut s, "/.glasshouse");
    }
    s
}

/// The line appended to the shell profile to put `dir` on the path.
pub fn profile_entry(dir: &str) -> (r: String)
    ensures
        r@ == "\nexport PATH=\"$PATH:"@ + dir@ + "\"\n"@,
{
    let mut s = String::from_str("\nexport PATH=\"$PATH:");
    push_str(&mut s, dir);
    push_str(&mut s, "\"\n");
    s
}

/// The batch file that runs the installed tool.
pub fn glas_bat(install_dir: &str) -> (r: String)
    ensures
        r@ == "@echo off\r\nsetlocal\r\n\""@ + install_dir@ + "\\glas.exe\" %*\r\n"@,
{
    let mut s = String::from_str("@echo off\r\nsetlocal\r\n\"");
    push_str(&mut s, install_dir);
    push_str(&mut s, "\\glas.exe\" %*\r\n");
    s
}

/// `s` with each backslash doubled.
pub open spec fn double_backslashes(s: Seq<char>) -> Seq<char>
    decreases s.len(),
{
    if s.len() == 0 {
        Seq::empty()
    } else {
        double_backslashes(s.drop_last()) + if s.last() == '\\' {
            seq!['\\', '\\']
        } else {
            seq![s.last()]
        }
    }
}

/// The uninstall script up to the install directory.
pub const UNINSTALL_PS1_HEAD: &'static str = r###"# Glas CLI Uninstaller
Write-Host "Uninstalling Glas CLI..."

$dir = ""###;

/// The uninstall script between the install directory and the registry
/// key.
pub const UNINSTALL_PS1_MID: &'static str = r###""
$currentPath = [Environment]::GetEnvironmentVariable("Path", "User")
if ($currentPath -like "*$dir*") {
    $newPath = ($currentPath -split ';' | Where-Object { $_ -ne $dir -and $_ -ne "$dir\" } ) -join ';'
    [Environment]::SetEnvironmentVariable("Path", $newPath, "User")
    Write-Host "  Removed from PATH."
}

if (Test-Path -LiteralPath "$dir") {
    Remove-Item -LiteralPath "$dir" -Recurse -Force -ErrorAction SilentlyContinue
    Write-Host "  Removed files."
}

reg delete ""###;

/// The end of the uninstall script.
pub const UNINSTALL_PS1_TAIL: &'static str = r###"" /f 2>$null

Write-Host "Glas CLI uninstalled."
"###;

/// The PowerShell uninstall script for `install_dir`.
pub fn uninstall_script(install_dir: &str) -> (r: String)
    ensures
        r@ == UNINSTALL_PS1_HEAD@ + double_backslashes(install_dir@) + UNINSTALL_PS1_MID@ + REG_UNINSTALL_KEY@
            + UNINSTALL_PS1_TAIL@,
{
    let mut s = String::from_str(UNINSTALL_PS1_HEAD);
    let ghost head = s@;
    let v = to_chars(install_dir);
    let mut i: usize = 0;
    while i < v.len()
        invariant
            i <= v@.len(),
            v@ == install_dir@,
            s@ == head + double_backslashes(v@.take(i as int)),
        decreases v.len() - i,
    {
        assert(v@.take(i + 1).drop_last() =~= v@.take(i as int));
        if v[i] == '\\' {
            push_char(&mut s, '\\');
            push_char(&mut s, '\\');
        } else {
            push_char(&mut s, v[i]);
        }
        assert(s@ =~= head + double_backslashes(v@.take(i + 1)));
        i = i + 1;
    }
    assert(v@.take(v@.len() as int) =~= v@);
    push_str(&mut s, UNINSTALL_PS1_MID);
    push_str(&mut s, REG_UNINSTALL_KEY);
    push_str(&mut s, UNINSTALL_PS1_TAIL);
    s
}

/// The command that sets one value of the uninstall entry.
pub open spec fn reg_add(key: Seq<char>, value: Seq<char>) -> Seq<char> {
    "reg add \""@ + REG_UNINSTALL_KEY@ + "\" /v "@ + key + " /d \""@ + value + "\" /f"@
}

/// The values of the uninstall entry, each a name and its value.
pub open spec fn uninstall_values(command: Seq<char>, version: Seq<char>, install_dir: Seq<char>) -> Seq<(Seq<char>, Seq<char>)> {
    seq![
        ("DisplayName"@, "Glas CLI"@),
        ("UninstallString"@, command),
        ("Publisher"@, "OniuUI"@),
        ("DisplayVersion"@, version),
        ("InstallLocation"@, install_dir),
        ("NoModify"@, "1"@),
        ("NoRepair"@, "1"@),
        ("URLInfoAbout"@, "https://github.com/OniuUI/Glas-CLI"@),
    ]
}

/// The commands that register the uninstall entry, in order.
pub open spec fn reg_commands(vals: Seq<(Seq<char>, Seq<char>)>) -> Seq<Seq<char>>
    decreases vals.len(),
{
    if vals.len() == 0 {
        Seq::empty()
    } else {
        reg_commands(vals.drop_last()).push(reg_add(vals.last().0, vals.last().1))
    }
}

/// The commands that register the uninstall entry; `command` is what
/// uninstalls.
pub fn register_commands(command: &str, version: &str, install_dir: &str) -> (r: Vec<String>)
    ensures
        views(r@) == reg_commands(uninstall_values(command@, version@, install_dir@)),
{
    let vals: Vec<(&str, &str)> = vec![
        ("DisplayName", "Glas CLI"),
        ("UninstallString", command),
        ("Publisher", "OniuUI"),
        ("DisplayVersion", version),
        ("InstallLocation", install_dir),
        ("NoModify", "1"),
        ("NoRepair", "1"),
        ("URLInfoAbout", "https://github.com/OniuUI/Glas-CLI"),
    ];
    let ghost vv = vals@.map_values(|p: (&str, &str)| (p.0@, p.1@));
    assert(vv =~= uninstall_values(command@, version@, install_dir@));
    let mut out: Vec<String> = Vec::new();
    let mut i: usize = 0;
    while i < vals.len()
        invariant
            i <= vals@.len() == vv.len(),
            vv == vals@.map_values(|p: (&str, &str)| (p.0@, p.1@)),
            views(out@) == reg_commands(vv.take(i as int)),
        decreases vals.len() - i,
    {
        assert(vv.take(i + 1).drop_last() =~= vv.take(i as int));
        assert(vv[i as int] == (vals@[i as int].0@, vals@[i as int].1@));
        let mut c = String::from_str("reg add \"");
        push_str(&mut c, REG_UNINSTALL_KEY);
        push_str(&mut c, "\" /v ");
        push_str(&mut c, vals[i].0);
        push_str(&mut c, " /d \"");
        push_str(&mut c, vals[i].1);
        push_str(&mut c, "\" /f");
        let ghost before = views(out@);
        out.push(c);
        assert(views(out@) =~= before.push(c@));
        i = i + 1;
    }
    assert(vv.take(vv.len() as int) =~= vv);
    out
}

/// The command that runs the uninstall script in `install_dir`.
pub fn uninstall_ps1_command(install_dir: &str) -> (r: String)
    ensures
        r@ == "powershell -ExecutionPolicy Bypass -File \""@ + join_path(install_dir@, "glas-uninstall.ps1"@) + "\""@,
{
    proof {
        reveal_strlit("glas-uninstall.ps1");
    }
    let p = join_path_of(install_dir, "glas-uninstall.ps1");
    let mut s = String::from_str("powershell -ExecutionPolicy Bypass -File \"");
    push_str(&mut s, p.as_str());
    push_str(&mut s, "\"");
    s
}

/// The command that runs the uninstaller in `install_dir`.
pub fn uninstall_exe_command(install_dir: &str) -> (r: String)
    ensures
        r@ == "\""@ + join_path(install_dir@, "glas-uninstall.exe"@) + "\""@,
{
    proof {
        reveal_strlit("glas-uninstall.exe");
    }
    let p = join_path_of(install_dir, "glas-uninstall.exe");
    let mut s = String::from_str("\"");
    push_str(&mut s, p.as_str());
    push_str(&mut s, "\"");
    s
}

/// `s` without its trailing backslashes.
pub open spec fn trim_backslashes(s: Seq<char>) -> Seq<char>
    decreases s.len(),
{
    if s.len() > 0 && s.last() == '\\' {
        trim_backslashes(s.drop_last())
    } else {
        s
    }
}

/// The entries of a `;`-separated path list other than `dir` (trailing
/// backslashes not counted), joined again.
pub open spec fn path_without_spec(path: Seq<char>, dir: Seq<char>) -> Seq<char> {
    join_semicolons(keep_entries(split_spec(path, ';'), trim_backslashes(dir)))
}

pub open spec fn keep_entries(es: Seq<Seq<char>>, d: Seq<char>) -> Seq<Seq<char>>
    decreases es.len(),
{
    if es.len() == 0 {
        Seq::empty()
    } else if trim_backslashes(es.last()) != d {
        keep_entries(es.drop_last(), d).push(es.last())
    } else {
        keep_entries(es.drop_last(), d)
    }
}

pub open spec fn join_semicolons(es: Seq<Seq<char>>) -> Seq<char>
    decreases es.len(),
{
    if es.len() == 0 {
        Seq::empty()
    } else if es.len() == 1 {
        es[0]
    } else {
        join_semicolons(es.drop_last()) + ";"@ + es.last()
    }
}

fn trim_backslashes_of(s: &str) -> (r: String)
    ensures
        r@ == trim_backslashes(s@),
{
    let v = to_chars(s);
    let mut k = v.len();
    assert(v@.take(k as int) =~= v@);
    while k > 0 && v[k - 1] == '\\'
        invariant
            k <= v@.len(),
            v@ == s@,
            trim_backslashes(v@.take(k as int)) == trim_backslashes(s@),
        decreases k,
    {
        assert(v@.take(k as int).drop_last() =~= v@.take(k - 1));
        k = k - 1;
    }
    proof {
        if k > 0 {
            assert(v@.take(k as int).last() == v@[k - 1]);
        }
    }
    assert(v@.subrange(0, k as int) =~= v@.take(k as int));
    string_of_range(v.as_slice(), 0, k)
}

/// The user's path without the install directory.
pub fn path_without(path: &str, dir: &str) -> (r: String)
    ensures
        r@ == path_without_spec(path@, dir@),
{
    let parts = split_char(path, ';');
    let d = trim_backslashes_of(dir);
    let ghost pv = views(parts@);
    let mut out = String::new();
    let mut kept: usize = 0;
    let ghost mut ks: Seq<Seq<char>> = Seq::empty();
    let mut i: usize = 0;
    while i < parts.len()
        invariant
            i <= parts@.len() == pv.len(),
            pv == views(parts@),
            ks == keep_entries(pv.take(i as int), d@),
            kept == ks.len(),
            kept <= i,
            out@ == join_semicolons(ks),
        decreases parts.len() - i,
    {
        assert(pv.take(i + 1).drop_last() =~= pv.take(i as int));
        assert(pv[i as int] == parts@[i as int]@);
        let t = trim_backslashes_of(parts[i].as_str());
        if !str_eq(t.as_str(), d.as_str()) {
            if kept > 0 {
                push_str(&mut out, ";");
            }
            push_str(&mut out, parts[i].as_str());
            proof {
                let ks2 = ks.push(pv[i as int]);
                if ks.len() == 0 {
                    assert(ks2 =~= seq![pv[i as int]]);
                    assert(out@ =~= join_semicolons(ks2));
                } else {
                    assert(ks2.drop_last() =~= ks);
                    assert(out@ =~= join_semicolons(ks2));
                }
                ks = ks2;
            }
            kept = kept + 1;
        }
        i = i + 1;
    }
    assert(pv.take(pv.len() as int) =~= pv);
    out
}

/// The batch file that removes the install directory, then itself.
pub fn cleanup_dir_script(install_dir: &str) -> (r: String)
    ensures
        r@ == "@echo off\r\ntimeout /t 2 /nobreak >nul\r\nrmdir /s /q \""@ + install_dir@ + "\" 2>nul\r\ndel /f \"%~f0\" 2>nul\r\n"@,
{
    let mut s = String::from_str("@echo off\r\ntimeout /t 2 /nobreak >nul\r\nrmdir /s /q \"");
    push_str(&mut s, install_dir);
    push_str(&mut s, "\" 2>nul\r\ndel /f \"%~f0\" 2>nul\r\n");
    s
}


/// A line without the carriage return that may end it.
pub open spec fn strip_cr(l: Seq<char>) -> Seq<char> {
    if l.len() > 0 && l.last() == '\r' {
        l.drop_last()
    } else {
        l
    }
}

/// The lines of a text (`str::lines`): the pieces between line feeds, each
/// without a final carriage return, and no empty last line after a final
/// line feed.
pub open spec fn lines_of(s: Seq<char>) -> Seq<Seq<char>> {
    let ps = split_spec(s, '\n');
    let ps2 = if ps.len() > 0 && ps.last().len() == 0 { ps.drop_last() } else { ps };
    ps2.map_values(|l: Seq<char>| strip_cr(l))
}

/// The lines that do not mention `dir`, in order.
pub open spec fn lines_without(ls: Seq<Seq<char>>, dir: Seq<char>) -> Seq<Seq<char>>
    decreases ls.len(),
{
    if ls.len() == 0 {
        Seq::empty()
    } else if contains(ls.last(), dir) {
        lines_without(ls.drop_last(), dir)
    } else {
        lines_without(ls.drop_last(), dir).push(ls.last())
    }
}

pub open spec fn join_lines(ls: Seq<Seq<char>>) -> Seq<char>
    decreases ls.len(),
{
    if ls.len() == 0 {
        Seq::empty()
    } else if ls.len() == 1 {
        ls[0]
    } else {
        join_lines(ls.drop_last()) + "\n"@ + ls.last()
    }
}

/// The shell profile without the lines that mention the install directory.
pub fn profile_without(contents: &str, dir: &str) -> (r: String)
    ensures
        r@ == join_lines(lines_without(lines_of(contents@), dir@)),
{
    let ps = split_char(contents, '\n');
    let ghost pv = views(ps@);
    let mut n = ps.len();
    if n > 0 && ps[n - 1].as_str().unicode_len() == 0 {
        n = n - 1;
    }
    let ghost kept = if pv.len() > 0 && pv.last().len() == 0 { pv.drop_last() } else { pv };
    assert(kept =~= pv.take(n as int));
    let ghost ls = kept.map_values(|l: Seq<char>| strip_cr(l));
    let dv = to_chars(dir);
    let mut out = String::new();
    let mut count: usize = 0;
    let ghost mut acc: Seq<Seq<char>> = Seq::empty();
    let mut i: usize = 0;
    while i < n
        invariant
            n <= ps@.len() == pv.len(),
            i <= n,
            pv == views(ps@),
            kept == pv.take(n as int),
            ls == kept.map_values(|l: Seq<char>| strip_cr(l)),
            dv@ == dir@,
            acc == lines_without(ls.take(i as int), dir@),
            count == acc.len(),
            count <= i,
            out@ == join_lines(acc),
        decreases n - i,
    {
        assert(ls.take(i + 1).drop_last() =~= ls.take(i as int));
        assert(pv[i as int] == ps@[i as int]@);
        let lv = to_chars(ps[i].as_str());
        let mut e = lv.len();
        if e > 0 && lv[e - 1] == '\r' {
            e = e - 1;
        }
        let line = string_of_range(lv.as_slice(), 0, e);
        assert(ls[i as int] == strip_cr(kept[i as int]));
        assert(line@ =~= strip_cr(pv[i as int]));
        let lc = to_chars(line.as_str());
        let found = find_chars(lc.as_slice(), dv.as_slice(), 0).is_some();
        assert(found == contains(line@, dir@));
        if !found {
            if count > 0 {
                push_str(&mut out, "\n");
            }
            push_str(&mut out, line.as_str());
            proof {
                let acc2 = acc.push(line@);
                if acc.len() == 0 {
                    assert(acc2 =~= seq![line@]);
                    assert(out@ =~= join_lines(acc2));
                } else {
                    assert(acc2.drop_last() =~= acc);
                    assert(out@ =~= join_lines(acc2));
                }
                acc = acc2;
            }
            count = count + 1;
        }
        i = i + 1;
    }
    assert(ls.take(ls.len() as int) =~= ls);
    out
}

/// Whether the installer appends its `PATH` line to a shell profile with
/// these contents: only when the profile does not mention the directory.
pub fn profile_needs_line(profile: &str, dir: &str) -> (r: bool)
    ensures
        r == !contains(profile@, dir@),
{
    let pv = to_chars(profile);
    let dv = to_chars(dir);
    find_chars(pv.as_slice(), dv.as_slice(), 0).is_none()
}

/// The PowerShell script with which the installer downloads a release list
/// from GitHub's API.
pub fn installer_api_script(url: &str, dest: &str) -> (r: String)
    ensures
        r@ == "[Net.ServicePointManager]::SecurityProtocol = [Net.SecurityProtocolType]::Tls12\r\nInvoke-WebRequest -Uri '"@
            + url@ + "' -OutFile '"@ + dest@ + "' -Headers @{'User-Agent'='glas-installer/0.1'}\r\n"@,
{
    let mut s = String::new();
    push_str(&mut s, "[Net.ServicePointManager]::SecurityProtocol = [Net.SecurityProtocolType]::Tls12\r\nInvoke-WebRequest -Uri '");
    push_str(&mut s, url);
    push_str(&mut s, "' -OutFile '");
    push_str(&mut s, dest);
    push_str(&mut s, "' -Headers @{'User-Agent'='glas-installer/0.1'}\r\n");
    s
}

/// The shell command with which the installer downloads a release list
/// from GitHub's API.
pub fn installer_api_command(url: &str, dest: &str) -> (r: String)
    ensures
        r@ == "curl -s -L -H 'User-Agent: glas-installer/0.1' -o '"@ + dest@ + "' '"@ + url@ + "'"@,
{
    let mut s = String::new();
    push_str(&mut s, "curl -s -L -H 'User-Agent: glas-installer/0.1' -o '");
    push_str(&mut s, dest);
    push_str(&mut s, "' '");
    push_str(&mut s, url);
    push_str(&mut s, "'");
    s
}

} // verus!
