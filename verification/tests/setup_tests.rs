use lib::installer::{blue, box_bottom, box_line, box_top, cyan, dim, divider, green, parse_arg, red};
use lib::setup::{
    cleanup_dir_script, default_install_dir, download_command, glas_bat, glas_exe_url, latest_tag_from, path_without, profile_needs_line,
    profile_entry, profile_without, qjs_asset, qjs_url, register_commands, tagged_asset_url, uninstall_exe_command,
    uninstall_ps1_command, uninstall_script, unpack_command, version_tag, GH_RELEASES, REG_UNINSTALL_KEY,
};

fn strings(v: &[&str]) -> Vec<String> {
    v.iter().map(|s| s.to_string()).collect()
}

#[test]
fn latest_stable_tag_by_scanning() {
    let raw = r#"[{"tag_name":"v2.0.0-beta","prerelease":true},{"tag_name":"v1.9.0","prerelease":false}]"#;
    assert_eq!(latest_tag_from(raw), Some("v1.9.0".to_string()));
    let pre = r#"[{"tag_name":"v3.0.0-rc","prerelease":true},{"tag_name":"v2.9.0-rc","prerelease":true}]"#;
    assert_eq!(latest_tag_from(pre), Some("v3.0.0-rc".to_string()));
    let no_v = r#"[{"tag_name":"release-1","prerelease":false}]"#;
    assert_eq!(latest_tag_from(no_v), Some("v0.1.0".to_string()));
    assert_eq!(latest_tag_from(""), Some("v0.1.0".to_string()));
}

#[test]
fn tag_pick_that_would_cut_a_character() {
    assert_eq!(latest_tag_from("\"tag_name\"✓\"v1\""), None);
}

#[test]
fn download_urls() {
    assert_eq!(glas_exe_url("latest"), "https://github.com/OniuUI/Glas-CLI/releases/latest/download/glas.exe");
    assert_eq!(glas_exe_url("0.2.0"), "https://github.com/OniuUI/Glas-CLI/releases/download/v0.2.0/glas.exe");
    assert_eq!(
        tagged_asset_url(GH_RELEASES, "v2.0.0", "glasshouse.zip"),
        "https://github.com/OniuUI/GlassHouse/releases/download/v2.0.0/glasshouse.zip"
    );
    assert_eq!(version_tag("1.0.0"), "v1.0.0");
    assert_eq!(qjs_asset(true, false), "qjs-windows-x86_64.exe");
    assert_eq!(qjs_asset(false, true), "qjs-darwin");
    assert_eq!(qjs_asset(false, false), "qjs-linux-x86_64");
    assert_eq!(
        qjs_url("qjs-darwin"),
        "https://github.com/quickjs-ng/quickjs/releases/download/v0.8.0/qjs-darwin"
    );
}

#[test]
fn shell_commands() {
    assert_eq!(download_command("http://x/a", "/t/a", false), "curl -L -o '/t/a' 'http://x/a'");
    assert_eq!(
        download_command("http://x/a", "C:\\a", true),
        "powershell -Command \"[Net.ServicePointManager]::SecurityProtocol = [Net.SecurityProtocolType]::Tls12; Invoke-WebRequest -Uri 'http://x/a' -OutFile 'C:\\a'\""
    );
    assert_eq!(unpack_command("/t/g.zip", "/d", false), "unzip -o '/t/g.zip' -d '/d'");
    assert_eq!(
        unpack_command("g.zip", "d", true),
        "powershell -Command \"Expand-Archive -Path 'g.zip' -DestinationPath 'd' -Force\""
    );
}

#[test]
fn install_dirs_and_profile() {
    assert_eq!(default_install_dir("/home/u", false), "/home/u/.glasshouse");
    assert_eq!(default_install_dir("C:\\Users\\u\\AppData\\Local", true), "C:\\Users\\u\\AppData\\Local\\GlassHouse");
    assert_eq!(profile_entry("/home/u/.glasshouse"), "\nexport PATH=\"$PATH:/home/u/.glasshouse\"\n");
    assert_eq!(glas_bat("C:\\G"), "@echo off\r\nsetlocal\r\n\"C:\\G\\glas.exe\" %*\r\n");
}

#[test]
fn uninstall_script_escapes_backslashes() {
    let s = uninstall_script("C:\\Users\\u\\GlassHouse");
    assert!(s.starts_with("# Glas CLI Uninstaller\nWrite-Host \"Uninstalling Glas CLI...\"\n\n$dir = \"C:\\\\Users\\\\u\\\\GlassHouse\"\n"));
    assert!(s.contains(&format!("reg delete \"{}\" /f 2>$null", REG_UNINSTALL_KEY)));
    assert!(s.ends_with("Write-Host \"Glas CLI uninstalled.\"\n"));
}

#[test]
fn registry_commands() {
    let cmds = register_commands("\"C:\\G\\glas-uninstall.exe\"", "0.1.0", "C:\\G");
    assert_eq!(cmds.len(), 8);
    assert_eq!(
        cmds[0],
        format!("reg add \"{}\" /v DisplayName /d \"Glas CLI\" /f", REG_UNINSTALL_KEY)
    );
    assert_eq!(
        cmds[1],
        format!("reg add \"{}\" /v UninstallString /d \"\"C:\\G\\glas-uninstall.exe\"\" /f", REG_UNINSTALL_KEY)
    );
    assert_eq!(cmds[3], format!("reg add \"{}\" /v DisplayVersion /d \"0.1.0\" /f", REG_UNINSTALL_KEY));
    assert_eq!(cmds[4], format!("reg add \"{}\" /v InstallLocation /d \"C:\\G\" /f", REG_UNINSTALL_KEY));
    assert_eq!(
        cmds[7],
        format!("reg add \"{}\" /v URLInfoAbout /d \"https://github.com/OniuUI/Glas-CLI\" /f", REG_UNINSTALL_KEY)
    );
    assert_eq!(
        uninstall_ps1_command("/opt/g"),
        "powershell -ExecutionPolicy Bypass -File \"/opt/g/glas-uninstall.ps1\""
    );
    assert_eq!(uninstall_exe_command("/opt/g"), "\"/opt/g/glas-uninstall.exe\"");
}

#[test]
fn uninstall_cleanups() {
    assert_eq!(path_without("C:\\a;C:\\G\\;C:\\b;C:\\G", "C:\\G"), "C:\\a;C:\\b");
    assert_eq!(path_without("C:\\a", "C:\\G\\\\"), "C:\\a");
    assert_eq!(
        profile_without("export A=1\nexport PATH=\"$PATH:/opt/g\"\r\nalias x=y\n", "/opt/g"),
        "export A=1\nalias x=y"
    );
    assert_eq!(profile_without("", "/opt/g"), "");
    assert_eq!(
        cleanup_dir_script("C:\\G"),
        "@echo off\r\ntimeout /t 2 /nobreak >nul\r\nrmdir /s /q \"C:\\G\" 2>nul\r\ndel /f \"%~f0\" 2>nul\r\n"
    );
}

#[test]
fn console_rendering() {
    assert_eq!(green("ok"), "\x1b[32mok\x1b[0m");
    assert_eq!(red("x"), "\x1b[31mx\x1b[0m");
    assert_eq!(blue("x"), "\x1b[34mx\x1b[0m");
    assert_eq!(cyan("x"), "\x1b[36mx\x1b[0m");
    assert_eq!(dim("x"), "\x1b[2mx\x1b[0m");
    assert_eq!(box_top(6), "╔════╗");
    assert_eq!(box_bottom(3), "╚═╝");
    assert_eq!(box_bottom(1), "╚╝");
    assert_eq!(divider(3), "───");
    assert_eq!(box_line("ab", 10), "║  ab  ║");
    assert_eq!(box_line("abc", 10), "║ abc  ║");
    assert_eq!(box_line("é", 8), "║ é ║");
    assert_eq!(box_line("toolong", 6), "║toolong║");
}

#[test]
fn installer_args() {
    let a = strings(&["inst", "--dir", "/opt/g", "--glas"]);
    assert_eq!(parse_arg(&a, "--dir"), Some("/opt/g".to_string()));
    assert_eq!(parse_arg(&a, "--glas"), None);
    assert_eq!(parse_arg(&a, "--glasshouse"), None);
}

#[test]
fn installer_release_list_download() {
    assert_eq!(
        lib::setup::installer_api_script("https://api/x", "/t/x.json"),
        "[Net.ServicePointManager]::SecurityProtocol = [Net.SecurityProtocolType]::Tls12\r\nInvoke-WebRequest -Uri 'https://api/x' -OutFile '/t/x.json' -Headers @{'User-Agent'='glas-installer/0.1'}\r\n"
    );
    assert_eq!(
        lib::setup::installer_api_command("https://api/x", "/t/x.json"),
        "curl -s -L -H 'User-Agent: glas-installer/0.1' -o '/t/x.json' 'https://api/x'"
    );
}

#[test]
fn each_release_judged_by_its_own_flag() {
    let raw = r#"[{"tag_name":"v3.0.0-rc","prerelease":true},{"tag_name":"v2.0.0","prerelease":false},{"tag_name":"v1.9.0-rc","prerelease":true}]"#;
    assert_eq!(latest_tag_from(raw), Some("v2.0.0".to_string()));
    let last_pre = r#"[{"tag_name":"v2.0.0-rc","prerelease":true}]"#;
    assert_eq!(latest_tag_from(last_pre), Some("v2.0.0-rc".to_string()));
}

#[test]
fn profile_line_only_when_missing() {
    assert!(profile_needs_line("export PATH=/usr/bin\n", "/home/u/.glas/bin"));
    assert!(!profile_needs_line("export PATH=\"/home/u/.glas/bin:$PATH\"\n", "/home/u/.glas/bin"));
    assert!(!profile_needs_line("anything", ""));
    assert!(profile_needs_line("", "/x"));
}
