use lib::commands::{help_lines, parse_command, version_line, Command, GlasshouseCommand, VERSION};

fn args(v: &[&str]) -> Vec<String> {
    v.iter().map(|s| s.to_string()).collect()
}

#[test]
fn no_command_is_help() {
    assert!(matches!(parse_command(&args(&["glas"])), Command::Help));
    assert!(matches!(parse_command(&args(&["glas", "help"])), Command::Help));
    assert!(matches!(parse_command(&args(&["glas", "-h"])), Command::Help));
    assert!(matches!(parse_command(&args(&["glas", "--version"])), Command::Version));
}

#[test]
fn init_reads_name_and_framework_version() {
    match parse_command(&args(&["glas", "init"])) {
        Command::Init { name, glasshouse } => {
            assert_eq!(name, "glass-app");
            assert_eq!(glasshouse, None);
        }
        _ => panic!("expected init"),
    }
    match parse_command(&args(&["glas", "init", "shop", "--glasshouse", "1.2.0"])) {
        Command::Init { name, glasshouse } => {
            assert_eq!(name, "shop");
            assert_eq!(glasshouse, Some("1.2.0".to_string()));
        }
        _ => panic!("expected init"),
    }
    match parse_command(&args(&["glas", "init", "shop", "--glasshouse", "latest"])) {
        Command::Init { glasshouse, .. } => assert_eq!(glasshouse, None),
        _ => panic!("expected init"),
    }
}

#[test]
fn dev_and_serve_flags() {
    match parse_command(&args(&["glas", "dev", "--port", "8080", "--open"])) {
        Command::Dev { port, open, lint } => {
            assert_eq!(port, 8080);
            assert!(open);
            assert!(!lint);
        }
        _ => panic!("expected dev"),
    }
    match parse_command(&args(&["glas", "serve"])) {
        Command::Serve { port } => assert_eq!(port, 3000),
        _ => panic!("expected serve"),
    }
    match parse_command(&args(&["glas", "build", "--lint"])) {
        Command::Build { dev, lint } => {
            assert!(!dev);
            assert!(lint);
        }
        _ => panic!("expected build"),
    }
}

#[test]
fn install_needs_a_source() {
    match parse_command(&args(&["glas", "install"])) {
        Command::Missing(m) => assert_eq!(m, "glas: install requires a source path or package name"),
        _ => panic!("expected missing"),
    }
    match parse_command(&args(&["glas", "install", "button@1.0.0", "-f"])) {
        Command::Install { source, force } => {
            assert_eq!(source, "button@1.0.0");
            assert!(force);
        }
        _ => panic!("expected install"),
    }
    match parse_command(&args(&["glas", "uninstall"])) {
        Command::Missing(m) => assert_eq!(m, "glas: uninstall requires a package name"),
        _ => panic!("expected missing"),
    }
    match parse_command(&args(&["glas", "info"])) {
        Command::Missing(m) => assert_eq!(m, "glas: info requires a package name"),
        _ => panic!("expected missing"),
    }
}

#[test]
fn run_dev_is_serve() {
    match parse_command(&args(&["glas", "run", "dev", "--port", "4000"])) {
        Command::Serve { port } => assert_eq!(port, 4000),
        _ => panic!("expected serve"),
    }
    match parse_command(&args(&["glas", "run", "lint"])) {
        Command::Run { script } => assert_eq!(script, "lint"),
        _ => panic!("expected run"),
    }
    match parse_command(&args(&["glas", "run"])) {
        Command::Missing(m) => assert_eq!(m, "glas: run requires a script name"),
        _ => panic!("expected missing"),
    }
}

#[test]
fn upgrade_audit_lint_test_flags() {
    match parse_command(&args(&["glas", "upgrade", "button", "--major", "--dry-run"])) {
        Command::Upgrade { package, major, dry } => {
            assert_eq!(package, Some("button".to_string()));
            assert!(major);
            assert!(dry);
        }
        _ => panic!("expected upgrade"),
    }
    match parse_command(&args(&["glas", "audit", "--deep"])) {
        Command::Audit { deep, fix } => {
            assert!(deep);
            assert!(!fix);
        }
        _ => panic!("expected audit"),
    }
    match parse_command(&args(&["glas", "lint", "-r", "--json"])) {
        Command::Lint(f) => {
            assert!(f.realtime);
            assert!(f.json);
            assert!(!f.fix);
            assert!(!f.strict);
        }
        _ => panic!("expected lint"),
    }
    match parse_command(&args(&["glas", "test", "--filter", "should render", "-v"])) {
        Command::Test(f) => {
            assert_eq!(f.filter, Some("should render".to_string()));
            assert!(f.verbose);
            assert!(!f.watch);
        }
        _ => panic!("expected test"),
    }
}

#[test]
fn glasshouse_subcommands() {
    assert!(matches!(
        parse_command(&args(&["glas", "glasshouse"])),
        Command::Glasshouse(GlasshouseCommand::List)
    ));
    match parse_command(&args(&["glas", "glasshouse", "cache", "--update"])) {
        Command::Glasshouse(GlasshouseCommand::Cache { update, clear }) => {
            assert!(update);
            assert!(!clear);
        }
        _ => panic!("expected cache"),
    }
    match parse_command(&args(&["glas", "glasshouse", "nope"])) {
        Command::Glasshouse(GlasshouseCommand::Unknown(s)) => assert_eq!(s, "nope"),
        _ => panic!("expected unknown"),
    }
}

#[test]
fn unknown_command() {
    match parse_command(&args(&["glas", "frobnicate"])) {
        Command::Unknown(s) => assert_eq!(s, "frobnicate"),
        _ => panic!("expected unknown"),
    }
}

#[test]
fn help_and_version_text() {
    let h = help_lines();
    assert_eq!(h[0], "glas v0.1.0 — Glass House CLI");
    assert_eq!(h[1], "");
    assert_eq!(h[2], "Usage: glas <command> [options]");
    assert_eq!(h.last().unwrap(), "  glas install button@^1.0.0");
    assert_eq!(h.len(), 59);
    assert_eq!(version_line(), "glas v0.1.0");
    assert_eq!(VERSION, "0.1.0");
}

#[test]
fn package_commands() {
    match parse_command(&args(&["glas", "uninstall", "button"])) {
        Command::Uninstall { name } => assert_eq!(name, "button"),
        _ => panic!("expected uninstall"),
    }
    match parse_command(&args(&["glas", "info", "button"])) {
        Command::Info { name } => assert_eq!(name, "button"),
        _ => panic!("expected info"),
    }
    assert!(matches!(parse_command(&args(&["glas", "list"])), Command::List));
    assert!(matches!(
        parse_command(&args(&["glas", "glasshouse", "install"])),
        Command::Glasshouse(GlasshouseCommand::Install)
    ));
    match parse_command(&args(&["glas", "glasshouse", "cache", "--clear"])) {
        Command::Glasshouse(GlasshouseCommand::Cache { update, clear }) => {
            assert!(!update);
            assert!(clear);
        }
        _ => panic!("expected cache"),
    }
    match parse_command(&args(&["glas", "upgrade"])) {
        Command::Upgrade { package, major, dry } => {
            assert_eq!(package, None);
            assert!(!major && !dry);
        }
        _ => panic!("expected upgrade"),
    }
}

#[test]
fn glasshouse_help_text() {
    let h = lib::commands::glasshouse_help_lines();
    assert_eq!(h.len(), 8);
    assert_eq!(h[0], "glas glasshouse <command>");
    assert_eq!(h[7], "  install          Download latest GlassHouse to current project");
}
