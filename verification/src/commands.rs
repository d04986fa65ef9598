//! The command line: which command a run asks for, and the help text.

use vstd::prelude::*;
use crate::cli::{has_arg, any_arg, parse_str_flag};
use crate::installer::flag_value_from;
use crate::utils::opt_view;
use crate::utils::{port_from, parse_port};
use crate::lint::{LintFlags, parse_lint_flags};
use crate::test_runner::{TestFlags, parse_test_flags, filter_scan};
use crate::text::{str_eq, views, push_str};

verus! {

/// The version of the tool.
pub const VERSION: &'static str = "0.1.0";

/// What `glas glasshouse` is asked to do.
pub enum GlasshouseCommand {
    List,
    Cache { update: bool, clear: bool },
    Install,
    Unknown(String),
}

/// The command a run asks for.
pub enum Command {
    Help,
    Version,
    /// `glasshouse` is `None` for the latest framework.
    Init { name: String, glasshouse: Option<String> },
    Serve { port: u16 },
    Dev { port: u16, open: bool, lint: bool },
    Build { dev: bool, lint: bool },
    Install { source: String, force: bool },
    Uninstall { name: String },
    List,
    Info { name: String },
    Audit { deep: bool, fix: bool },
    Upgrade { package: Option<String>, major: bool, dry: bool },
    Run { script: String },
    Lint(LintFlags),
    Test(TestFlags),
    Glasshouse(GlasshouseCommand),
    /// A command without the value it needs: the message to print.
    Missing(String),
    Unknown(String),
}

/// The argument at `i`, or `d` when there is none.
pub open spec fn arg_or(args: Seq<String>, i: int, d: Seq<char>) -> Seq<char> {
    if 0 <= i < args.len() {
        args[i]@
    } else {
        d
    }
}

/// What `glas glasshouse` asks for, `rest` being the arguments after
/// `glasshouse`.
pub open spec fn glasshouse_ok(rest: Seq<String>, c: GlasshouseCommand) -> bool {
    let sub = arg_or(rest, 0, "list"@);
    if sub == "list"@ {
        c is List
    } else if sub == "cache"@ {
        c matches GlasshouseCommand::Cache { update, clear } && update == has_arg(rest, "--update"@) && clear
            == has_arg(rest, "--clear"@)
    } else if sub == "install"@ {
        c is Install
    } else {
        c matches GlasshouseCommand::Unknown(s) && s@ == sub
    }
}

/// The command that the arguments ask for (the first argument is the
/// program).
pub open spec fn command_ok(args: Seq<String>, c: Command) -> bool {
    if args.len() < 2 {
        c is Help
    } else {
        let a = args[1]@;
        if a == "init"@ {
            c matches Command::Init { name, glasshouse } && name@ == arg_or(args, 2, "glass-app"@) && opt_view(
                glasshouse,
            ) == match flag_value_from(args, "--glasshouse"@, 0) {
                Some(v) => if v == "latest"@ {
                    None
                } else {
                    Some(v)
                },
                None => None,
            }
        } else if a == "serve"@ {
            c matches Command::Serve { port } && port == port_from(args, 2)
        } else if a == "dev"@ {
            c matches Command::Dev { port, open, lint } && port == port_from(args, 2) && open == has_arg(
                args,
                "--open"@,
            ) && lint == has_arg(args, "--lint"@)
        } else if a == "build"@ {
            c matches Command::Build { dev, lint } && dev == has_arg(args, "--dev"@) && lint == has_arg(
                args,
                "--lint"@,
            )
        } else if a == "install"@ {
            if arg_or(args, 2, ""@).len() == 0 {
                c matches Command::Missing(m) && m@ == "glas: install requires a source path or package name"@
            } else {
                c matches Command::Install { source, force } && source@ == args[2]@ && force == (has_arg(
                    args,
                    "--force"@,
                ) || has_arg(args, "-f"@))
            }
        } else if a == "uninstall"@ {
            if arg_or(args, 2, ""@).len() == 0 {
                c matches Command::Missing(m) && m@ == "glas: uninstall requires a package name"@
            } else {
                c matches Command::Uninstall { name } && name@ == args[2]@
            }
        } else if a == "list"@ {
            c is List
        } else if a == "info"@ {
            if arg_or(args, 2, ""@).len() == 0 {
                c matches Command::Missing(m) && m@ == "glas: info requires a package name"@
            } else {
                c matches Command::Info { name } && name@ == args[2]@
            }
        } else if a == "audit"@ {
            c matches Command::Audit { deep, fix } && deep == has_arg(args, "--deep"@) && fix == has_arg(
                args,
                "--fix"@,
            )
        } else if a == "upgrade"@ {
            c matches Command::Upgrade { package, major, dry } && opt_view(package) == (if args.len() > 2 {
                Some(args[2]@)
            } else {
                None
            }) && major == has_arg(args, "--major"@) && dry == has_arg(args, "--dry-run"@)
        } else if a == "run"@ {
            if args.len() < 3 {
                c matches Command::Missing(m) && m@ == "glas: run requires a script name"@
            } else if args[2]@ == "dev"@ {
                c matches Command::Serve { port } && port == port_from(args, 3)
            } else {
                c matches Command::Run { script } && script@ == args[2]@
            }
        } else if a == "lint"@ {
            c matches Command::Lint(f) && f.realtime == (has_arg(args, "--realtime"@) || has_arg(args, "-r"@))
                && f.fix == (has_arg(args, "--fix"@) || has_arg(args, "-f"@)) && f.json == has_arg(args, "--json"@)
                && f.strict == has_arg(args, "--strict"@)
        } else if a == "test"@ {
            c matches Command::Test(f) && opt_view(f.filter) == filter_scan(args, 0, None) && f.verbose == (
            has_arg(args, "--verbose"@) || has_arg(args, "-v"@)) && f.json == has_arg(args, "--json"@) && f.watch
                == has_arg(args, "--watch"@)
        } else if a == "glasshouse"@ {
            c matches Command::Glasshouse(g) && glasshouse_ok(args.skip(2), g)
        } else if a == "help"@ || a == "--help"@ || a == "-h"@ {
            c is Help
        } else if a == "version"@ || a == "--version"@ || a == "-v"@ {
            c is Version
        } else {
            c matches Command::Unknown(s) && s@ == a
        }
    }
}

fn arg_or_exec(args: &[String], i: usize, d: &str) -> (r: String)
    ensures
        r@ == arg_or(args@, i as int, d@),
{
    if i < args.len() {
        args[i].clone()
    } else {
        String::from_str(d)
    }
}

fn parse_glasshouse(rest: &[String]) -> (r: GlasshouseCommand)
    ensures
        glasshouse_ok(rest@, r),
{
    let sub = arg_or_exec(rest, 0, "list");
    if str_eq(sub.as_str(), "list") {
        GlasshouseCommand::List
    } else if str_eq(sub.as_str(), "cache") {
        GlasshouseCommand::Cache { update: any_arg(rest, "--update"), clear: any_arg(rest, "--clear") }
    } else if str_eq(sub.as_str(), "install") {
        GlasshouseCommand::Install
    } else {
        GlasshouseCommand::Unknown(sub)
    }
}

/// Reads the command line (the first argument being the program).
pub fn parse_command(args: &[String]) -> (r: Command)
    ensures
        command_ok(args@, r),
{
    if args.len() < 2 {
        return Command::Help;
    }
    proof {
        reveal_strlit("");
    }
    let a = args[1].as_str();
    if str_eq(a, "init") {
        let name = arg_or_exec(args, 2, "glass-app");
        let gh = match parse_str_flag(args, "--glasshouse") {
            Some(v) => if str_eq(v.as_str(), "latest") {
                None
            } else {
                Some(v)
            },
            None => None,
        };
        Command::Init { name, glasshouse: gh }
    } else if str_eq(a, "serve") {
        Command::Serve { port: parse_port(args, 2) }
    } else if str_eq(a, "dev") {
        Command::Dev { port: parse_port(args, 2), open: any_arg(args, "--open"), lint: any_arg(args, "--lint") }
    } else if str_eq(a, "build") {
        Command::Build { dev: any_arg(args, "--dev"), lint: any_arg(args, "--lint") }
    } else if str_eq(a, "install") {
        let s = arg_or_exec(args, 2, "");
        if s.as_str().unicode_len() == 0 {
            Command::Missing(String::from_str("glas: install requires a source path or package name"))
        } else {
            Command::Install { source: s, force: any_arg(args, "--force") || any_arg(args, "-f") }
        }
    } else if str_eq(a, "uninstall") {
        let s = arg_or_exec(args, 2, "");
        if s.as_str().unicode_len() == 0 {
            Command::Missing(String::from_str("glas: uninstall requires a package name"))
        } else {
            Command::Uninstall { name: s }
        }
    } else if str_eq(a, "list") {
        Command::List
    } else if str_eq(a, "info") {
        let s = arg_or_exec(args, 2, "");
        if s.as_str().unicode_len() == 0 {
            Command::Missing(String::from_str("glas: info requires a package name"))
        } else {
            Command::Info { name: s }
        }
    } else if str_eq(a, "audit") {
        Command::Audit { deep: any_arg(args, "--deep"), fix: any_arg(args, "--fix") }
    } else if str_eq(a, "upgrade") {
        let name = if args.len() > 2 {
            Some(args[2].clone())
        } else {
            None
        };
        Command::Upgrade { package: name, major: any_arg(args, "--major"), dry: any_arg(args, "--dry-run") }
    } else if str_eq(a, "run") {
        if args.len() < 3 {
            Command::Missing(String::from_str("glas: run requires a script name"))
        } else if str_eq(args[2].as_str(), "dev") {
            Command::Serve { port: parse_port(args, 3) }
        } else {
            Command::Run { script: args[2].clone() }
        }
    } else if str_eq(a, "lint") {
        Command::Lint(parse_lint_flags(args))
    } else if str_eq(a, "test") {
        Command::Test(parse_test_flags(args))
    } else if str_eq(a, "glasshouse") {
        let mut rest: Vec<String> = Vec::new();
        let mut i: usize = 2;
        while i < args.len()
            invariant
                2 <= i <= args@.len(),
                rest@ == args@.subrange(2, i as int),
            decreases args.len() - i,
        {
            rest.push(args[i].clone());
            assert(rest@ =~= args@.subrange(2, i + 1));
            i = i + 1;
        }
        assert(rest@ =~= args@.skip(2));
        Command::Glasshouse(parse_glasshouse(rest.as_slice()))
    } else if str_eq(a, "help") || str_eq(a, "--help") || str_eq(a, "-h") {
        Command::Help
    } else if str_eq(a, "version") || str_eq(a, "--version") || str_eq(a, "-v") {
        Command::Version
    } else {
        Command::Unknown(args[1].clone())
    }
}

/// The lines of the help text after its first line.
pub open spec fn help_body() -> Seq<Seq<char>> {
    seq![
        ""@,
        "Usage: glas <command> [options]"@,
        ""@,
        "Commands:"@,
        "  init <name>                  Scaffold a new Glass House project"@,
        "  dev [--port <N>] [--open]    Dev server with hot reload and TS compilation"@,
        "    --lint                       Lint on each file change during dev"@,
        "  serve [--port <N>]           Serve production build from dist/"@,
        "  build [--dev] [--lint]       Production build (hyper-compaction via QuickJS)"@,
        "    --dev                        Readable dev build (no compaction)"@,
        "    --lint                       Run lint before build, abort on errors"@,
        "  lint [options]               Lint project source files"@,
        "    --realtime, -r               Watch mode, re-lint on file changes"@,
        "    --fix, -f                    Auto-fix where possible (add 'use strict')"@,
        "    --json                       Output as JSON for CI"@,
        "    --strict                     Treat warnings as errors"@,
        "  test [options]               Run project tests"@,
        "    --filter <pattern>           Run only matching test names"@,
        "    --verbose, -v                Detailed output with timings"@,
        "    --json                       JSON output for CI"@,
        "    --watch                      Re-run tests on file changes"@,
        "  install <source> [-f]        Install a package (path or name@version)"@,
        "  install <name@1.2.3>         Install specific version"@,
        "  uninstall <name>             Remove an installed package"@,
        "  list                         List all installed packages"@,
        "  info <name>                  Show package details"@,
        "  audit [--deep] [--fix]       Audit project (--deep for full, --fix to auto-fix)"@,
        "  upgrade [<name>] [--major]   Upgrade packages (--major allows major bumps)"@,
        "  upgrade --dry-run             Preview upgrades without applying"@,
        "  run <script>                 Run a project script"@,
        "  glasshouse list              List available GlassHouse releases"@,
        "  glasshouse cache [--update]  Show or manage cached framework"@,
        "  help                         Show this help"@,
        "  version                      Show version"@,
        ""@,
        "TypeScript Support:"@,
        "  All user code in src/ and packages/ must use TypeScript (.ts/.tsx)."@,
        "  JavaScript (.js) files are only allowed in glasshouse/ (framework)."@,
        "  The built-in TS compiler compiles .ts/.tsx via QuickJS subprocess."@,
        ""@,
        "Flags:"@,
        "  --force, -f    Force reinstall (overwrites existing)"@,
        "  --dev          Development mode (no compaction, readable output)"@,
        "  --port <N>     Set server port (default: 3000)"@,
        ""@,
        "Examples:"@,
        "  glas init my-app"@,
        "  glas dev"@,
        "  glas dev --lint"@,
        "  glas build"@,
        "  glas build --lint"@,
        "  glas lint --realtime"@,
        "  glas lint --json"@,
        "  glas test --verbose"@,
        "  glas test --filter \"should render\""@,
        "  glas serve --port 8080"@,
        "  glas install ./packages/my-pebble"@,
        "  glas install button@^1.0.0"@,
    ]
}

/// The help text, line by line: the version line, then the rest.
pub open spec fn help_spec() -> Seq<Seq<char>> {
    seq!["glas v"@ + VERSION@ + " — Glass House CLI"@] + help_body()
}

/// The help text, line by line.
pub fn help_lines() -> (r: Vec<String>)
    ensures
        views(r@) == help_spec(),
{
    let mut first = String::from_str("glas v");
    push_str(&mut first, VERSION);
    push_str(&mut first, " — Glass House CLI");
    let body = vec![
        String::from_str(""),
        String::from_str("Usage: glas <command> [options]"),
        String::from_str(""),
        String::from_str("Commands:"),
        String::from_str("  init <name>                  Scaffold a new Glass House project"),
        String::from_str("  dev [--port <N>] [--open]    Dev server with hot reload and TS compilation"),
        String::from_str("    --lint                       Lint on each file change during dev"),
        String::from_str("  serve [--port <N>]           Serve production build from dist/"),
        String::from_str("  build [--dev] [--lint]       Production build (hyper-compaction via QuickJS)"),
        String::from_str("    --dev                        Readable dev build (no compaction)"),
        String::from_str("    --lint                       Run lint before build, abort on errors"),
        String::from_str("  lint [options]               Lint project source files"),
        String::from_str("    --realtime, -r               Watch mode, re-lint on file changes"),
        String::from_str("    --fix, -f                    Auto-fix where possible (add 'use strict')"),
        String::from_str("    --json                       Output as JSON for CI"),
        String::from_str("    --strict                     Treat warnings as errors"),
        String::from_str("  test [options]               Run project tests"),
        String::from_str("    --filter <pattern>           Run only matching test names"),
        String::from_str("    --verbose, -v                Detailed output with timings"),
        String::from_str("    --json                       JSON output for CI"),
        String::from_str("    --watch                      Re-run tests on file changes"),
        String::from_str("  install <source> [-f]        Install a package (path or name@version)"),
        String::from_str("  install <name@1.2.3>         Install specific version"),
        String::from_str("  uninstall <name>             Remove an installed package"),
        String::from_str("  list                         List all installed packages"),
        String::from_str("  info <name>                  Show package details"),
        String::from_str("  audit [--deep] [--fix]       Audit project (--deep for full, --fix to auto-fix)"),
        String::from_str("  upgrade [<name>] [--major]   Upgrade packages (--major allows major bumps)"),
        String::from_str("  upgrade --dry-run             Preview upgrades without applying"),
        String::from_str("  run <script>                 Run a project script"),
        String::from_str("  glasshouse list              List available GlassHouse releases"),
        String::from_str("  glasshouse cache [--update]  Show or manage cached framework"),
        String::from_str("  help                         Show this help"),
        String::from_str("  version                      Show version"),
        String::from_str(""),
        String::from_str("TypeScript Support:"),
        String::from_str("  All user code in src/ and packages/ must use TypeScript (.ts/.tsx)."),
        String::from_str("  JavaScript (.js) files are only allowed in glasshouse/ (framework)."),
        String::from_str("  The built-in TS compiler compiles .ts/.tsx via QuickJS subprocess."),
        String::from_str(""),
        String::from_str("Flags:"),
        String::from_str("  --force, -f    Force reinstall (overwrites existing)"),
        String::from_str("  --dev          Development mode (no compaction, readable output)"),
        String::from_str("  --port <N>     Set server port (default: 3000)"),
        String::from_str(""),
        String::from_str("Examples:"),
        String::from_str("  glas init my-app"),
        String::from_str("  glas dev"),
        String::from_str("  glas dev --lint"),
        String::from_str("  glas build"),
        String::from_str("  glas build --lint"),
        String::from_str("  glas lint --realtime"),
        String::from_str("  glas lint --json"),
        String::from_str("  glas test --verbose"),
        String::from_str("  glas test --filter \"should render\""),
        String::from_str("  glas serve --port 8080"),
        String::from_str("  glas install ./packages/my-pebble"),
        String::from_str("  glas install button@^1.0.0"),
    ];
    assert(views(body@) =~= help_body());
    let mut r: Vec<String> = Vec::new();
    r.push(first);
    let mut i: usize = 0;
    while i < body.len()
        invariant
            i <= body@.len(),
            views(r@) == seq!["glas v"@ + VERSION@ + " — Glass House CLI"@] + views(body@).take(i as int),
        decreases body.len() - i,
    {
        let ghost before = views(r@);
        r.push(body[i].clone());
        assert(views(r@) =~= before.push(body@[i as int]@));
        assert(views(body@).take(i + 1) =~= views(body@).take(i as int).push(body@[i as int]@));
        i = i + 1;
    }
    assert(views(body@).take(body@.len() as int) =~= views(body@));
    r
}

/// What `glas version` prints.
pub fn version_line() -> (r: String)
    ensures
        r@ == "glas v"@ + VERSION@,
{
    let mut s = String::from_str("glas v");
    push_str(&mut s, VERSION);
    s
}

/// The help text of `glas glasshouse`.
pub open spec fn glasshouse_help_spec() -> Seq<Seq<char>> {
    seq![
        "glas glasshouse <command>"@,
        ""@,
        "Commands:"@,
        "  list             List available GlassHouse releases"@,
        "  cache            Show cache status"@,
        "  cache --update   Refresh cached framework"@,
        "  cache --clear    Remove cached framework"@,
        "  install          Download latest GlassHouse to current project"@,
    ]
}

/// The help text of `glas glasshouse`, line by line.
pub fn glasshouse_help_lines() -> (r: Vec<String>)
    ensures
        views(r@) == glasshouse_help_spec(),
{
    let r = vec![
        String::from_str("glas glasshouse <command>"),
        String::from_str(""),
        String::from_str("Commands:"),
        String::from_str("  list             List available GlassHouse releases"),
        String::from_str("  cache            Show cache status"),
        String::from_str("  cache --update   Refresh cached framework"),
        String::from_str("  cache --clear    Remove cached framework"),
        String::from_str("  install          Download latest GlassHouse to current project"),
    ];
    assert(views(r@) =~= glasshouse_help_spec());
    r
}

} // verus!
