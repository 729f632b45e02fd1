use vstd::prelude::*;
use crate::text::{chars_of, push_str, push_string, string_of};
use crate::yard::manifest::Dependency;
use crate::yard::resolver::opt_text;

verus! {

/// The names of a list of arguments.
pub open spec fn args_view(v: Seq<String>) -> Seq<Seq<char>> {
    Seq::new(v.len(), |i: int| v[i]@)
}

/// The options of `yard add` read from position `i` on: `--version`/`-v`,
/// `--path`/`-p` and `--git`/`-g` each take the next argument (none at the
/// end); a later option replaces an earlier one; anything else is skipped.
pub open spec fn add_scan(
    args: Seq<Seq<char>>,
    i: int,
    v: Option<Seq<char>>,
    p: Option<Seq<char>>,
    g: Option<Seq<char>>,
) -> (Option<Seq<char>>, Option<Seq<char>>, Option<Seq<char>>)
    decreases args.len() + 2 - i,
{
    if i < 0 || i >= args.len() {
        (v, p, g)
    } else {
        let next = if i + 1 < args.len() {
            Some(args[i + 1])
        } else {
            None
        };
        if args[i] == "--version"@ || args[i] == "-v"@ {
            add_scan(args, i + 2, next, p, g)
        } else if args[i] == "--path"@ || args[i] == "-p"@ {
            add_scan(args, i + 2, v, next, g)
        } else if args[i] == "--git"@ || args[i] == "-g"@ {
            add_scan(args, i + 2, v, p, next)
        } else {
            add_scan(args, i + 1, v, p, g)
        }
    }
}

/// Whether a dependency is the one `yard add` makes from the options: a
/// table when a path or git URL is given, else the version (`0.1.0` by
/// default).
pub open spec fn add_dependency_spec(
    d: Dependency,
    v: Option<Seq<char>>,
    p: Option<Seq<char>>,
    g: Option<Seq<char>>,
) -> bool {
    if p is Some || g is Some {
        match d {
            Dependency::Detailed { version, git, path, branch } => opt_text(version) == v && opt_text(git)
                == g && opt_text(path) == p && branch is None,
            _ => false,
        }
    } else {
        match d {
            Dependency::Simple(s) => s@ == (match v {
                Some(x) => x,
                None => "0.1.0"@,
            }),
            _ => false,
        }
    }
}

pub open spec fn add_usage() -> Seq<char> {
    "Usage: track yard add <package> [--version <ver>] [--path <path>] [--git <url>]"@
}

fn next_arg(args: &Vec<String>, i: usize) -> (r: Option<String>)
    ensures
        opt_text(r) == (if i < args@.len() {
            Some(args@[i as int]@)
        } else {
            None::<Seq<char>>
        }),
{
    if i < args.len() {
        Some(args[i].clone())
    } else {
        None
    }
}

/// Reads the arguments of `yard add`: the package's name and the dependency
/// to record.
pub fn parse_add_args(args: &Vec<String>) -> (r: Result<(String, Dependency), String>)
    ensures
        args@.len() == 0 ==> r is Err && r->Err_0@ == add_usage(),
        args@.len() > 0 ==> {
            let (v, p, g) = add_scan(args_view(args@), 1, None, None, None);
            &&& r is Ok
            &&& r->Ok_0.0@ == args@[0]@
            &&& add_dependency_spec(r->Ok_0.1, v, p, g)
        },
{
    if args.len() == 0 {
        return Err(
            string_of("Usage: track yard add <package> [--version <ver>] [--path <path>] [--git <url>]"),
        );
    }
    let ghost a = args_view(args@);
    let mut version: Option<String> = None;
    let mut path: Option<String> = None;
    let mut git: Option<String> = None;
    let mut i: usize = 1;
    while i < args.len()
        invariant
            a == args_view(args@),
            1 <= i <= args@.len(),
            add_scan(a, 1, None, None, None) == add_scan(a, i as int, opt_text(version), opt_text(path), opt_text(git)),
        decreases args@.len() - i,
    {
        let s = &args[i];
        let ghost i0 = i as int;
        let ghost v0 = opt_text(version);
        let ghost p0 = opt_text(path);
        let ghost g0 = opt_text(git);
        let kind: u8 = if s.eq(&string_of("--version")) || s.eq(&string_of("-v")) {
            1
        } else if s.eq(&string_of("--path")) || s.eq(&string_of("-p")) {
            2
        } else if s.eq(&string_of("--git")) || s.eq(&string_of("-g")) {
            3
        } else {
            0
        };
        if kind == 0 {
            i += 1;
        } else {
            let next = next_arg(args, i + 1);
            if kind == 1 {
                version = next;
            } else if kind == 2 {
                path = next;
            } else {
                git = next;
            }
            if i + 1 < args.len() {
                i += 2;
            } else {
                i = args.len();
            }
        }
        proof {
            assert(a[i0] == args@[i0]@);
            let next = if i0 + 1 < a.len() {
                Some(a[i0 + 1])
            } else {
                None
            };
            if kind == 0 {
                assert(add_scan(a, i0, v0, p0, g0) == add_scan(a, i0 + 1, v0, p0, g0));
            } else if kind == 1 {
                assert(add_scan(a, i0, v0, p0, g0) == add_scan(a, i0 + 2, next, p0, g0));
                assert(add_scan(a, i0 + 2, next, p0, g0) == add_scan(a, i as int, next, p0, g0));
            } else if kind == 2 {
                assert(add_scan(a, i0, v0, p0, g0) == add_scan(a, i0 + 2, v0, next, g0));
                assert(add_scan(a, i0 + 2, v0, next, g0) == add_scan(a, i as int, v0, next, g0));
            } else {
                assert(add_scan(a, i0, v0, p0, g0) == add_scan(a, i0 + 2, v0, p0, next));
                assert(add_scan(a, i0 + 2, v0, p0, next) == add_scan(a, i as int, v0, p0, next));
            }
        }
    }
    let dep = if path.is_some() || git.is_some() {
        Dependency::Detailed { version, git, path, branch: None }
    } else {
        Dependency::Simple(
            match version {
                Some(v) => v,
                None => string_of("0.1.0"),
            },
        )
    };
    Ok((args[0].clone(), dep))
}

/// The subcommands of `yard`.
pub enum YardCommand {
    Usage,
    Init,
    Build,
    Run,
    Add,
    Check,
    Lint,
    Clean,
    Version,
    Help,
}

/// The subcommand a first argument names, if any.
pub open spec fn yard_command_of(a: Seq<char>) -> Option<YardCommand> {
    if a == "init"@ {
        Some(YardCommand::Init)
    } else if a == "build"@ {
        Some(YardCommand::Build)
    } else if a == "run"@ {
        Some(YardCommand::Run)
    } else if a == "add"@ {
        Some(YardCommand::Add)
    } else if a == "check"@ {
        Some(YardCommand::Check)
    } else if a == "lint"@ {
        Some(YardCommand::Lint)
    } else if a == "clean"@ {
        Some(YardCommand::Clean)
    } else if a == "--version"@ || a == "-v"@ || a == "version"@ {
        Some(YardCommand::Version)
    } else if a == "--help"@ || a == "-h"@ || a == "help"@ {
        Some(YardCommand::Help)
    } else {
        None
    }
}

/// Which `yard` subcommand the arguments ask for; the usage text when there
/// are none; an unknown subcommand is refused.
pub fn yard_command(args: &Vec<String>) -> (r: Result<YardCommand, String>)
    ensures
        args@.len() == 0 ==> r == Ok::<YardCommand, String>(YardCommand::Usage),
        args@.len() > 0 ==> match yard_command_of(args@[0]@) {
            Some(c) => r == Ok::<YardCommand, String>(c),
            None => r is Err && r->Err_0@ == "Unknown yard command: '"@ + args@[0]@ + "'"@,
        },
{
    if args.len() == 0 {
        return Ok(YardCommand::Usage);
    }
    let a = &args[0];
    if a.eq(&string_of("init")) {
        Ok(YardCommand::Init)
    } else if a.eq(&string_of("build")) {
        Ok(YardCommand::Build)
    } else if a.eq(&string_of("run")) {
        Ok(YardCommand::Run)
    } else if a.eq(&string_of("add")) {
        Ok(YardCommand::Add)
    } else if a.eq(&string_of("check")) {
        Ok(YardCommand::Check)
    } else if a.eq(&string_of("lint")) {
        Ok(YardCommand::Lint)
    } else if a.eq(&string_of("clean")) {
        Ok(YardCommand::Clean)
    } else if a.eq(&string_of("--version")) || a.eq(&string_of("-v")) || a.eq(&string_of("version")) {
        Ok(YardCommand::Version)
    } else if a.eq(&string_of("--help")) || a.eq(&string_of("-h")) || a.eq(&string_of("help")) {
        Ok(YardCommand::Help)
    } else {
        let mut m = string_of("Unknown yard command: '");
        push_string(&mut m, a);
        push_str(&mut m, "'");
        Err(m)
    }
}

/// The commands of the `track` program.
pub enum CliCommand {
    Usage,
    Build(String),
    Run(String),
    Check(String),
    MissingFile,
    Yard(Vec<String>),
    Help,
    Unknown(String),
}

/// Whether `s` ends with `.trk`.
pub open spec fn ends_trk(s: Seq<char>) -> bool {
    s.len() >= 4 && s.subrange(s.len() - 4, s.len() as int) == ".trk"@
}

fn ends_with_trk(s: &String) -> (r: bool)
    ensures
        r == ends_trk(s@),
{
    let v = chars_of(s.as_str());
    if v.len() < 4 {
        return false;
    }
    let n = v.len();
    let r = v[n - 4] == '.' && v[n - 3] == 't' && v[n - 2] == 'r' && v[n - 1] == 'k';
    proof {
        reveal_strlit(".trk");
        let t = v@.subrange(n - 4, n as int);
        if r {
            assert(t =~= ".trk"@);
        } else {
            if t == ".trk"@ {
                assert(t[0] == '.' && t[1] == 't' && t[2] == 'r' && t[3] == 'k');
            }
        }
    }
    r
}

/// Which command the program's arguments (with the program's name first)
/// ask for.
pub fn cli_command(args: &Vec<String>) -> (r: CliCommand)
    ensures
        args@.len() < 2 ==> r is Usage,
        args@.len() >= 2 ==> {
            let a = args@[1]@;
            if a == "build"@ || a == "run"@ || a == "check"@ {
                if args@.len() < 3 {
                    r is MissingFile
                } else if a == "build"@ {
                    r is Build && r->Build_0@ == args@[2]@
                } else if a == "run"@ {
                    r is Run && r->Run_0@ == args@[2]@
                } else {
                    r is Check && r->Check_0@ == args@[2]@
                }
            } else if a == "yard"@ {
                r is Yard && args_view(r->Yard_0@) == args_view(args@).skip(2)
            } else if a == "--help"@ || a == "-h"@ || a == "help"@ {
                r is Help
            } else if ends_trk(a) {
                r is Build && r->Build_0@ == a
            } else {
                r is Unknown && r->Unknown_0@ == a
            }
        },
{
    if args.len() < 2 {
        return CliCommand::Usage;
    }
    let a = &args[1];
    let is_build = a.eq(&string_of("build"));
    let is_run = a.eq(&string_of("run"));
    let is_check = a.eq(&string_of("check"));
    if is_build || is_run || is_check {
        if args.len() < 3 {
            return CliCommand::MissingFile;
        }
        let f = args[2].clone();
        if is_build {
            CliCommand::Build(f)
        } else if is_run {
            CliCommand::Run(f)
        } else {
            CliCommand::Check(f)
        }
    } else if a.eq(&string_of("yard")) {
        let mut rest: Vec<String> = Vec::new();
        let mut i: usize = 2;
        while i < args.len()
            invariant
                2 <= i <= args@.len(),
                rest@.len() == i - 2,
                forall|j: int| 0 <= j < rest@.len() ==> #[trigger] rest@[j]@ == args@[j + 2]@,
            decreases args.len() - i,
        {
            rest.push(args[i].clone());
            i += 1;
        }
        proof {
            assert(args_view(rest@) =~= args_view(args@).skip(2));
        }
        CliCommand::Yard(rest)
    } else if a.eq(&string_of("--help")) || a.eq(&string_of("-h")) || a.eq(&string_of("help")) {
        CliCommand::Help
    } else if ends_with_trk(a) {
        CliCommand::Build(a.clone())
    } else {
        CliCommand::Unknown(a.clone())
    }
}

} // verus!
