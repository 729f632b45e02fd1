use track::collections::StrSet;
use track::yard::builder::ParallelBuilder;
use track::yard::cache::BuildCache;
use track::yard::commands::{cli_command, parse_add_args, yard_command, CliCommand, YardCommand};
use track::yard::linker::{trim, LinkerEngine};
use track::yard::manifest::{default_src, Dependency, Manifest};
use track::yard::paths::join_path;
use track::yard::resolver::{local_dep_path, resolve, DepSource};

fn args(v: &[&str]) -> Vec<String> {
    v.iter().map(|s| s.to_string()).collect()
}

#[test]
fn content_hashes_are_hexadecimal_and_stable() {
    let a = BuildCache::compute_hash("fn main() -> void {}");
    let b = BuildCache::compute_hash("fn main() -> void {}");
    let c = BuildCache::compute_hash("fn main() -> void { print(1); }");
    assert_eq!(a, b);
    assert_ne!(a, c);
    assert_ne!(a, "fn main() -> void {}");
    assert!(!a.is_empty() && a.len() <= 16);
    assert!(a.chars().all(|ch| ch.is_ascii_hexdigit() && !ch.is_ascii_uppercase()));
}

#[test]
fn cache_entries_decide_reuse() {
    let mut cache = BuildCache::new();
    assert!(!cache.is_cached("src/main.trk", "abc", true));
    cache.update("src/main.trk".to_string(), "abc".to_string());
    assert!(cache.is_cached("src/main.trk", "abc", true));
    assert!(!cache.is_cached("src/main.trk", "abc", false));
    assert!(!cache.is_cached("src/main.trk", "abd", true));
    cache.update("src/main.trk".to_string(), "abd".to_string());
    assert!(cache.is_cached("src/main.trk", "abd", true));
    assert_eq!(BuildCache::cache_file_path("target"), "target/.cache_meta.json");
    assert_eq!(BuildCache::cache_file_path("target/"), "target/.cache_meta.json");
}

#[test]
fn path_joining() {
    assert_eq!(join_path("a", "b"), "a/b");
    assert_eq!(join_path("a/", "b"), "a/b");
    assert_eq!(join_path("", "b"), "b");
    assert_eq!(join_path("a", "/b"), "/b");
}

#[test]
fn a_new_manifest() {
    let m = Manifest::new("demo");
    assert_eq!(m.package.name, "demo");
    assert_eq!(m.package.version, "0.1.0");
    assert!(m.package.description.is_none());
    assert!(m.package.authors.is_empty());
    assert!(m.dependencies.is_empty());
    assert_eq!(m.build.src, "src");
    assert_eq!(default_src(), "src");
    assert!(m.build.target.is_none());
}

#[test]
fn adding_dependencies_reads_the_options() {
    assert_eq!(
        parse_add_args(&Vec::new()).err().unwrap(),
        "Usage: track yard add <package> [--version <ver>] [--path <path>] [--git <url>]"
    );
    let (name, dep) = parse_add_args(&args(&["json"])).ok().unwrap();
    assert_eq!(name, "json");
    assert!(matches!(dep, Dependency::Simple(ref v) if v == "0.1.0"));
    let (_, dep) = parse_add_args(&args(&["json", "--version", "2.0"])).ok().unwrap();
    assert!(matches!(dep, Dependency::Simple(ref v) if v == "2.0"));
    let (_, dep) = parse_add_args(&args(&["util", "-p", "../util", "-v", "1.2"])).ok().unwrap();
    match dep {
        Dependency::Detailed { version, git, path, branch } => {
            assert_eq!(version.as_deref(), Some("1.2"));
            assert_eq!(path.as_deref(), Some("../util"));
            assert!(git.is_none() && branch.is_none());
        }
        _ => panic!("expected a detailed dependency"),
    }
    let (_, dep) = parse_add_args(&args(&["x", "--git"])).ok().unwrap();
    assert!(matches!(dep, Dependency::Simple(ref v) if v == "0.1.0"));
}

#[test]
fn resolving_dependencies() {
    let mut m = Manifest::new("demo");
    m.add_dependency("reg".to_string(), Dependency::Simple("1.0".to_string()));
    m.add_dependency(
        "loc".to_string(),
        Dependency::Detailed { version: None, git: None, path: Some("libs/loc".to_string()), branch: None },
    );
    m.add_dependency(
        "remote".to_string(),
        Dependency::Detailed {
            version: Some("0.3".to_string()),
            git: Some("https://example.org/r.git".to_string()),
            path: None,
            branch: Some("main".to_string()),
        },
    );
    let dir = local_dep_path("/proj", m.dependencies.get("loc").unwrap()).unwrap();
    assert_eq!(dir, "/proj/libs/loc");
    let mut existing = StrSet::new();
    let missing = resolve(&m, "/proj", &existing).err().unwrap();
    assert_eq!(missing, "Path dependency 'loc' not found: /proj/libs/loc");
    existing.insert(dir);
    let (deps, warnings) = resolve(&m, "/proj", &existing).ok().unwrap();
    assert_eq!(deps.len(), 3);
    assert_eq!(deps[0].name, "reg");
    assert!(matches!(deps[0].source, DepSource::Registry(ref v) if v == "1.0"));
    assert_eq!(deps[1].version, "0.0.0");
    assert_eq!(deps[1].src_dir, "/proj/libs/loc/src");
    assert!(matches!(deps[1].source, DepSource::Local(ref p) if p == "/proj/libs/loc"));
    assert_eq!(deps[2].version, "0.3");
    assert_eq!(
        warnings,
        vec![
            "  ⚠ Registry dependency 'reg@1.0' — registry not yet available, skipping".to_string(),
            "  ⚠ Git dependency 'remote' (https://example.org/r.git) — git fetch not yet available, skipping".to_string(),
        ]
    );
    assert_eq!(
        ParallelBuilder::dependency_line(&deps[2]),
        "  Using dependency: remote v0.3 (git: https://example.org/r.git, branch: Some(\"main\"))"
    );
    let mut bad = Manifest::new("demo");
    bad.add_dependency(
        "none".to_string(),
        Dependency::Detailed { version: None, git: None, path: None, branch: None },
    );
    assert_eq!(
        resolve(&bad, "/proj", &StrSet::new()).err().unwrap(),
        "Dependency 'none' must specify version, path, or git"
    );
}

#[test]
fn linker_arguments_and_runtime_freshness() {
    let objs = args(&["target/a.o", "target/b.o"]);
    assert_eq!(
        LinkerEngine::link_args(&objs, "target/_track_runtime.o", "target/demo", &Some("-fuse-ld=mold".to_string())),
        args(&["-fuse-ld=mold", "target/a.o", "target/b.o", "target/_track_runtime.o", "-o", "target/demo", "-lm", "-no-pie"])
    );
    assert_eq!(
        LinkerEngine::link_args(&Vec::new(), "rt.o", "exe", &None),
        args(&["rt.o", "-o", "exe", "-lm", "-no-pie"])
    );
    assert_eq!(LinkerEngine::fast_linker_flag(true, true).as_deref(), Some("-fuse-ld=mold"));
    assert_eq!(LinkerEngine::fast_linker_flag(false, true).as_deref(), Some("-fuse-ld=lld"));
    assert_eq!(LinkerEngine::fast_linker_flag(false, false), None);
    assert!(LinkerEngine::runtime_is_fresh(true, Some("abc\n".to_string()), "abc"));
    assert!(!LinkerEngine::runtime_is_fresh(false, Some("abc".to_string()), "abc"));
    assert!(!LinkerEngine::runtime_is_fresh(true, None, "abc"));
    assert!(!LinkerEngine::runtime_is_fresh(true, Some("abd".to_string()), "abc"));
    assert_eq!(trim("  \t x y \u{3000}\n"), "x y");
    assert_eq!(trim(" \n "), "");
}

#[test]
fn summaries() {
    assert_eq!(ParallelBuilder::build_summary("target/demo", 1, 0), "✓ Built target/demo (1 file, 0 cached)");
    assert_eq!(ParallelBuilder::build_summary("target/demo", 3, 2), "✓ Built target/demo (3 files, 2 cached)");
    assert_eq!(ParallelBuilder::check_summary(1), "✓ Check passed (1 file)");
    assert_eq!(ParallelBuilder::check_summary(0), "✓ Check passed (0 files)");
    assert_eq!(ParallelBuilder::errors_summary(2), "2 error(s) found");
    assert_eq!(ParallelBuilder::banner("Building", "demo", "0.1.0"), "  Building demo v0.1.0");
}

#[test]
fn compiling_a_unit_prefixes_errors_with_the_file() {
    let err = ParallelBuilder::check_unit("src/a.trk", "let x = $;").err().unwrap();
    assert_eq!(err, "src/a.trk: Lexer error at 8..9: unexpected character '$'");
    assert!(ParallelBuilder::check_unit("src/a.trk", "fn main() -> void { print(1); }").is_ok());
}

#[test]
fn command_lines() {
    assert!(matches!(cli_command(&args(&["track"])), CliCommand::Usage));
    assert!(matches!(cli_command(&args(&["track", "build"])), CliCommand::MissingFile));
    assert!(matches!(cli_command(&args(&["track", "run", "a.trk"])), CliCommand::Run(ref f) if f == "a.trk"));
    assert!(matches!(cli_command(&args(&["track", "check", "a.trk"])), CliCommand::Check(ref f) if f == "a.trk"));
    assert!(matches!(cli_command(&args(&["track", "prog.trk"])), CliCommand::Build(ref f) if f == "prog.trk"));
    assert!(matches!(cli_command(&args(&["track", "-h"])), CliCommand::Help));
    assert!(matches!(cli_command(&args(&["track", "frob"])), CliCommand::Unknown(ref f) if f == "frob"));
    match cli_command(&args(&["track", "yard", "add", "x"])) {
        CliCommand::Yard(rest) => assert_eq!(rest, args(&["add", "x"])),
        _ => panic!("expected yard"),
    }
    assert!(matches!(yard_command(&Vec::new()), Ok(YardCommand::Usage)));
    assert!(matches!(yard_command(&args(&["build"])), Ok(YardCommand::Build)));
    assert!(matches!(yard_command(&args(&["-v"])), Ok(YardCommand::Version)));
    assert_eq!(yard_command(&args(&["fly"])).err().unwrap(), "Unknown yard command: 'fly'");
}
