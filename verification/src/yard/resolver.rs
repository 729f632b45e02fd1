use vstd::prelude::*;
use crate::collections::StrSet;
use crate::text::{push_str, push_string, string_of};
use crate::yard::manifest::{Dependency, Manifest};
use crate::yard::paths::{joined, join_path};

verus! {

/// A dependency with where its sources come from.
pub struct ResolvedDep {
    pub name: String,
    pub version: String,
    pub source: DepSource,
    pub src_dir: String,
}

/// Where a dependency comes from.
pub enum DepSource {
    Local(String),
    Git { url: String, branch: Option<String> },
    Registry(String),
}

/// The value of a dependency's source.
pub enum SourceV {
    Local(Seq<char>),
    Git(Seq<char>, Option<Seq<char>>),
    Registry(Seq<char>),
}

/// The value of an optional string.
pub open spec fn opt_text(o: Option<String>) -> Option<Seq<char>> {
    match o {
        Some(s) => Some(s@),
        None => None,
    }
}

/// The value of a source.
pub open spec fn source_view(s: DepSource) -> SourceV {
    match s {
        DepSource::Local(p) => SourceV::Local(p@),
        DepSource::Git { url, branch } => SourceV::Git(url@, opt_text(branch)),
        DepSource::Registry(v) => SourceV::Registry(v@),
    }
}

/// The local directory of a path dependency, relative to the project root.
pub open spec fn local_dir(root: Seq<char>, d: Dependency) -> Option<Seq<char>> {
    match d {
        Dependency::Detailed { path: Some(p), .. } => Some(joined(root, p@)),
        _ => None,
    }
}

pub open spec fn registry_warning(name: Seq<char>, v: Seq<char>) -> Seq<char> {
    "  ⚠ Registry dependency '"@ + name + "@"@ + v + "' — registry not yet available, skipping"@
}

pub open spec fn git_warning(name: Seq<char>, url: Seq<char>) -> Seq<char> {
    "  ⚠ Git dependency '"@ + name + "' ("@ + url + ") — git fetch not yet available, skipping"@
}

pub open spec fn missing_path_msg(name: Seq<char>, dir: Seq<char>) -> Seq<char> {
    "Path dependency '"@ + name + "' not found: "@ + dir
}

pub open spec fn unspecified_msg(name: Seq<char>) -> Seq<char> {
    "Dependency '"@ + name + "' must specify version, path, or git"@
}

/// The version, or `0.0.0` where none is given.
pub open spec fn version_or_default(v: Option<String>) -> Seq<char> {
    match v {
        Some(s) => s@,
        None => "0.0.0"@,
    }
}

/// How one dependency resolves: its version, source, source directory and
/// the warning to show, or why it is refused. A path dependency needs its
/// directory to exist; a path wins over a git URL, which wins over a
/// version.
pub open spec fn resolve_spec(name: Seq<char>, d: Dependency, root: Seq<char>, exists: bool) -> Result<
    (Seq<char>, SourceV, Seq<char>, Option<Seq<char>>),
    Seq<char>,
> {
    match d {
        Dependency::Simple(v) => Ok((v@, SourceV::Registry(v@), Seq::empty(), Some(registry_warning(name, v@)))),
        Dependency::Detailed { version, git, path, branch } => match path {
            Some(p) => {
                let dir = joined(root, p@);
                if !exists {
                    Err(missing_path_msg(name, dir))
                } else {
                    Ok((version_or_default(version), SourceV::Local(dir), joined(dir, "src"@), None))
                }
            },
            None => match git {
                Some(url) => Ok(
                    (
                        version_or_default(version),
                        SourceV::Git(url@, opt_text(branch)),
                        Seq::empty(),
                        Some(git_warning(name, url@)),
                    ),
                ),
                None => match version {
                    Some(v) => Ok((v@, SourceV::Registry(v@), Seq::empty(), Some(registry_warning(name, v@)))),
                    None => Err(unspecified_msg(name)),
                },
            },
        },
    }
}

/// Whether a resolved dependency and its warning are what `resolve_spec`
/// gives.
pub open spec fn matches_plan(
    r: ResolvedDep,
    w: Option<String>,
    name: Seq<char>,
    plan: (Seq<char>, SourceV, Seq<char>, Option<Seq<char>>),
) -> bool {
    &&& r.name@ == name
    &&& r.version@ == plan.0
    &&& source_view(r.source) == plan.1
    &&& r.src_dir@ == plan.2
    &&& opt_text(w) == plan.3
}

fn copy_opt(o: &Option<String>) -> (r: Option<String>)
    ensures
        opt_text(r) == opt_text(*o),
{
    match o {
        Some(s) => Some(s.clone()),
        None => None,
    }
}

fn registry_warning_exec(name: &String, v: &String) -> (r: String)
    ensures
        r@ == registry_warning(name@, v@),
{
    let mut m = string_of("  ⚠ Registry dependency '");
    push_string(&mut m, name);
    push_str(&mut m, "@");
    push_string(&mut m, v);
    push_str(&mut m, "' — registry not yet available, skipping");
    m
}

/// The local directory of a path dependency, if it is one.
pub fn local_dep_path(project_root: &str, dep: &Dependency) -> (r: Option<String>)
    ensures
        opt_text(r) == local_dir(project_root@, *dep),
{
    match dep {
        Dependency::Detailed { path: Some(p), .. } => Some(join_path(project_root, p.as_str())),
        _ => None,
    }
}

/// Resolves one dependency; `path_exists` tells whether its local
/// directory exists.
pub fn resolve_dep(name: &String, dep: &Dependency, project_root: &str, path_exists: bool) -> (r: Result<
    (ResolvedDep, Option<String>),
    String,
>)
    ensures
        match (r, resolve_spec(name@, *dep, project_root@, path_exists)) {
            (Ok((d, w)), Ok(plan)) => matches_plan(d, w, name@, plan),
            (Err(m), Err(e)) => m@ == e,
            _ => false,
        },
{
    match dep {
        Dependency::Simple(version) => {
            let w = registry_warning_exec(name, version);
            Ok(
                (
                    ResolvedDep {
                        name: name.clone(),
                        version: version.clone(),
                        source: DepSource::Registry(version.clone()),
                        src_dir: String::new(),
                    },
                    Some(w),
                ),
            )
        },
        Dependency::Detailed { version, git, path, branch } => match path {
            Some(p) => {
                let dir = join_path(project_root, p.as_str());
                if !path_exists {
                    let mut m = string_of("Path dependency '");
                    push_string(&mut m, name);
                    push_str(&mut m, "' not found: ");
                    push_string(&mut m, &dir);
                    return Err(m);
                }
                let src_dir = join_path(dir.as_str(), "src");
                let v = match version {
                    Some(v) => v.clone(),
                    None => string_of("0.0.0"),
                };
                Ok((ResolvedDep { name: name.clone(), version: v, source: DepSource::Local(dir), src_dir }, None))
            },
            None => match git {
                Some(url) => {
                    let v = match version {
                        Some(v) => v.clone(),
                        None => string_of("0.0.0"),
                    };
                    let mut w = string_of("  ⚠ Git dependency '");
                    push_string(&mut w, name);
                    push_str(&mut w, "' (");
                    push_string(&mut w, url);
                    push_str(&mut w, ") — git fetch not yet available, skipping");
                    Ok(
                        (
                            ResolvedDep {
                                name: name.clone(),
                                version: v,
                                source: DepSource::Git { url: url.clone(), branch: copy_opt(branch) },
                                src_dir: String::new(),
                            },
                            Some(w),
                        ),
                    )
                },
                None => match version {
                    Some(v) => {
                        let w = registry_warning_exec(name, v);
                        Ok(
                            (
                                ResolvedDep {
                                    name: name.clone(),
                                    version: v.clone(),
                                    source: DepSource::Registry(v.clone()),
                                    src_dir: String::new(),
                                },
                                Some(w),
                            ),
                        )
                    },
                    None => {
                        let mut m = string_of("Dependency '");
                        push_string(&mut m, name);
                        push_str(&mut m, "' must specify version, path, or git");
                        Err(m)
                    },
                },
            },
        },
    }
}

/// A dependency is refused only when its local directory is missing, or
/// when it names no version, no path and no git URL: one that gives a
/// version, with or without a path (whose directory exists) or a git URL,
/// always resolves.
pub proof fn law_refusals(
    name: Seq<char>,
    version: Option<String>,
    git: Option<String>,
    path: Option<String>,
    branch: Option<String>,
    root: Seq<char>,
    exists: bool,
)
    ensures
        ({
            let d = Dependency::Detailed { version, git, path, branch };
            resolve_spec(name, d, root, exists) is Err <==> ((path is Some && !exists) || (
            path is None && git is None && version is None))
        }),
        ({
            let d = Dependency::Detailed { version, git, path, branch };
            (version is Some && (path is Some ==> exists)) ==> resolve_spec(name, d, root, exists) is Ok
        }),
{
}

/// Where the sources come from: a path (whose directory exists) wins over a
/// git URL, which wins over a version. A path dependency lives in the
/// project-relative directory, with its sources under `src` and no warning;
/// a git dependency keeps its URL and branch. Both take the version given,
/// or `0.0.0`.
pub proof fn law_source_precedence(
    name: Seq<char>,
    version: Option<String>,
    git: Option<String>,
    path: Option<String>,
    branch: Option<String>,
    root: Seq<char>,
    exists: bool,
)
    ensures
        ({
            let d = Dependency::Detailed { version, git, path, branch };
            let r = resolve_spec(name, d, root, exists);
            let v = match version {
                Some(s) => s@,
                None => "0.0.0"@,
            };
            &&& (path is Some && exists) ==> r == Ok::<_, Seq<char>>(
                (
                    v,
                    SourceV::Local(joined(root, path->Some_0@)),
                    joined(joined(root, path->Some_0@), "src"@),
                    None::<Seq<char>>,
                ),
            )
            &&& (path is None && git is Some) ==> r is Ok && r->Ok_0.0 == v && r->Ok_0.1 == SourceV::Git(
                git->Some_0@,
                opt_text(branch),
            ) && r->Ok_0.2 == Seq::<char>::empty()
        }),
{
}

/// A table that gives only a version resolves exactly as the bare version
/// string does: a registry dependency of that version, with no source
/// directory and the registry warning.
pub proof fn law_version_only_is_registry(
    name: Seq<char>,
    v: String,
    branch: Option<String>,
    root: Seq<char>,
    exists: bool,
)
    ensures
        ({
            let d = Dependency::Detailed { version: Some(v), git: None, path: None, branch };
            &&& resolve_spec(name, d, root, exists) == resolve_spec(name, Dependency::Simple(v), root, exists)
            &&& resolve_spec(name, d, root, exists) == Ok::<_, Seq<char>>(
                (v@, SourceV::Registry(v@), Seq::<char>::empty(), Some(registry_warning(name, v@))),
            )
        }),
{
}

/// Whether a dependency's local directory is among the existing ones.
pub open spec fn dir_exists(root: Seq<char>, d: Dependency, existing: Set<Seq<char>>) -> bool {
    match local_dir(root, d) {
        Some(p) => existing.contains(p),
        None => false,
    }
}

/// The first dependency from position `i` on, in the manifest's order, that
/// is refused; the count where none is.
pub open spec fn first_refused(
    keys: Seq<Seq<char>>,
    deps: Map<Seq<char>, Dependency>,
    root: Seq<char>,
    existing: Set<Seq<char>>,
    i: int,
) -> int
    decreases keys.len() - i,
{
    if i < 0 || i >= keys.len() {
        keys.len() as int
    } else if resolve_spec(keys[i], deps[keys[i]], root, dir_exists(root, deps[keys[i]], existing)) is Err {
        i
    } else {
        first_refused(keys, deps, root, existing, i + 1)
    }
}

/// Resolves every dependency of the manifest in order; `existing` holds the
/// local directories that exist. Gives the resolved dependencies with the
/// warnings to show, or the first refusal.
pub fn resolve(manifest: &Manifest, project_root: &str, existing: &StrSet) -> (r: Result<
    (Vec<ResolvedDep>, Vec<String>),
    String,
>)
    requires
        manifest.dependencies.wf(),
    ensures
        ({
            let keys = manifest.dependencies.key_seq();
            let deps = manifest.dependencies.view();
            let j = first_refused(keys, deps, project_root@, existing.view(), 0);
            if j < keys.len() {
                r is Err && r->Err_0@ == resolve_spec(
                    keys[j],
                    deps[keys[j]],
                    project_root@,
                    dir_exists(project_root@, deps[keys[j]], existing.view()),
                )->Err_0
            } else {
                &&& r is Ok
                &&& r->Ok_0.0@.len() == keys.len()
                &&& forall|i: int|
                    0 <= i < keys.len() ==> {
                        let plan = resolve_spec(
                            keys[i],
                            deps[keys[i]],
                            project_root@,
                            dir_exists(project_root@, deps[keys[i]], existing.view()),
                        )->Ok_0;
                        &&& (#[trigger] r->Ok_0.0@[i]).name@ == keys[i]
                        &&& r->Ok_0.0@[i].version@ == plan.0
                        &&& source_view(r->Ok_0.0@[i].source) == plan.1
                        &&& r->Ok_0.0@[i].src_dir@ == plan.2
                    }
            }
        }),
{
    let ghost keys = manifest.dependencies.key_seq();
    let ghost deps = manifest.dependencies.view();
    let mut out: Vec<ResolvedDep> = Vec::new();
    let mut warnings: Vec<String> = Vec::new();
    let mut i: usize = 0;
    while i < manifest.dependencies.len()
        invariant
            manifest.dependencies.wf(),
            keys == manifest.dependencies.key_seq(),
            deps == manifest.dependencies.view(),
            i <= keys.len(),
            out@.len() == i,
            first_refused(keys, deps, project_root@, existing.view(), 0) == first_refused(
                keys,
                deps,
                project_root@,
                existing.view(),
                i as int,
            ),
            forall|k: int|
                0 <= k < i ==> {
                    let plan = resolve_spec(
                        keys[k],
                        deps[keys[k]],
                        project_root@,
                        dir_exists(project_root@, deps[keys[k]], existing.view()),
                    );
                    &&& plan is Ok
                    &&& (#[trigger] out@[k]).name@ == keys[k]
                    &&& out@[k].version@ == plan->Ok_0.0
                    &&& source_view(out@[k].source) == plan->Ok_0.1
                    &&& out@[k].src_dir@ == plan->Ok_0.2
                },
        decreases keys.len() - i,
    {
        let name = manifest.dependencies.key_at(i);
        let dep = manifest.dependencies.value_at(i);
        let exists = match local_dep_path(project_root, dep) {
            Some(p) => existing.contains(p.as_str()),
            None => false,
        };
        match resolve_dep(name, dep, project_root, exists) {
            Ok((d, w)) => {
                match w {
                    Some(text) => warnings.push(text),
                    None => {},
                }
                let ghost before = out@;
                out.push(d);
                proof {
                    assert forall|k: int| 0 <= k < i + 1 implies {
                        let plan = resolve_spec(
                            keys[k],
                            deps[keys[k]],
                            project_root@,
                            dir_exists(project_root@, deps[keys[k]], existing.view()),
                        );
                        &&& plan is Ok
                        &&& (#[trigger] out@[k]).name@ == keys[k]
                        &&& out@[k].version@ == plan->Ok_0.0
                        &&& source_view(out@[k].source) == plan->Ok_0.1
                        &&& out@[k].src_dir@ == plan->Ok_0.2
                    } by {
                        if k < i {
                            assert(out@[k] == before[k]);
                        }
                    }
                }
            },
            Err(e) => {
                return Err(e);
            },
        }
        i += 1;
    }
    Ok((out, warnings))
}

} // verus!
