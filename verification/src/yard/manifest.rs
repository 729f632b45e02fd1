use vstd::prelude::*;
use crate::collections::StrMap;
use crate::text::string_of;

verus! {

/// A project's manifest (`Track.toml`).
pub struct Manifest {
    pub package: Package,
    pub dependencies: StrMap<Dependency>,
    pub build: BuildConfig,
}

/// The `[package]` table.
pub struct Package {
    pub name: String,
    pub version: String,
    pub description: Option<String>,
    pub authors: Vec<String>,
}

/// A dependency: a bare version, or a table naming where it comes from.
pub enum Dependency {
    Simple(String),
    Detailed {
        version: Option<String>,
        git: Option<String>,
        path: Option<String>,
        branch: Option<String>,
    },
}

impl DeepView for Dependency {
    type V = Dependency;

    open spec fn deep_view(&self) -> Dependency {
        *self
    }
}

/// The `[build]` table.
pub struct BuildConfig {
    pub src: String,
    pub target: Option<String>,
}

/// The source directory when the manifest names none.
pub fn default_src() -> (r: String)
    ensures
        r@ == "src"@,
{
    string_of("src")
}

impl Default for BuildConfig {
    fn default() -> (r: Self)
        ensures
            r.src@ == "src"@,
            r.target is None,
    {
        BuildConfig { src: default_src(), target: None }
    }
}

impl Manifest {
    /// The manifest of a new project: version `0.1.0`, no description,
    /// authors or dependencies, sources under `src`.
    pub fn new(name: &str) -> (m: Self)
        ensures
            m.package.name@ == name@,
            m.package.version@ == "0.1.0"@,
            m.package.description is None,
            m.package.authors@.len() == 0,
            m.dependencies.wf(),
            m.dependencies.view() == Map::<Seq<char>, Dependency>::empty(),
            m.build.src@ == "src"@,
            m.build.target is None,
    {
        Manifest {
            package: Package {
                name: string_of(name),
                version: string_of("0.1.0"),
                description: None,
                authors: Vec::new(),
            },
            dependencies: StrMap::new(),
            build: BuildConfig::default(),
        }
    }

    /// Adds or replaces the dependency `name`.
    pub fn add_dependency(&mut self, name: String, dep: Dependency)
        requires
            old(self).dependencies.wf(),
        ensures
            final(self).dependencies.wf(),
            final(self).dependencies.view() == old(self).dependencies.view().insert(name@, dep),
            final(self).package == old(self).package,
            final(self).build == old(self).build,
    {
        self.dependencies.insert(name, dep);
    }
}

} // verus!
