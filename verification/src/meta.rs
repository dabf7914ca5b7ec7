//! The package metadata that `cargo metadata` reports: packages, their dependencies and
//! targets, and the resolved dependency graph.
use vstd::prelude::*;
use vstd::string::{StringExecFns, StrSliceExecFns};

verus! {

/// `a` and `b` hold the same characters.
pub fn str_eq(a: &str, b: &str) -> (r: bool)
    ensures
        r == (a@ == b@),
{
    let x = String::from_str(a);
    let y = String::from_str(b);
    x == y
}

/// `s` with every `from` replaced by `to`.
pub open spec fn replace_char_spec(s: Seq<char>, from: char, to: char) -> Seq<char> {
    s.map_values(|c: char| if c == from { to } else { c })
}

/// `s` with every `-` replaced by `_`, as Rust normalizes crate names.
pub open spec fn normalize_name(s: Seq<char>) -> Seq<char> {
    replace_char_spec(s, '-', '_')
}

/// Calls `str::replace` with the character `from` as the pattern and `to` as the replacement;
/// `str::replace` is documented to replace all matches of the pattern with the replacement, so
/// the result is `s` with each `from` replaced by `to` and every other character kept in place.
#[verifier::external_body]
fn replace_char(s: &str, from: char, to: char) -> (r: String)
    ensures
        r@ == replace_char_spec(s@, from, to),
{
    s.replace(from, &to.to_string())
}

/// An opaque identifier of a package.
#[derive(PartialEq, Eq, Hash, Debug)]
pub struct PackageID(String);

impl PackageID {
    /// The characters of the identifier.
    pub closed spec fn view(&self) -> Seq<char> {
        self.0@
    }

    /// Creates the identifier `name`.
    pub fn new(name: &str) -> (r: PackageID)
        ensures
            r@ == name@,
    {
        PackageID(String::from_str(name))
    }

    /// The identifier as a string.
    pub fn as_str(&self) -> (r: &str)
        ensures
            r@ == self@,
    {
        self.0.as_str()
    }

    /// Whether two identifiers are the same.
    pub fn same(&self, other: &PackageID) -> (r: bool)
        ensures
            r == (self@ == other@),
    {
        self.0 == other.0
    }
}

impl Clone for PackageID {
    fn clone(&self) -> (r: Self)
        ensures
            r@ == self@,
    {
        PackageID(self.0.clone())
    }
}

/// The canonical name of a crate: every `-` of the name as written is replaced by `_`.
#[derive(PartialEq, Eq, Hash, Debug)]
pub struct CrateName(String);

impl CrateName {
    /// The characters of the name.
    pub closed spec fn view(&self) -> Seq<char> {
        self.0@
    }

    /// Creates the canonical name for `name`, in which every `-` is replaced by `_`, as Rust
    /// normalizes crate names.
    pub fn new(name: &str) -> (r: CrateName)
        ensures
            r@ == normalize_name(name@),
    {
        CrateName(replace_char(name, '-', '_'))
    }

    /// The name as a string.
    pub fn as_str(&self) -> (r: &str)
        ensures
            r@ == self@,
    {
        self.0.as_str()
    }

    /// Whether two names are the same.
    pub fn same(&self, other: &CrateName) -> (r: bool)
        ensures
            r == (self@ == other@),
    {
        self.0 == other.0
    }
}

impl Clone for CrateName {
    fn clone(&self) -> (r: Self)
        ensures
            r@ == self@,
    {
        CrateName(self.0.clone())
    }
}

/// The characters of an optional name.
pub open spec fn opt_name(n: Option<CrateName>) -> Option<Seq<char>> {
    match n {
        Some(c) => Some(c@),
        None => None,
    }
}

/// The kind of a dependency.
#[derive(Clone, Copy, PartialEq, Eq, Hash, Debug)]
pub enum DepType {
    /// A normal dependency.
    Normal,
    /// A development dependency.
    Dev,
    /// A build dependency.
    Build,
}

impl DepType {
    /// The kind named by the `kind` field of the metadata: `"dev"` and `"build"` name their
    /// kinds, and anything else, or no value, is a normal dependency.
    pub fn from_kind(kind: Option<&str>) -> (r: DepType)
        ensures
            r == (match kind {
                Some(s) => if s@ == "dev"@ {
                    DepType::Dev
                } else if s@ == "build"@ {
                    DepType::Build
                } else {
                    DepType::Normal
                },
                None => DepType::Normal,
            }),
    {
        match kind {
            Some(s) => if str_eq(s, "dev") {
                DepType::Dev
            } else if str_eq(s, "build") {
                DepType::Build
            } else {
                DepType::Normal
            },
            None => DepType::Normal,
        }
    }
}

/// The kind of a build target.
#[derive(Clone, Copy, PartialEq, Eq, Hash, Debug)]
pub enum TargetKind {
    /// A binary.
    Bin,
    /// A library.
    Lib,
    /// A Rust library.
    RLib,
    /// A dynamic library.
    Dylib,
    /// A procedural macro.
    ProcMacro,
    /// An example.
    Example,
    /// A test.
    Test,
    /// A benchmark.
    Bench,
    /// A build script.
    CustomBuild,
}

impl TargetKind {
    /// The kind with the name `s` in the metadata, or `None` for an unknown name.
    pub fn from_name(s: &str) -> (r: Option<TargetKind>)
        ensures
            r == (if s@ == "bin"@ {
                Some(TargetKind::Bin)
            } else if s@ == "lib"@ {
                Some(TargetKind::Lib)
            } else if s@ == "rlib"@ {
                Some(TargetKind::RLib)
            } else if s@ == "dylib"@ {
                Some(TargetKind::Dylib)
            } else if s@ == "proc-macro"@ {
                Some(TargetKind::ProcMacro)
            } else if s@ == "example"@ {
                Some(TargetKind::Example)
            } else if s@ == "test"@ {
                Some(TargetKind::Test)
            } else if s@ == "bench"@ {
                Some(TargetKind::Bench)
            } else if s@ == "custom-build"@ {
                Some(TargetKind::CustomBuild)
            } else {
                None
            }),
    {
        if str_eq(s, "bin") {
            Some(TargetKind::Bin)
        } else if str_eq(s, "lib") {
            Some(TargetKind::Lib)
        } else if str_eq(s, "rlib") {
            Some(TargetKind::RLib)
        } else if str_eq(s, "dylib") {
            Some(TargetKind::Dylib)
        } else if str_eq(s, "proc-macro") {
            Some(TargetKind::ProcMacro)
        } else if str_eq(s, "example") {
            Some(TargetKind::Example)
        } else if str_eq(s, "test") {
            Some(TargetKind::Test)
        } else if str_eq(s, "bench") {
            Some(TargetKind::Bench)
        } else if str_eq(s, "custom-build") {
            Some(TargetKind::CustomBuild)
        } else {
            None
        }
    }
}

/// The Rust edition of a package or target.
#[derive(Clone, Copy, PartialEq, Eq, Hash, Debug)]
pub enum RustEdition {
    /// The 2015 edition.
    Edition2015,
    /// The 2018 edition.
    Edition2018,
    /// The 2021 edition.
    Edition2021,
    /// The 2024 edition.
    Edition2024,
}

/// A dependency as the manifest of a package declares it.
#[derive(Debug)]
pub struct DependencyInfo {
    /// The name of the depended-on crate.
    pub global_name: CrateName,
    /// The name the package gives the dependency, when it renames it.
    pub local_name: Option<CrateName>,
    /// The version requirement.
    pub request: String,
    /// The kind of the dependency.
    pub kind: DepType,
    /// Whether the dependency is optional.
    pub optional: bool,
    /// Whether the default features are used.
    pub uses_default_features: bool,
    /// The features enabled.
    pub features: Vec<String>,
    /// The target platform, if any.
    pub target: Option<String>,
    /// The local path, if any.
    pub path: Option<String>,
    /// The registry, if any.
    pub registry: Option<String>,
}

impl DependencyInfo {
    /// The two declarations hold the same values.
    pub open spec fn same_as(self, o: DependencyInfo) -> bool {
        &&& self.global_name@ == o.global_name@
        &&& opt_name(self.local_name) == opt_name(o.local_name)
        &&& self.request@ == o.request@
        &&& self.kind == o.kind
        &&& self.optional == o.optional
        &&& self.uses_default_features == o.uses_default_features
        &&& self.features@ == o.features@
        &&& self.target == o.target
        &&& self.path == o.path
        &&& self.registry == o.registry
    }

    /// The name the package uses for the dependency: the local name if there is one,
    /// otherwise the global name.
    pub open spec fn spec_effective_name(self) -> Seq<char> {
        match self.local_name {
            Some(n) => n@,
            None => self.global_name@,
        }
    }

    /// The name the package uses for the dependency: the local name if there is one,
    /// otherwise the global name.
    pub fn effective_name(&self) -> (r: &CrateName)
        ensures
            r@ == self.spec_effective_name(),
    {
        match &self.local_name {
            Some(n) => n,
            None => &self.global_name,
        }
    }
}

/// A clone of an optional string is the same string.
fn clone_opt_string(s: &Option<String>) -> (r: Option<String>)
    ensures
        r == *s,
{
    match s {
        Some(x) => Some(x.clone()),
        None => None,
    }
}

/// A clone of a vector of strings holds the same strings.
fn clone_strings(v: &Vec<String>) -> (r: Vec<String>)
    ensures
        r@ == v@,
{
    let r = v.clone();
    assert(r@ =~= v@);
    r
}

impl Clone for DependencyInfo {
    fn clone(&self) -> (r: Self)
        ensures
            r.same_as(*self),
    {
        DependencyInfo {
            global_name: self.global_name.clone(),
            local_name: match &self.local_name {
                Some(n) => Some(n.clone()),
                None => None,
            },
            request: self.request.clone(),
            kind: self.kind,
            optional: self.optional,
            uses_default_features: self.uses_default_features,
            features: clone_strings(&self.features),
            target: clone_opt_string(&self.target),
            path: clone_opt_string(&self.path),
            registry: clone_opt_string(&self.registry),
        }
    }
}

/// A dependency of a package, resolved to a package of the graph or not yet.
#[derive(Debug)]
pub enum Dependency {
    /// Not resolved: optional dependencies that are not enabled stay so.
    Unresolved(DependencyInfo),
    /// Resolved to the package `resolved_id`.
    Resolved {
        /// The declaration.
        info: DependencyInfo,
        /// The package it resolves to.
        resolved_id: PackageID,
    },
}

impl Dependency {
    /// The declaration.
    pub open spec fn spec_info(self) -> DependencyInfo {
        match self {
            Dependency::Unresolved(i) => i,
            Dependency::Resolved { info, .. } => info,
        }
    }

    /// The package it resolves to, if resolved.
    pub open spec fn resolved(self) -> Option<Seq<char>> {
        match self {
            Dependency::Unresolved(_) => None,
            Dependency::Resolved { resolved_id, .. } => Some(resolved_id@),
        }
    }

    /// The two dependencies hold the same values.
    pub open spec fn same_as(self, o: Dependency) -> bool {
        self.spec_info().same_as(o.spec_info()) && self.resolved() == o.resolved()
    }

    /// The declaration, whether resolved or not.
    pub fn info(&self) -> (r: &DependencyInfo)
        ensures
            *r == self.spec_info(),
    {
        match self {
            Dependency::Unresolved(info) => info,
            Dependency::Resolved { info, .. } => info,
        }
    }
}

impl Clone for Dependency {
    fn clone(&self) -> (r: Self)
        ensures
            r.same_as(*self),
    {
        match self {
            Dependency::Unresolved(info) => Dependency::Unresolved(info.clone()),
            Dependency::Resolved { info, resolved_id } => Dependency::Resolved {
                info: info.clone(),
                resolved_id: resolved_id.clone(),
            },
        }
    }
}

/// Two sequences of dependencies hold the same values, entry by entry.
pub open spec fn same_deps(a: Seq<Dependency>, b: Seq<Dependency>) -> bool {
    a.len() == b.len() && forall|k: int| 0 <= k < a.len() ==> (#[trigger] a[k]).same_as(b[k])
}

/// A clone of a vector of dependencies holds the same values.
pub fn clone_deps(v: &Vec<Dependency>) -> (r: Vec<Dependency>)
    ensures
        same_deps(r@, v@),
{
    let r = v.clone();
    proof {
        assert forall|k: int| 0 <= k < r@.len() implies (#[trigger] r@[k]).same_as(v@[k]) by {
            assert(cloned::<Dependency>(v[k], r[k]));
        }
    }
    r
}

/// A build target of a package.
#[derive(Debug)]
pub struct Target {
    /// The crate name of the target.
    pub name: CrateName,
    /// The kind of the target.
    pub kind: TargetKind,
    /// The path of its root source file.
    pub src_path: String,
    /// Its edition.
    pub edition: RustEdition,
    /// The features it requires, if any.
    pub required_features: Option<Vec<String>>,
    /// Whether it is documented.
    pub doc: bool,
    /// Whether it is tested.
    pub test: bool,
}

impl Target {
    /// The two targets hold the same values.
    pub open spec fn same_as(self, o: Target) -> bool {
        &&& self.name@ == o.name@
        &&& self.kind == o.kind
        &&& self.src_path@ == o.src_path@
        &&& self.edition == o.edition
        &&& match (self.required_features, o.required_features) {
            (Some(a), Some(b)) => a@ == b@,
            (None, None) => true,
            _ => false,
        }
        &&& self.doc == o.doc
        &&& self.test == o.test
    }
}

impl Clone for Target {
    fn clone(&self) -> (r: Self)
        ensures
            r.same_as(*self),
    {
        Target {
            name: self.name.clone(),
            kind: self.kind,
            src_path: self.src_path.clone(),
            edition: self.edition,
            required_features: match &self.required_features {
                Some(f) => Some(clone_strings(f)),
                None => None,
            },
            doc: self.doc,
            test: self.test,
        }
    }
}

/// A feature of a package and what it enables.
#[derive(Debug)]
pub struct Feature {
    /// The name of the feature.
    pub name: String,
    /// The features and dependencies it enables.
    pub enables: Vec<String>,
}

impl Feature {
    /// The two features hold the same values.
    pub open spec fn same_as(self, o: Feature) -> bool {
        self.name@ == o.name@ && self.enables@ == o.enables@
    }
}

impl Clone for Feature {
    fn clone(&self) -> (r: Self)
        ensures
            r.same_as(*self),
    {
        Feature { name: self.name.clone(), enables: clone_strings(&self.enables) }
    }
}

/// A package of the workspace or of its dependency graph.
#[derive(Debug)]
pub struct Package {
    /// Its identifier.
    pub id: PackageID,
    /// Its name.
    pub name: CrateName,
    /// Its version.
    pub version: String,
    /// The dependencies its manifest declares.
    pub dependencies: Vec<Dependency>,
    /// Its build targets.
    pub targets: Vec<Target>,
    /// Its features.
    pub features: Vec<Feature>,
    /// The path of its manifest.
    pub manifest_path: String,
    /// Its free-form metadata, as JSON text.
    pub metadata: Option<String>,
    /// Its edition.
    pub edition: RustEdition,
}

impl Package {
    /// The two packages hold the same values, apart from their dependencies.
    #[verifier::opaque]
    pub open spec fn same_but_deps(self, o: Package) -> bool {
        &&& self.id@ == o.id@
        &&& self.name@ == o.name@
        &&& self.version@ == o.version@
        &&& self.targets@.len() == o.targets@.len()
        &&& forall|k: int| 0 <= k < self.targets@.len() ==> (#[trigger] self.targets@[k]).same_as(o.targets@[k])
        &&& self.features@.len() == o.features@.len()
        &&& forall|k: int| 0 <= k < self.features@.len() ==> (#[trigger] self.features@[k]).same_as(o.features@[k])
        &&& self.manifest_path@ == o.manifest_path@
        &&& self.metadata == o.metadata
        &&& self.edition == o.edition
    }

    /// The two packages hold the same values.
    pub open spec fn same_as(self, o: Package) -> bool {
        self.same_but_deps(o) && same_deps(self.dependencies@, o.dependencies@)
    }
}

impl Clone for Package {
    fn clone(&self) -> (r: Self)
        ensures
            r.same_as(*self),
    {
        let targets = self.targets.clone();
        let features = self.features.clone();
        proof {
            assert forall|k: int| 0 <= k < targets@.len() implies (#[trigger] targets@[k]).same_as(self.targets@[k]) by {
                assert(cloned::<Target>(self.targets[k], targets[k]));
            }
            assert forall|k: int| 0 <= k < features@.len() implies (#[trigger] features@[k]).same_as(self.features@[k]) by {
                assert(cloned::<Feature>(self.features[k], features[k]));
            }
        }
        let r = Package {
            id: self.id.clone(),
            name: self.name.clone(),
            version: self.version.clone(),
            dependencies: clone_deps(&self.dependencies),
            targets,
            features,
            manifest_path: self.manifest_path.clone(),
            metadata: clone_opt_string(&self.metadata),
            edition: self.edition,
        };
        assert(r.same_but_deps(*self)) by {
            reveal(Package::same_but_deps);
        }
        r
    }
}

/// How a dependency of the resolved graph is used.
#[derive(Debug)]
pub struct DepKind {
    /// The kind of dependency.
    pub kind: DepType,
    /// The target platform, if any.
    pub target: Option<String>,
}

/// A dependency of a node of the resolved graph.
#[derive(Debug)]
pub struct ResolveDep {
    /// The name of the dependency.
    pub name: CrateName,
    /// The package it resolves to.
    pub id: PackageID,
    /// How it is used.
    pub dep_kinds: Vec<DepKind>,
}

/// A node of the resolved graph: a package and its resolved dependencies.
#[derive(Debug)]
pub struct ResolveNode {
    /// The package.
    pub id: PackageID,
    /// Its resolved dependencies.
    pub dependencies: Vec<ResolveDep>,
}

/// The resolved dependency graph.
#[derive(Debug)]
pub struct Resolve {
    /// The nodes of the graph.
    pub nodes: Vec<ResolveNode>,
    /// The root package, if any.
    pub root: Option<PackageID>,
}

/// The metadata of a workspace: its packages and the resolved graph.
#[derive(Debug)]
pub struct Metadata {
    /// The packages.
    pub packages: Vec<Package>,
    /// The resolved graph.
    pub resolve: Resolve,
}

} // verus!
