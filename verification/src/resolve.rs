//! Resolves the dependency graph that `cargo metadata` reports: each dependency of each
//! package is tied to the package of the graph it resolves to.
use vstd::prelude::*;
use vstd::string::StringExecFns;
use crate::meta::{
    clone_deps, same_deps, CrateName, Dependency, DependencyInfo, Package, PackageID, Resolve,
    ResolveDep, ResolveNode, Target, TargetKind,
};

verus! {

/// Why resolving a node failed.
#[derive(Debug)]
pub enum ResolveErrorReason {
    /// The node's package is not among the packages.
    NodePackageNotFound {
        /// The identifier of the node.
        package_id: PackageID,
    },
    /// A dependency's package is not among the packages.
    DependencyPackageNotFound {
        /// The identifier of the dependency.
        dependency_id: PackageID,
    },
    /// A dependency's package has no `lib` or `proc-macro` target, so no manifest can
    /// depend on it.
    DependencyHasNoLibTarget {
        /// The dependency's package.
        dependency_package: Package,
    },
    /// A dependency matches none of the dependencies that the package's manifest declares.
    DependencyNotFoundInPackage {
        /// The dependency's package.
        dependency_package: Package,
        /// The dependencies the manifest declares.
        defined_dependencies: Vec<Dependency>,
    },
}

/// An error met while resolving a node.
#[derive(Debug)]
pub struct ResolveError {
    package: Option<Package>,
    reason: ResolveErrorReason,
}

impl ResolveError {
    /// The package being resolved, as far as it was resolved.
    pub closed spec fn spec_package(&self) -> Option<Package> {
        self.package
    }

    /// Why resolving failed.
    pub closed spec fn spec_reason(&self) -> ResolveErrorReason {
        self.reason
    }

    /// Creates the error for `package` with `reason`.
    pub fn new(package: Option<Package>, reason: ResolveErrorReason) -> (r: ResolveError)
        ensures
            r.spec_package() == package,
            r.spec_reason() == reason,
    {
        ResolveError { package, reason }
    }

    /// The package being resolved, as far as it was resolved.
    pub fn package(&self) -> (r: &Option<Package>)
        ensures
            *r == self.spec_package(),
    {
        &self.package
    }

    /// Why resolving failed.
    pub fn reason(&self) -> (r: &ResolveErrorReason)
        ensures
            *r == self.spec_reason(),
    {
        &self.reason
    }
}

/// The index of the last package with the identifier `id`, if any.
pub open spec fn is_last_with_id(pkgs: Seq<Package>, id: Seq<char>, i: int) -> bool {
    &&& 0 <= i < pkgs.len()
    &&& pkgs[i].id@ == id
    &&& forall|j: int| i < j < pkgs.len() ==> (#[trigger] pkgs[j]).id@ != id
}

/// The package that the identifier `id` names: the last one with that identifier, as in a
/// map filled in order.
pub open spec fn find_package(pkgs: Seq<Package>, id: Seq<char>) -> Option<int> {
    if exists|i: int| 0 <= i < pkgs.len() && (#[trigger] pkgs[i]).id@ == id {
        Some(choose|i: int| is_last_with_id(pkgs, id, i))
    } else {
        None
    }
}

/// Whether `k` can be used as a dependency: it is a library or a procedural macro.
pub open spec fn is_lib_kind(k: TargetKind) -> bool {
    k == TargetKind::Lib || k == TargetKind::ProcMacro
}

/// The index of the first library or procedural-macro target, if any.
pub open spec fn lib_target(targets: Seq<Target>) -> Option<int> {
    if exists|t: int| 0 <= t < targets.len() && is_lib_kind((#[trigger] targets[t]).kind) {
        Some(
            choose|t: int|
                0 <= t < targets.len() && is_lib_kind(targets[t].kind) && forall|u: int|
                    0 <= u < t ==> !is_lib_kind((#[trigger] targets[u]).kind),
        )
    } else {
        None
    }
}

/// The names of each declared dependency: the name the package uses, and the global one.
pub open spec fn dep_names(deps: Seq<Dependency>) -> Seq<(Seq<char>, Seq<char>)> {
    deps.map_values(|d: Dependency| (d.spec_info().spec_effective_name(), d.spec_info().global_name@))
}

/// A declared dependency with the names `n` names the crate `lib` of the package named
/// `pkg_name`.
pub open spec fn names_match(n: (Seq<char>, Seq<char>), lib: Seq<char>, pkg_name: Seq<char>) -> bool {
    n.0 == lib || n.1 == lib || n.0 == pkg_name
}

/// The index of the first declared dependency (given by its names) that names the crate
/// `lib` of the package named `pkg_name`, if any.
pub open spec fn first_match(names: Seq<(Seq<char>, Seq<char>)>, lib: Seq<char>, pkg_name: Seq<char>) -> Option<int> {
    if exists|m: int| 0 <= m < names.len() && names_match(#[trigger] names[m], lib, pkg_name) {
        Some(
            choose|m: int|
                0 <= m < names.len() && names_match(names[m], lib, pkg_name) && forall|u: int|
                    0 <= u < m ==> !names_match(#[trigger] names[u], lib, pkg_name),
        )
    } else {
        None
    }
}

/// Why resolving one dependency of a node failed, with the index of the dependency's package
/// where there is one.
pub enum StepFailure {
    /// The dependency's package is not among the packages.
    DependencyMissing,
    /// The dependency's package has no library target.
    NoLibTarget(int),
    /// No declared dependency matches.
    NotDeclared(int),
}

/// Which declared dependency (of the declarations `deps`) the node dependency `nd` resolves,
/// or why it cannot be resolved.
#[verifier::opaque]
pub open spec fn step_outcome(pkgs: Seq<Package>, deps: Seq<Dependency>, nd: ResolveDep) -> Result<int, StepFailure> {
    match find_package(pkgs, nd.id@) {
        None => Err(StepFailure::DependencyMissing),
        Some(j) => match lib_target(pkgs[j].targets@) {
            None => Err(StepFailure::NoLibTarget(j)),
            Some(t) => match first_match(dep_names(deps), pkgs[j].targets@[t].name@, pkgs[j].name@) {
                None => Err(StepFailure::NotDeclared(j)),
                Some(m) => Ok(m),
            },
        },
    }
}

/// The package each declared dependency resolves to after the first `k` node dependencies
/// `nds` are resolved, assuming none of them failed.
pub open spec fn status_after(pkgs: Seq<Package>, deps: Seq<Dependency>, nds: Seq<ResolveDep>, k: int) -> Seq<Option<Seq<char>>>
    decreases k,
{
    if k <= 0 {
        deps.map_values(|d: Dependency| d.resolved())
    } else {
        let prev = status_after(pkgs, deps, nds, k - 1);
        match step_outcome(pkgs, deps, nds[k - 1]) {
            Ok(m) => prev.update(m, Some(nds[k - 1].id@)),
            Err(_) => prev,
        }
    }
}

/// The first node dependency that cannot be resolved, if any.
pub open spec fn first_failure(pkgs: Seq<Package>, deps: Seq<Dependency>, nds: Seq<ResolveDep>) -> Option<int> {
    if exists|k: int| 0 <= k < nds.len() && (#[trigger] step_outcome(pkgs, deps, nds[k])) is Err {
        Some(
            choose|k: int|
                0 <= k < nds.len() && step_outcome(pkgs, deps, nds[k]) is Err && forall|u: int|
                    0 <= u < k ==> (#[trigger] step_outcome(pkgs, deps, nds[u])) is Ok,
        )
    } else {
        None
    }
}

/// `new` holds the declarations of `deps`, resolved as `status` says.
#[verifier::opaque]
pub open spec fn deps_resolved_as(new: Seq<Dependency>, deps: Seq<Dependency>, status: Seq<Option<Seq<char>>>) -> bool {
    &&& new.len() == deps.len()
    &&& status.len() == deps.len()
    &&& forall|i: int|
        0 <= i < deps.len() ==> (#[trigger] new[i]).spec_info().same_as(deps[i].spec_info())
            && new[i].resolved() == status[i]
}

/// `r` is what resolving the node `node` against the packages `pkgs` gives.
#[verifier::opaque]
pub open spec fn node_resolution(pkgs: Seq<Package>, node: ResolveNode, r: Result<Package, ResolveError>) -> bool {
    match find_package(pkgs, node.id@) {
        None => {
            &&& r matches Err(e)
            &&& e.spec_package() is None
            &&& e.spec_reason() matches ResolveErrorReason::NodePackageNotFound { package_id }
            &&& package_id@ == node.id@
        },
        Some(i) => {
            let deps = pkgs[i].dependencies@;
            let nds = node.dependencies@;
            match first_failure(pkgs, deps, nds) {
                None => {
                    &&& r matches Ok(p)
                    &&& p.same_but_deps(pkgs[i])
                    &&& deps_resolved_as(p.dependencies@, deps, status_after(pkgs, deps, nds, nds.len() as int))
                },
                Some(k) => {
                    let status = status_after(pkgs, deps, nds, k);
                    &&& r matches Err(e)
                    &&& e.spec_package() matches Some(p)
                    &&& p.same_but_deps(pkgs[i])
                    &&& deps_resolved_as(p.dependencies@, deps, status)
                    &&& match step_outcome(pkgs, deps, nds[k]) {
                        Err(StepFailure::DependencyMissing) => e.spec_reason() matches ResolveErrorReason::DependencyPackageNotFound { dependency_id }
                            && dependency_id@ == nds[k].id@,
                        Err(StepFailure::NoLibTarget(j)) => e.spec_reason() matches ResolveErrorReason::DependencyHasNoLibTarget { dependency_package }
                            && dependency_package.same_as(pkgs[j]),
                        Err(StepFailure::NotDeclared(j)) => e.spec_reason() matches ResolveErrorReason::DependencyNotFoundInPackage { dependency_package, defined_dependencies }
                            && dependency_package.same_as(pkgs[j]) && deps_resolved_as(defined_dependencies@, deps, status),
                        Ok(_) => false,
                    }
                },
            }
        },
    }
}

/// The packages of the results that succeeded, in order.
pub open spec fn oks(rs: Seq<Result<Package, ResolveError>>) -> Seq<Package>
    decreases rs.len(),
{
    if rs.len() == 0 {
        Seq::empty()
    } else {
        let rest = oks(rs.drop_last());
        match rs.last() {
            Ok(p) => rest.push(p),
            Err(_) => rest,
        }
    }
}

/// The errors of the results that failed, in order.
pub open spec fn errs(rs: Seq<Result<Package, ResolveError>>) -> Seq<ResolveError>
    decreases rs.len(),
{
    if rs.len() == 0 {
        Seq::empty()
    } else {
        let rest = errs(rs.drop_last());
        match rs.last() {
            Ok(_) => rest,
            Err(e) => rest.push(e),
        }
    }
}

/// A resolver of the dependency graph over a set of packages.
#[derive(Debug)]
pub struct Resolver {
    resolve: Option<Resolve>,
    packages: Vec<Package>,
    errors: Vec<ResolveError>,
}

impl Resolver {
    /// The graph still to be resolved, if any.
    pub closed spec fn spec_resolve(&self) -> Option<Resolve> {
        self.resolve
    }

    /// The packages.
    pub closed spec fn spec_packages(&self) -> Seq<Package> {
        self.packages@
    }

    /// The errors met so far.
    pub closed spec fn spec_errors(&self) -> Seq<ResolveError> {
        self.errors@
    }

    /// Creates a resolver for the graph `resolve` over `packages`.
    pub fn new(packages: Vec<Package>, resolve: Resolve) -> (r: Resolver)
        ensures
            r.spec_packages() == packages@,
            r.spec_resolve() == Some(resolve),
            r.spec_errors() == Seq::<ResolveError>::empty(),
    {
        Resolver { resolve: Some(resolve), packages, errors: Vec::new() }
    }

    /// The errors met so far.
    pub fn errors(&self) -> (r: &Vec<ResolveError>)
        ensures
            r@ == self.spec_errors(),
    {
        &self.errors
    }

    /// The index of the package named by `id`: the last one with that identifier.
    fn find(&self, id: &PackageID) -> (r: Option<usize>)
        ensures
            r matches Some(x) ==> x < self.packages@.len() && find_package(self.packages@, id@) == Some(x as int),
            r is None ==> find_package(self.packages@, id@) is None,
    {
        let mut i: usize = self.packages.len();
        while i > 0
            invariant
                i <= self.packages@.len(),
                forall|j: int| i <= j < self.packages@.len() ==> (#[trigger] self.packages@[j]).id@ != id@,
            decreases i,
        {
            if self.packages[i - 1].id.same(id) {
                proof {
                    let pkgs = self.packages@;
                    let c = choose|c: int| is_last_with_id(pkgs, id@, c);
                    assert(is_last_with_id(pkgs, id@, i - 1));
                    if c != i - 1 {
                        if c < i - 1 {
                            assert(pkgs[i - 1].id@ != id@);
                        } else {
                            assert(pkgs[c].id@ != id@);
                        }
                    }
                }
                return Some(i - 1);
            }
            i = i - 1;
        }
        None
    }

    /// The index of the first library or procedural-macro target of `targets`, if any.
    fn lib_target_index(targets: &Vec<Target>) -> (r: Option<usize>)
        ensures
            r matches Some(x) ==> x < targets@.len() && lib_target(targets@) == Some(x as int),
            r is None ==> lib_target(targets@) is None,
    {
        let mut t: usize = 0;
        while t < targets.len()
            invariant
                t <= targets@.len(),
                forall|u: int| 0 <= u < t ==> !is_lib_kind((#[trigger] targets@[u]).kind),
            decreases targets@.len() - t,
        {
            match targets[t].kind {
                TargetKind::Lib | TargetKind::ProcMacro => {
                    proof {
                        let c = choose|c: int|
                            0 <= c < targets@.len() && is_lib_kind(targets@[c].kind) && forall|u: int|
                                0 <= u < c ==> !is_lib_kind((#[trigger] targets@[u]).kind);
                        assert(is_lib_kind(targets@[t as int].kind));
                        if c < t {
                            assert(!is_lib_kind(targets@[c].kind));
                        } else if c > t {
                            assert(!is_lib_kind(targets@[t as int].kind));
                        }
                    }
                    return Some(t);
                },
                _ => {},
            }
            t = t + 1;
        }
        None
    }

    /// The index of the first dependency of `deps` that names the crate `lib` of the package
    /// named `pkg_name`, if any.
    fn matching_dependency(deps: &Vec<Dependency>, lib: &CrateName, pkg_name: &CrateName) -> (r: Option<usize>)
        ensures
            r matches Some(x) ==> x < deps@.len() && first_match(dep_names(deps@), lib@, pkg_name@) == Some(x as int),
            r is None ==> first_match(dep_names(deps@), lib@, pkg_name@) is None,
    {
        let ghost names = dep_names(deps@);
        let mut m: usize = 0;
        while m < deps.len()
            invariant
                names == dep_names(deps@),
                m <= deps@.len(),
                forall|u: int| 0 <= u < m ==> !names_match(#[trigger] names[u], lib@, pkg_name@),
            decreases deps@.len() - m,
        {
            let info = deps[m].info();
            if info.effective_name().same(lib) || info.global_name.same(lib) || info.effective_name().same(pkg_name) {
                proof {
                    let c = choose|c: int|
                        0 <= c < names.len() && names_match(names[c], lib@, pkg_name@) && forall|u: int|
                            0 <= u < c ==> !names_match(#[trigger] names[u], lib@, pkg_name@);
                    assert(names_match(names[m as int], lib@, pkg_name@));
                    if c < m {
                        assert(!names_match(names[c], lib@, pkg_name@));
                    } else if c > m {
                        assert(!names_match(names[m as int], lib@, pkg_name@));
                    }
                }
                return Some(m);
            }
            m = m + 1;
        }
        None
    }

    /// Resolves the node `node`: each of its dependencies is tied to the declared dependency
    /// of the node's package that it matches.
    #[verifier::rlimit(60)]
    fn resolve_node(&mut self, node: &ResolveNode) -> (r: Result<Package, ResolveError>)
        ensures
            *final(self) == *old(self),
            node_resolution(old(self).spec_packages(), *node, r),
    {
        let ghost pkgs = self.packages@;
        let i = match self.find(&node.id) {
            Some(i) => i,
            None => {
                let r = Err(ResolveError::new(
                    None,
                    ResolveErrorReason::NodePackageNotFound { package_id: node.id.clone() },
                ));
                assert(node_resolution(pkgs, *node, r)) by {
                    reveal(node_resolution);
                }
                return r;
            },
        };
        let mut package = self.packages[i].clone();
        proof {
            reveal(deps_resolved_as);
            assert(dep_names(package.dependencies@) =~= dep_names(pkgs[i as int].dependencies@));
        }
        let ghost deps = pkgs[i as int].dependencies@;
        let ghost nds = node.dependencies@;
        let mut k: usize = 0;
        while k < node.dependencies.len()
            invariant
                pkgs == self.packages@,
                0 <= i < pkgs.len(),
                deps == pkgs[i as int].dependencies@,
                nds == node.dependencies@,
                k <= nds.len(),
                find_package(pkgs, node.id@) == Some(i as int),
                package.same_but_deps(pkgs[i as int]),
                deps_resolved_as(package.dependencies@, deps, status_after(pkgs, deps, nds, k as int)),
                dep_names(package.dependencies@) == dep_names(deps),
                forall|u: int| 0 <= u < k ==> (#[trigger] step_outcome(pkgs, deps, nds[u])) is Ok,
            decreases nds.len() - k,
        {
            let dep = &node.dependencies[k];
            let j = match self.find(&dep.id) {
                Some(j) => j,
                None => {
                    let r = Err(ResolveError::new(
                        Some(package.clone()),
                        ResolveErrorReason::DependencyPackageNotFound { dependency_id: dep.id.clone() },
                    ));
                    proof {
                        assert(step_outcome(pkgs, deps, nds[k as int]) == Err::<int, StepFailure>(StepFailure::DependencyMissing)) by {
                            reveal(step_outcome);
                        }
                        lemma_same_package(r->Err_0.spec_package()->Some_0, package, pkgs[i as int]);
                        lemma_same_deps_resolved(r->Err_0.spec_package()->Some_0.dependencies@, package.dependencies@, deps, status_after(pkgs, deps, nds, k as int));
                        lemma_exit(pkgs, *node, i as int, k as int, r);
                    }
                    return r;
                },
            };
            let dep_package = &self.packages[j];
            let t = match Self::lib_target_index(&dep_package.targets) {
                Some(t) => t,
                None => {
                    let r = Err(ResolveError::new(
                        Some(package.clone()),
                        ResolveErrorReason::DependencyHasNoLibTarget { dependency_package: dep_package.clone() },
                    ));
                    proof {
                        assert(step_outcome(pkgs, deps, nds[k as int]) == Err::<int, StepFailure>(StepFailure::NoLibTarget(j as int))) by {
                            reveal(step_outcome);
                        }
                        lemma_same_package(r->Err_0.spec_package()->Some_0, package, pkgs[i as int]);
                        lemma_same_deps_resolved(r->Err_0.spec_package()->Some_0.dependencies@, package.dependencies@, deps, status_after(pkgs, deps, nds, k as int));
                        lemma_exit(pkgs, *node, i as int, k as int, r);
                    }
                    return r;
                },
            };
            let m = match Self::matching_dependency(&package.dependencies, &dep_package.targets[t].name, &dep_package.name) {
                Some(m) => m,
                None => {
                    let defined = clone_deps(&package.dependencies);
                    let r = Err(ResolveError::new(
                        Some(package.clone()),
                        ResolveErrorReason::DependencyNotFoundInPackage {
                            dependency_package: dep_package.clone(),
                            defined_dependencies: defined,
                        },
                    ));
                    proof {
                        assert(step_outcome(pkgs, deps, nds[k as int]) == Err::<int, StepFailure>(StepFailure::NotDeclared(j as int))) by {
                            reveal(step_outcome);
                        }
                        lemma_same_package(r->Err_0.spec_package()->Some_0, package, pkgs[i as int]);
                        lemma_same_deps_resolved(r->Err_0.spec_package()->Some_0.dependencies@, package.dependencies@, deps, status_after(pkgs, deps, nds, k as int));
                        lemma_same_deps_resolved(defined@, package.dependencies@, deps, status_after(pkgs, deps, nds, k as int));
                        lemma_exit(pkgs, *node, i as int, k as int, r);
                    }
                    return r;
                },
            };
            let resolved = Dependency::Resolved {
                info: package.dependencies[m].info().clone(),
                resolved_id: dep.id.clone(),
            };
            let ghost before = package.dependencies@;
            package.dependencies.set(m, resolved);
            proof {
                assert(step_outcome(pkgs, deps, nds[k as int]) == Ok::<int, StepFailure>(m as int)) by {
                    reveal(step_outcome);
                }
                assert(package.same_but_deps(pkgs[i as int])) by {
                    reveal(Package::same_but_deps);
                }
                assert(dep_names(package.dependencies@) =~= dep_names(before));
                lemma_resolve_step(before, package.dependencies@, deps, status_after(pkgs, deps, nds, k as int), m as int, dep.id@);
            }
            k = k + 1;
        }
        let r = Ok(package);
        assert(node_resolution(pkgs, *node, r)) by {
            reveal(node_resolution);
            if first_failure(pkgs, deps, nds) is Some {
                let c = choose|c: int|
                    0 <= c < nds.len() && step_outcome(pkgs, deps, nds[c]) is Err && forall|u: int|
                        0 <= u < c ==> (#[trigger] step_outcome(pkgs, deps, nds[u])) is Ok;
                assert(step_outcome(pkgs, deps, nds[c]) is Ok);
            }
        }
        r
    }

    /// Resolves every node of the graph, in order: returns the packages that resolved, and
    /// records the errors of the others. The graph must not have been resolved yet.
    pub fn resolve(&mut self) -> (r: Vec<Package>)
        requires
            old(self).spec_resolve() is Some,
        ensures
            final(self).spec_resolve() is None,
            final(self).spec_packages() == old(self).spec_packages(),
            exists|rs: Seq<Result<Package, ResolveError>>| {
                &&& rs.len() == old(self).spec_resolve()->Some_0.nodes@.len()
                &&& forall|n: int| 0 <= n < rs.len() ==> node_resolution(old(self).spec_packages(), old(self).spec_resolve()->Some_0.nodes@[n], #[trigger] rs[n])
                &&& r@ == oks(rs)
                &&& final(self).spec_errors() == old(self).spec_errors() + errs(rs)
            },
    {
        let resolve = self.resolve.take().unwrap();
        let ghost pkgs = self.packages@;
        let ghost errs0 = self.errors@;
        let mut resolved_packages: Vec<Package> = Vec::new();
        let ghost mut rs: Seq<Result<Package, ResolveError>> = Seq::empty();
        let mut n: usize = 0;
        while n < resolve.nodes.len()
            invariant
                self.packages@ == pkgs,
                self.resolve is None,
                n <= resolve.nodes@.len(),
                rs.len() == n,
                forall|u: int| 0 <= u < n ==> node_resolution(pkgs, resolve.nodes@[u], #[trigger] rs[u]),
                resolved_packages@ == oks(rs),
                self.errors@ == errs0 + errs(rs),
            decreases resolve.nodes@.len() - n,
        {
            let res = self.resolve_node(&resolve.nodes[n]);
            let ghost old_rs = rs;
            proof {
                rs = rs.push(res);
                assert(rs.drop_last() =~= old_rs);
            }
            match res {
                Ok(pkg) => {
                    resolved_packages.push(pkg);
                },
                Err(err) => {
                    self.errors.push(err);
                },
            }
            n = n + 1;
        }
        resolved_packages
    }
}

/// Resolving the declared dependency `m` to `id` updates the resolution status at `m`.
proof fn lemma_resolve_step(before: Seq<Dependency>, after: Seq<Dependency>, deps: Seq<Dependency>, status: Seq<Option<Seq<char>>>, m: int, id: Seq<char>)
    requires
        deps_resolved_as(before, deps, status),
        0 <= m < before.len(),
        after.len() == before.len(),
        forall|i: int| 0 <= i < before.len() && i != m ==> after[i] == before[i],
        after[m].spec_info().same_as(before[m].spec_info()),
        after[m].resolved() == Some(id),
    ensures
        deps_resolved_as(after, deps, status.update(m, Some(id))),
{
    reveal(deps_resolved_as);
}

/// Packages that hold the same values as a third hold the same values, apart from their
/// dependencies.
proof fn lemma_same_package(a: Package, b: Package, c: Package)
    requires
        a.same_as(b),
        b.same_but_deps(c),
    ensures
        a.same_but_deps(c),
{
    reveal(Package::same_but_deps);
}

/// Dependencies that hold the same values as resolved ones are resolved alike.
proof fn lemma_same_deps_resolved(a: Seq<Dependency>, b: Seq<Dependency>, deps: Seq<Dependency>, status: Seq<Option<Seq<char>>>)
    requires
        same_deps(a, b),
        deps_resolved_as(b, deps, status),
    ensures
        deps_resolved_as(a, deps, status),
{
    reveal(deps_resolved_as);
    assert forall|i: int| 0 <= i < deps.len() implies (#[trigger] a[i]).spec_info().same_as(deps[i].spec_info())
        && a[i].resolved() == status[i] by {
        assert(a[i].same_as(b[i]));
    }
}

/// An error met on the node dependency `k`, after the ones before it resolved, is what
/// resolving the node gives.
proof fn lemma_exit(pkgs: Seq<Package>, node: ResolveNode, i: int, k: int, r: Result<Package, ResolveError>)
    requires
        find_package(pkgs, node.id@) == Some(i),
        0 <= k < node.dependencies@.len(),
        forall|u: int| 0 <= u < k ==> (#[trigger] step_outcome(pkgs, pkgs[i].dependencies@, node.dependencies@[u])) is Ok,
        step_outcome(pkgs, pkgs[i].dependencies@, node.dependencies@[k]) is Err,
        ({
            let deps = pkgs[i].dependencies@;
            let nds = node.dependencies@;
            let status = status_after(pkgs, deps, nds, k);
            &&& r matches Err(e)
            &&& e.spec_package() matches Some(p)
            &&& p.same_but_deps(pkgs[i])
            &&& deps_resolved_as(p.dependencies@, deps, status)
            &&& match step_outcome(pkgs, deps, nds[k]) {
                Err(StepFailure::DependencyMissing) => e.spec_reason() matches ResolveErrorReason::DependencyPackageNotFound { dependency_id }
                    && dependency_id@ == nds[k].id@,
                Err(StepFailure::NoLibTarget(j)) => e.spec_reason() matches ResolveErrorReason::DependencyHasNoLibTarget { dependency_package }
                    && dependency_package.same_as(pkgs[j]),
                Err(StepFailure::NotDeclared(j)) => e.spec_reason() matches ResolveErrorReason::DependencyNotFoundInPackage { dependency_package, defined_dependencies }
                    && dependency_package.same_as(pkgs[j]) && deps_resolved_as(defined_dependencies@, deps, status),
                Ok(_) => false,
            }
        }),
    ensures
        node_resolution(pkgs, node, r),
{
    reveal(node_resolution);
    lemma_first_failure(pkgs, pkgs[i].dependencies@, node.dependencies@, k);
}

/// The first failing node dependency, when all before `k` succeed and `k` fails, is `k`.
proof fn lemma_first_failure(pkgs: Seq<Package>, deps: Seq<Dependency>, nds: Seq<ResolveDep>, k: int)
    requires
        0 <= k < nds.len(),
        step_outcome(pkgs, deps, nds[k]) is Err,
        forall|u: int| 0 <= u < k ==> (#[trigger] step_outcome(pkgs, deps, nds[u])) is Ok,
    ensures
        first_failure(pkgs, deps, nds) == Some(k),
{
    let c = choose|c: int|
        0 <= c < nds.len() && step_outcome(pkgs, deps, nds[c]) is Err && forall|u: int|
            0 <= u < c ==> (#[trigger] step_outcome(pkgs, deps, nds[u])) is Ok;
    assert(step_outcome(pkgs, deps, nds[k]) is Err);
    if c < k {
        assert(step_outcome(pkgs, deps, nds[c]) is Ok);
    } else if c > k {
        assert(step_outcome(pkgs, deps, nds[k]) is Ok);
    }
}

/// The text `format!("{:?}", v)` gives for a list of strings with the characters `v`.
pub uninterp spec fn debug_list(v: Seq<Seq<char>>) -> Seq<char>;

/// The characters of each string of `v`.
pub open spec fn chars_of(v: Seq<String>) -> Seq<Seq<char>> {
    v.map_values(|s: String| s@)
}

/// Formats a list of strings with `{:?}`; the result depends on the strings alone.
#[verifier::external_body]
fn debug_strings(v: &Vec<String>) -> (r: String)
    ensures
        r@ == debug_list(chars_of(v@)),
{
    format!("{:?}", v)
}

/// `"true"` or `"false"`.
pub open spec fn bool_text(b: bool) -> Seq<char> {
    if b {
        "true"@
    } else {
        "false"@
    }
}

/// The line that describes one declared dependency in a message.
pub open spec fn dependency_line(d: DependencyInfo) -> Seq<char> {
    "\n  - "@ + d.spec_effective_name() + " ("@ + d.global_name@ + "), optional: "@ + bool_text(
        d.optional,
    ) + ", features: "@ + debug_list(chars_of(d.features@))
}

/// The lines that describe the first `k` declared dependencies of `deps`.
pub open spec fn dependency_lines(deps: Seq<Dependency>, k: int) -> Seq<char>
    decreases k,
{
    if k <= 0 {
        Seq::empty()
    } else {
        dependency_lines(deps, k - 1) + dependency_line(deps[k - 1].spec_info())
    }
}

/// The message that describes a reason.
pub open spec fn reason_text(r: ResolveErrorReason) -> Seq<char> {
    match r {
        ResolveErrorReason::NodePackageNotFound { package_id } => "Package ID "@ + package_id@
            + " not found in packages list"@,
        ResolveErrorReason::DependencyPackageNotFound { dependency_id } => "Dependency package ID "@
            + dependency_id@ + " not found in packages list"@,
        ResolveErrorReason::DependencyHasNoLibTarget { dependency_package } => "Dependency "@
            + dependency_package.name@ + " (ID: "@ + dependency_package.id@
            + ") has no lib or proc-macro target"@,
        ResolveErrorReason::DependencyNotFoundInPackage { dependency_package, defined_dependencies } =>
            "Dependency "@ + dependency_package.name@ + " (ID: "@ + dependency_package.id@
            + ") not found in package's Cargo.toml dependencies"@ + dependency_lines(
            defined_dependencies@,
            defined_dependencies@.len() as int,
        ),
    }
}

/// The message that describes an error.
pub open spec fn error_text(e: ResolveError) -> Seq<char> {
    "Error resolving package "@ + match e.spec_package() {
        Some(p) => p.name@ + " (id: "@ + p.id@ + ")"@,
        None => "<unknown>"@,
    } + "\n"@ + reason_text(e.spec_reason()) + "\n"@
}

impl ResolveErrorReason {
    /// The message that describes the reason.
    pub fn message(&self) -> (r: String)
        ensures
            r@ == reason_text(*self),
    {
        match self {
            ResolveErrorReason::NodePackageNotFound { package_id } => {
                let mut s = String::from_str("Package ID ");
                s.append(package_id.as_str());
                s.append(" not found in packages list");
                s
            },
            ResolveErrorReason::DependencyPackageNotFound { dependency_id } => {
                let mut s = String::from_str("Dependency package ID ");
                s.append(dependency_id.as_str());
                s.append(" not found in packages list");
                s
            },
            ResolveErrorReason::DependencyHasNoLibTarget { dependency_package } => {
                let mut s = String::from_str("Dependency ");
                s.append(dependency_package.name.as_str());
                s.append(" (ID: ");
                s.append(dependency_package.id.as_str());
                s.append(") has no lib or proc-macro target");
                s
            },
            ResolveErrorReason::DependencyNotFoundInPackage { dependency_package, defined_dependencies } => {
                let mut s = String::from_str("Dependency ");
                s.append(dependency_package.name.as_str());
                s.append(" (ID: ");
                s.append(dependency_package.id.as_str());
                s.append(") not found in package's Cargo.toml dependencies");
                let ghost head = s@;
                let mut k: usize = 0;
                while k < defined_dependencies.len()
                    invariant
                        k <= defined_dependencies@.len(),
                        s@ == head + dependency_lines(defined_dependencies@, k as int),
                    decreases defined_dependencies@.len() - k,
                {
                    let info = defined_dependencies[k].info();
                    s.append("\n  - ");
                    s.append(info.effective_name().as_str());
                    s.append(" (");
                    s.append(info.global_name.as_str());
                    s.append("), optional: ");
                    s.append(if info.optional {
                        "true"
                    } else {
                        "false"
                    });
                    s.append(", features: ");
                    let f = debug_strings(&info.features);
                    s.append(f.as_str());
                    proof {
                        assert(s@ =~= head + dependency_lines(defined_dependencies@, k + 1));
                    }
                    k = k + 1;
                }
                s
            },
        }
    }
}

impl ResolveError {
    /// The message that describes the error.
    pub fn message(&self) -> (r: String)
        ensures
            r@ == error_text(*self),
    {
        let mut s = String::from_str("Error resolving package ");
        match &self.package {
            Some(p) => {
                s.append(p.name.as_str());
                s.append(" (id: ");
                s.append(p.id.as_str());
                s.append(")");
            },
            None => {
                s.append("<unknown>");
            },
        }
        s.append("\n");
        let reason = self.reason.message();
        s.append(reason.as_str());
        s.append("\n");
        s
    }
}

} // verus!
