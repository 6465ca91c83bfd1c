//! Implicit crate roots: the names under which each target sees its package's library and the
//! libraries of its dependencies.

use vstd::prelude::*;

use crate::def_map::{extern_root_items, ExternRoot};
use crate::ids::{ModuleId, ModuleRef, PackageSlot, TargetRef};
use crate::text::TargetId;

verus! {

/// One target of an analyzed package.
#[derive(Debug)]
pub struct TargetInfo {
    pub id: TargetId,
    pub name: String,
    pub is_lib: bool,
    pub is_custom_build: bool,
}

/// One dependency of a workspace package: the name it is imported under, the analyzed package
/// it refers to, and, for each target of the depending package by position, whether the
/// dependency applies to that target (a missing entry counts as not applying).
#[derive(Debug)]
pub struct DependencyInfo {
    pub name: String,
    pub package: Option<PackageSlot>,
    pub applies_to_target: Vec<bool>,
}

/// One analyzed package: its targets, and its dependencies when workspace metadata has the
/// package.
#[derive(Debug)]
pub struct PackageTargets {
    pub targets: Vec<TargetInfo>,
    pub dependencies: Option<Vec<DependencyInfo>>,
}

/// Why implicit roots could not be built.
#[derive(Debug, Clone, Copy, PartialEq, Eq, Structural)]
pub enum ImplicitRootsError {
    /// Workspace metadata has no entry for the package in this slot.
    MissingWorkspacePackage(PackageSlot),
}

/// Position of the first library target among the first `n` targets.
pub open spec fn first_lib(targets: Seq<TargetInfo>, n: int) -> Option<int>
    decreases n,
{
    if n <= 0 || n > targets.len() {
        None
    } else {
        match first_lib(targets, n - 1) {
            Some(i) => Some(i),
            None => if targets[n - 1].is_lib {
                Some(n - 1)
            } else {
                None
            },
        }
    }
}

/// The library target of package `p`, if it has one.
pub open spec fn lib_target(packages: Seq<PackageTargets>, p: int) -> Option<TargetRef> {
    if 0 <= p < packages.len() {
        match first_lib(packages[p].targets@, packages[p].targets@.len() as int) {
            Some(i) => Some(TargetRef { package: PackageSlot(p as usize), target: packages[p].targets@[i].id }),
            None => None,
        }
    } else {
        None
    }
}

/// The crate root of a library target.
pub open spec fn root_of(target: TargetRef) -> ModuleRef {
    ModuleRef { target, module: ModuleId(0) }
}

/// The root that target `t` of package `p` sees for its own package's library: every target
/// but the library itself and build scripts sees it under the library's name.
pub open spec fn sibling_lib_root(packages: Seq<PackageTargets>, p: int, t: int) -> Seq<(Seq<char>, ModuleRef)> {
    let targets = packages[p].targets@;
    match first_lib(targets, targets.len() as int) {
        Some(i) => if targets[i].id != targets[t].id && !targets[t].is_custom_build {
            seq![(targets[i].name@, root_of(TargetRef { package: PackageSlot(p as usize), target: targets[i].id }))]
        } else {
            Seq::empty()
        },
        None => Seq::empty(),
    }
}

/// The root that dependency `d` gives target `t`: the dependency's library under its name, when
/// the name is not empty, the dependency applies to the target, and the package it refers to
/// is analyzed and has a library.
pub open spec fn dependency_root(packages: Seq<PackageTargets>, d: DependencyInfo, t: int) -> Seq<(Seq<char>, ModuleRef)> {
    let applies = t < d.applies_to_target@.len() && d.applies_to_target@[t];
    match d.package {
        Some(q) => if d.name@.len() > 0 && applies {
            match lib_target(packages, q.0 as int) {
                Some(lib) => seq![(d.name@, root_of(lib))],
                None => Seq::empty(),
            }
        } else {
            Seq::empty()
        },
        None => Seq::empty(),
    }
}

/// The roots that the first `n` dependencies give target `t`, in order.
pub open spec fn dependency_roots(packages: Seq<PackageTargets>, deps: Seq<DependencyInfo>, t: int, n: int) -> Seq<(Seq<char>, ModuleRef)>
    decreases n,
{
    if n <= 0 || n > deps.len() {
        Seq::empty()
    } else {
        dependency_roots(packages, deps, t, n - 1) + dependency_root(packages, deps[n - 1], t)
    }
}

/// The implicit roots of target `t` of package `p`, in insertion order: a later root of the
/// same name replaces an earlier one.
pub open spec fn target_roots(packages: Seq<PackageTargets>, p: int, t: int) -> Seq<(Seq<char>, ModuleRef)> {
    let deps = packages[p].dependencies->0@;
    sibling_lib_root(packages, p, t) + dependency_roots(packages, deps, t, deps.len() as int)
}

/// The first package without workspace metadata among the first `n`.
pub open spec fn first_missing(packages: Seq<PackageTargets>, n: int) -> Option<int>
    decreases n,
{
    if n <= 0 || n > packages.len() {
        None
    } else {
        match first_missing(packages, n - 1) {
            Some(i) => Some(i),
            None => if packages[n - 1].dependencies is None {
                Some(n - 1)
            } else {
                None
            },
        }
    }
}

proof fn lemma_first_lib_range(targets: Seq<TargetInfo>, n: int)
    ensures
        match first_lib(targets, n) {
            Some(i) => 0 <= i < n && n <= targets.len() && targets[i].is_lib,
            None => true,
        },
    decreases n,
{
    if 0 < n <= targets.len() {
        lemma_first_lib_range(targets, n - 1);
    }
}

/// Finds the library target of a package, if any.
fn find_lib_target(targets: &Vec<TargetInfo>) -> (r: Option<usize>)
    ensures
        match first_lib(targets@, targets@.len() as int) {
            Some(i) => r matches Some(j) && j as int == i,
            None => r is None,
        },
        match r {
            Some(i) => i < targets@.len() && targets@[i as int].is_lib,
            None => true,
        },
{
    proof {
        lemma_first_lib_range(targets@, targets@.len() as int);
    }
    let mut i: usize = 0;
    while i < targets.len()
        invariant
            i <= targets@.len(),
            first_lib(targets@, i as int) is None,
        decreases targets.len() - i,
    {
        if targets[i].is_lib {
            proof {
                lemma_first_lib_stays(targets@, i + 1, targets@.len() as int);
            }
            return Some(i);
        }
        i = i + 1;
    }
    None
}

proof fn lemma_first_lib_stays(targets: Seq<TargetInfo>, n: int, m: int)
    requires
        0 < n <= m <= targets.len(),
        first_lib(targets, n) is Some,
    ensures
        first_lib(targets, m) == first_lib(targets, n),
    decreases m - n,
{
    if m > n {
        lemma_first_lib_stays(targets, n, m - 1);
    }
}

/// Builds the implicit roots of every target of every package: each target sees its package's
/// library under the library's name (unless it is that library or a build script) and the
/// library of each applicable dependency under the dependency's name. Fails on the first
/// package that workspace metadata does not know.
pub fn build_implicit_roots(packages: &Vec<PackageTargets>) -> (r: Result<Vec<Vec<Vec<ExternRoot>>>, ImplicitRootsError>)
    ensures
        match first_missing(packages@, packages@.len() as int) {
            Some(p) => r == Err::<Vec<Vec<Vec<ExternRoot>>>, ImplicitRootsError>(
                ImplicitRootsError::MissingWorkspacePackage(PackageSlot(p as usize)),
            ),
            None => r matches Ok(roots) && roots@.len() == packages@.len() && forall|p: int|
                0 <= p < packages@.len() ==> (#[trigger] roots@[p])@.len() == packages@[p].targets@.len() && forall|t: int|
                    0 <= t < packages@[p].targets@.len() ==> extern_root_items((#[trigger] roots@[p]@[t])@) == target_roots(
                        packages@,
                        p,
                        t,
                    ),
        },
{
    let mut libs: Vec<Option<TargetRef>> = Vec::new();
    let mut q: usize = 0;
    while q < packages.len()
        invariant
            q <= packages@.len(),
            libs@.len() == q,
            forall|k: int| 0 <= k < q ==> #[trigger] libs@[k] == lib_target(packages@, k),
        decreases packages.len() - q,
    {
        let lib = match find_lib_target(&packages[q].targets) {
            Some(i) => Some(TargetRef { package: PackageSlot(q), target: packages[q].targets[i].id }),
            None => None,
        };
        let ghost before = libs@;
        libs.push(lib);
        proof {
            assert forall|k: int| 0 <= k < q + 1 implies #[trigger] libs@[k] == lib_target(packages@, k) by {
                if k < q {
                    assert(libs@[k] == before[k]);
                }
            }
        }
        q = q + 1;
    }
    let mut roots: Vec<Vec<Vec<ExternRoot>>> = Vec::new();
    let mut p: usize = 0;
    while p < packages.len()
        invariant
            p <= packages@.len(),
            libs@.len() == packages@.len(),
            forall|k: int| 0 <= k < packages@.len() ==> #[trigger] libs@[k] == lib_target(packages@, k),
            first_missing(packages@, p as int) is None,
            roots@.len() == p,
            forall|k: int|
                0 <= k < p ==> (#[trigger] roots@[k])@.len() == packages@[k].targets@.len() && forall|t: int|
                    0 <= t < packages@[k].targets@.len() ==> extern_root_items((#[trigger] roots@[k]@[t])@) == target_roots(
                        packages@,
                        k,
                        t,
                    ),
        decreases packages.len() - p,
    {
        let package = &packages[p];
        let dependencies = match &package.dependencies {
            Some(deps) => deps,
            None => {
                proof {
                    assert(first_missing(packages@, p + 1) == Some(p as int));
                    lemma_first_missing_stays(packages@, p + 1, packages@.len() as int);
                }
                return Err(ImplicitRootsError::MissingWorkspacePackage(PackageSlot(p)));
            },
        };
        let lib_index = find_lib_target(&package.targets);
        let mut package_roots: Vec<Vec<ExternRoot>> = Vec::new();
        let mut t: usize = 0;
        while t < package.targets.len()
            invariant
                p < packages@.len(),
                *package == packages@[p as int],
                package.dependencies == Some(*dependencies),
                libs@.len() == packages@.len(),
                forall|k: int| 0 <= k < packages@.len() ==> #[trigger] libs@[k] == lib_target(packages@, k),
                match first_lib(package.targets@, package.targets@.len() as int) {
                    Some(i) => lib_index matches Some(j) && j as int == i,
                    None => lib_index is None,
                },
                match lib_index {
                    Some(i) => i < package.targets@.len(),
                    None => true,
                },
                t <= package.targets@.len(),
                package_roots@.len() == t,
                forall|u: int|
                    0 <= u < t ==> extern_root_items((#[trigger] package_roots@[u])@) == target_roots(packages@, p as int, u),
            decreases package.targets.len() - t,
        {
            let target = &package.targets[t];
            let mut target_roots_out: Vec<ExternRoot> = Vec::new();
            match lib_index {
                Some(i) => {
                    if package.targets[i].id != target.id && !target.is_custom_build {
                        target_roots_out.push(
                            ExternRoot {
                                name: package.targets[i].name.clone(),
                                module: ModuleRef { target: TargetRef { package: PackageSlot(p), target: package.targets[i].id }, module: ModuleId(0) },
                            },
                        );
                    }
                },
                None => {},
            }
            proof {
                assert(extern_root_items(target_roots_out@) =~= sibling_lib_root(packages@, p as int, t as int));
            }
            let ghost lib_part = extern_root_items(target_roots_out@);
            let mut d: usize = 0;
            while d < dependencies.len()
                invariant
                    p < packages@.len(),
                    t < package.targets@.len(),
                    *package == packages@[p as int],
                    package.dependencies == Some(*dependencies),
                    libs@.len() == packages@.len(),
                    forall|k: int| 0 <= k < packages@.len() ==> #[trigger] libs@[k] == lib_target(packages@, k),
                    d <= dependencies@.len(),
                    lib_part == sibling_lib_root(packages@, p as int, t as int),
                    extern_root_items(target_roots_out@) == lib_part + dependency_roots(packages@, dependencies@, t as int, d as int),
                decreases dependencies.len() - d,
            {
                let dependency = &dependencies[d];
                let ghost before = extern_root_items(target_roots_out@);
                let applies = t < dependency.applies_to_target.len() && dependency.applies_to_target[t];
                let name_nonempty = dependency.name.as_str().unicode_len() > 0;
                if name_nonempty && applies {
                    if let Some(q) = dependency.package {
                        if q.0 < libs.len() {
                            if let Some(lib) = libs[q.0] {
                                target_roots_out.push(
                                    ExternRoot { name: dependency.name.clone(), module: ModuleRef { target: lib, module: ModuleId(0) } },
                                );
                            }
                        }
                    }
                }
                proof {
                    assert(extern_root_items(target_roots_out@) =~= before + dependency_root(packages@, dependencies@[d as int], t as int));
                    assert(lib_part + dependency_roots(packages@, dependencies@, t as int, d + 1) =~= lib_part + dependency_roots(
                        packages@,
                        dependencies@,
                        t as int,
                        d as int,
                    ) + dependency_root(packages@, dependencies@[d as int], t as int));
                }
                d = d + 1;
            }
            let ghost before_roots = package_roots@;
            package_roots.push(target_roots_out);
            proof {
                assert forall|u: int| 0 <= u < t + 1 implies extern_root_items((#[trigger] package_roots@[u])@) == target_roots(
                    packages@,
                    p as int,
                    u,
                ) by {
                    if u < t {
                        assert(package_roots@[u] == before_roots[u]);
                    }
                }
            }
            t = t + 1;
        }
        let ghost before_all = roots@;
        roots.push(package_roots);
        proof {
            assert(first_missing(packages@, p + 1) is None);
            assert forall|k: int|
                0 <= k < p + 1 implies (#[trigger] roots@[k])@.len() == packages@[k].targets@.len() && forall|u: int|
                    0 <= u < packages@[k].targets@.len() ==> extern_root_items((#[trigger] roots@[k]@[u])@) == target_roots(
                        packages@,
                        k,
                        u,
                    ) by {
                if k < p {
                    assert(roots@[k] == before_all[k]);
                }
            }
        }
        p = p + 1;
    }
    Ok(roots)
}

proof fn lemma_first_missing_stays(packages: Seq<PackageTargets>, n: int, m: int)
    requires
        0 < n <= m <= packages.len(),
        first_missing(packages, n) is Some,
    ensures
        first_missing(packages, m) == first_missing(packages, n),
    decreases m - n,
{
    if m > n {
        lemma_first_missing_stays(packages, n, m - 1);
    }
}

} // verus!
