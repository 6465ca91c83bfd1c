//! Resident def-map database: frozen def maps of all packages, some of which may be offloaded.

use std::sync::Arc;

use vstd::prelude::*;

use crate::def_map::{DefMap, ImportData, LocalDefData, LocalImplData, ModuleData, TargetModel};
use crate::ids::{
    ImportId, ImportRef, LocalDefId, LocalDefRef, LocalImplId, LocalImplRef, ModuleId, ModuleRef,
    PackageSlot, TargetRef,
};
use crate::path::Path;
use crate::resolution::{
    EnvModel, PathResolutionEnv, ResolvePathResult, resolve_path, resolve_path_with_env,
};
use crate::scope::{ModuleScope, ScopeView};
use crate::text::TargetId;

verus! {

/// Def maps for all targets inside one parsed package.
#[derive(Debug)]
pub struct Package {
    pub name: String,
    pub target_names: Vec<String>,
    pub targets: Vec<DefMap>,
}

impl Package {
    /// Every target's module tree has parents before children.
    pub open spec fn wf(&self) -> bool {
        forall|t: int| 0 <= t < self.targets@.len() ==> #[trigger] self.targets@[t].model().parents_precede()
    }

    /// Returns the Cargo package name this def-map package belongs to.
    pub fn package_name(&self) -> (r: &String)
        ensures
            r == &self.name,
    {
        &self.name
    }

    /// Returns the crate name for one target, if that target exists.
    pub fn target_name(&self, target_id: TargetId) -> (r: Option<&String>)
        ensures
            match r {
                Some(name) => target_id.0 < self.target_names@.len() && name == &self.target_names@[target_id.0 as int],
                None => target_id.0 >= self.target_names@.len(),
            },
    {
        if target_id.0 < self.target_names.len() {
            Some(&self.target_names[target_id.0])
        } else {
            None
        }
    }

    /// Returns all target def maps in target-id order.
    pub fn targets(&self) -> (r: &Vec<DefMap>)
        ensures
            r == &self.targets,
    {
        &self.targets
    }

    /// Returns one target def map by target id.
    pub fn target(&self, target_id: TargetId) -> (r: Option<&DefMap>)
        ensures
            match r {
                Some(d) => target_id.0 < self.targets@.len() && d == &self.targets@[target_id.0 as int],
                None => target_id.0 >= self.targets@.len(),
            },
    {
        if target_id.0 < self.targets.len() {
            Some(&self.targets[target_id.0])
        } else {
            None
        }
    }
}

/// One package slot: resident in memory, or offloaded to a cache artifact. A resident package
/// is shared between the snapshots that hold it.
#[derive(Debug)]
pub enum PackageEntry {
    Resident(Arc<Package>),
    Offloaded,
}

/// `entry` is resident and holds `package`.
pub open spec fn resident_is(entry: PackageEntry, package: Package) -> bool {
    entry matches PackageEntry::Resident(shared) && *shared == package
}

/// Shares a resident package: `Arc::clone` gives another pointer to the same package.
#[verifier::external_body]
fn share_package(package: &Arc<Package>) -> (r: Arc<Package>)
    ensures
        r == *package,
{
    Arc::clone(package)
}

impl PackageEntry {
    /// Returns the package if it is resident.
    pub fn as_resident(&self) -> (r: Option<&Package>)
        ensures
            match r {
                Some(p) => resident_is(*self, *p),
                None => *self is Offloaded,
            },
    {
        match self {
            PackageEntry::Resident(package) => Some(&**package),
            PackageEntry::Offloaded => None,
        }
    }
}

pub open spec fn entry_targets(entry: PackageEntry) -> Seq<TargetModel> {
    match entry {
        PackageEntry::Resident(p) => p.targets@.map_values(|d: DefMap| d.model()),
        PackageEntry::Offloaded => Seq::empty(),
    }
}

pub open spec fn entry_scopes(entry: PackageEntry) -> Seq<Seq<ScopeView>> {
    match entry {
        PackageEntry::Resident(p) => p.targets@.map_values(|d: DefMap| d.scopes()),
        PackageEntry::Offloaded => Seq::empty(),
    }
}

pub open spec fn entry_wf(entry: PackageEntry) -> bool {
    match entry {
        PackageEntry::Resident(p) => p.wf(),
        PackageEntry::Offloaded => true,
    }
}

/// Frozen def maps for all parsed packages and targets.
#[derive(Debug)]
pub struct DefMapDb {
    packages: Vec<PackageEntry>,
}

/// Coarse totals for reporting that the DefMap phase produced useful data.
#[derive(Debug, Clone, Copy, PartialEq, Eq, Default)]
pub struct DefMapStats {
    pub target_count: usize,
    pub module_count: usize,
    pub local_def_count: usize,
    pub local_impl_count: usize,
    pub import_count: usize,
    pub unresolved_import_count: usize,
}

impl DefMapDb {
    #[verifier::type_invariant]
    pub closed spec fn inv(&self) -> bool {
        forall|p: int| 0 <= p < self.packages@.len() ==> #[trigger] entry_wf(self.packages@[p])
    }

    /// The package entries, resident or offloaded, in slot order.
    pub closed spec fn entries(&self) -> Seq<PackageEntry> {
        self.packages@
    }

    /// Model of the resident def maps as path resolution sees them; offloaded packages hold no
    /// targets.
    pub open spec fn model(&self) -> EnvModel {
        EnvModel {
            targets: self.entries().map_values(|e: PackageEntry| entry_targets(e)),
            scopes: self.entries().map_values(|e: PackageEntry| entry_scopes(e)),
        }
    }

    /// Builds a database from resident packages.
    pub fn from_packages(packages: Vec<Package>) -> (r: Self)
        requires
            forall|p: int| 0 <= p < packages@.len() ==> #[trigger] packages@[p].wf(),
        ensures
            r.entries().len() == packages@.len(),
            forall|p: int|
                0 <= p < packages@.len() ==> #[trigger] resident_is(r.entries()[p], packages@[p]),
    {
        let mut entries: Vec<PackageEntry> = Vec::new();
        let mut packages = packages;
        let ghost given = packages@;
        let mut rest: Vec<Package> = Vec::new();
        // Move the packages out in reverse, then push them back in order.
        while packages.len() > 0
            invariant
                packages@.len() + rest@.len() == given.len(),
                forall|p: int| 0 <= p < packages@.len() ==> packages@[p] == given[p],
                forall|p: int|
                    0 <= p < rest@.len() ==> rest@[p] == given[given.len() - 1 - p],
            decreases packages.len(),
        {
            let package = packages.pop().unwrap();
            rest.push(package);
        }
        while rest.len() > 0
            invariant
                entries@.len() + rest@.len() == given.len(),
                forall|p: int| 0 <= p < rest@.len() ==> rest@[p] == given[given.len() - 1 - p],
                forall|p: int|
                    0 <= p < entries@.len() ==> #[trigger] resident_is(entries@[p], given[p]),
                forall|p: int| 0 <= p < given.len() ==> #[trigger] given[p].wf(),
            decreases rest.len(),
        {
            let package = rest.pop().unwrap();
            entries.push(PackageEntry::Resident(Arc::new(package)));
        }
        assert forall|p: int| 0 <= p < entries@.len() implies #[trigger] entry_wf(entries@[p]) by {
            assert(resident_is(entries@[p], given[p]));
            assert(given[p].wf());
        }
        DefMapDb { packages: entries }
    }

    /// Number of package slots tracked by this snapshot.
    pub fn package_count(&self) -> (r: usize)
        ensures
            r == self.entries().len(),
    {
        self.packages.len()
    }

    /// Returns one resident package def-map set by package slot.
    pub fn resident_package(&self, package_slot: PackageSlot) -> (r: Option<&Package>)
        ensures
            match r {
                Some(p) => package_slot.0 < self.entries().len() && resident_is(self.entries()[package_slot.0 as int], *p)
                    && p.wf(),
                None => package_slot.0 >= self.entries().len() || self.entries()[package_slot.0 as int] is Offloaded,
            },
    {
        proof {
            use_type_invariant(self);
        }
        if package_slot.0 < self.packages.len() {
            proof {
                assert(entry_wf(self.packages@[package_slot.0 as int]));
            }
            self.packages[package_slot.0].as_resident()
        } else {
            None
        }
    }

    /// Returns one resident package by package slot.
    pub fn package(&self, package_slot: PackageSlot) -> (r: Option<&Package>)
        ensures
            match r {
                Some(p) => package_slot.0 < self.entries().len() && resident_is(self.entries()[package_slot.0 as int], *p),
                None => package_slot.0 >= self.entries().len() || self.entries()[package_slot.0 as int] is Offloaded,
            },
    {
        self.resident_package(package_slot)
    }

    /// Returns one resident target def map by project-wide target reference.
    pub fn resident_def_map(&self, target: TargetRef) -> (r: Option<&DefMap>)
        ensures
            match r {
                Some(d) => {
                    &&& self.model().target(target) == Some(d.model())
                    &&& target.package.0 < self.entries().len()
                    &&& self.entries()[target.package.0 as int] matches PackageEntry::Resident(p)
                    &&& target.target.0 < p.targets@.len()
                    &&& *d == p.targets@[target.target.0 as int]
                },
                None => self.model().target(target) is None,
            },
    {
        match self.resident_package(target.package) {
            Some(package) => package.target(target.target),
            None => None,
        }
    }

    /// The resident def map of one target, as [`DefMapDb::resident_target`] states.
    pub fn resident_target_map(&self, target: TargetRef) -> (r: Option<&DefMap>)
        ensures
            match r {
                Some(d) => self.resident_target(target) == Some(*d),
                None => self.resident_target(target) is None,
            },
    {
        match self.resident_package(target.package) {
            Some(package) => package.target(target.target),
            None => None,
        }
    }

    /// Returns one target def map by project-wide target reference.
    pub fn def_map(&self, target: TargetRef) -> (r: Option<&DefMap>)
        ensures
            match r {
                Some(d) => self.model().target(target) == Some(d.model()),
                None => self.model().target(target) is None,
            },
    {
        self.resident_def_map(target)
    }

    /// Replaces one package slot with a resident package.
    pub fn replace_package(&mut self, package_slot: PackageSlot, package: Package) -> (r: Option<()>)
        requires
            package.wf(),
        ensures
            r is Some <==> package_slot.0 < old(self).entries().len(),
            r is Some ==> {
                &&& final(self).entries().len() == old(self).entries().len()
                &&& resident_is(final(self).entries()[package_slot.0 as int], package)
                &&& forall|p: int|
                    0 <= p < old(self).entries().len() && p != package_slot.0 ==> #[trigger] final(self).entries()[p]
                        == old(self).entries()[p]
            },
            r is None ==> final(self).entries() == old(self).entries(),
    {
        proof {
            use_type_invariant(&*self);
        }
        if package_slot.0 < self.packages.len() {
            let mut packages: Vec<PackageEntry> = Vec::new();
            std::mem::swap(&mut packages, &mut self.packages);
            packages.set(package_slot.0, PackageEntry::Resident(Arc::new(package)));
            assert forall|p: int| 0 <= p < packages@.len() implies #[trigger] entry_wf(packages@[p]) by {
                if p != package_slot.0 {
                    assert(packages@[p] == old(self).packages@[p]);
                }
            }
            std::mem::swap(&mut packages, &mut self.packages);
            Some(())
        } else {
            None
        }
    }

    /// Offloads one package slot; its targets are no longer resident.
    pub fn offload_package(&mut self, package_slot: PackageSlot) -> (r: Option<()>)
        ensures
            r is Some <==> package_slot.0 < old(self).entries().len(),
            r is Some ==> final(self).entries() == old(self).entries().update(
                package_slot.0 as int,
                PackageEntry::Offloaded,
            ),
            r is None ==> final(self).entries() == old(self).entries(),
    {
        proof {
            use_type_invariant(&*self);
        }
        if package_slot.0 < self.packages.len() {
            let mut packages: Vec<PackageEntry> = Vec::new();
            std::mem::swap(&mut packages, &mut self.packages);
            packages.set(package_slot.0, PackageEntry::Offloaded);
            assert forall|p: int| 0 <= p < packages@.len() implies #[trigger] entry_wf(packages@[p]) by {
                if p != package_slot.0 {
                    assert(packages@[p] == old(self).packages@[p]);
                }
            }
            std::mem::swap(&mut packages, &mut self.packages);
            Some(())
        } else {
            None
        }
    }

    /// Every resident target def map together with its project-wide target reference, in
    /// package-slot then target-id order.
    pub fn resident_target_maps(&self) -> (r: Vec<(TargetRef, &DefMap)>)
        ensures
            r@.map_values(|x: (TargetRef, &DefMap)| x.0) == resident_targets(self.entries()),
            forall|i: int|
                0 <= i < r@.len() ==> self.model().target(#[trigger] r@[i].0) == Some(r@[i].1.model()),
    {
        let mut maps: Vec<(TargetRef, &DefMap)> = Vec::new();
        let mut p: usize = 0;
        while p < self.packages.len()
            invariant
                p <= self.packages.len(),
                maps@.map_values(|x: (TargetRef, &DefMap)| x.0) == resident_targets(
                    self.entries().subrange(0, p as int),
                ),
                forall|i: int|
                    0 <= i < maps@.len() ==> self.model().target(#[trigger] maps@[i].0) == Some(maps@[i].1.model()),
            decreases self.packages.len() - p,
        {
            let ghost before = maps@;
            proof {
                assert(self.entries().subrange(0, p + 1).drop_last() =~= self.entries().subrange(0, p as int));
            }
            if let Some(package) = self.packages[p].as_resident() {
                let mut t: usize = 0;
                while t < package.targets.len()
                    invariant
                        p < self.packages.len(),
                        resident_is(self.packages@[p as int], *package),
                        t <= package.targets.len(),
                        maps@.map_values(|x: (TargetRef, &DefMap)| x.0) == before.map_values(
                            |x: (TargetRef, &DefMap)| x.0,
                        ) + package_target_refs(p as nat, t as nat),
                        forall|i: int|
                            0 <= i < maps@.len() ==> self.model().target(#[trigger] maps@[i].0) == Some(maps@[i].1.model()),
                    decreases package.targets.len() - t,
                {
                    let target_ref = TargetRef { package: PackageSlot(p), target: TargetId(t) };
                    let ghost old_maps = maps@;
                    maps.push((target_ref, &package.targets[t]));
                    proof {
                        assert(maps@.map_values(|x: (TargetRef, &DefMap)| x.0) =~= old_maps.map_values(
                            |x: (TargetRef, &DefMap)| x.0,
                        ).push(target_ref));
                        assert(package_target_refs(p as nat, (t + 1) as nat) =~= package_target_refs(
                            p as nat,
                            t as nat,
                        ).push(target_ref));
                        assert(before.map_values(|x: (TargetRef, &DefMap)| x.0) + package_target_refs(
                            p as nat,
                            (t + 1) as nat,
                        ) =~= (before.map_values(|x: (TargetRef, &DefMap)| x.0) + package_target_refs(
                            p as nat,
                            t as nat,
                        )).push(target_ref));
                    }
                    t = t + 1;
                }
            } else {
                proof {
                    assert(package_target_refs(p as nat, 0) =~= Seq::<TargetRef>::empty());
                    assert(before.map_values(|x: (TargetRef, &DefMap)| x.0) + package_target_refs(p as nat, 0)
                        =~= before.map_values(|x: (TargetRef, &DefMap)| x.0));
                }
            }
            p = p + 1;
        }
        assert(self.entries().subrange(0, self.packages.len() as int) =~= self.entries());
        maps
    }
}

/// References to the first `count` targets of package slot `package`.
pub open spec fn package_target_refs(package: nat, count: nat) -> Seq<TargetRef> {
    Seq::new(
        count,
        |t: int| TargetRef { package: PackageSlot(package as usize), target: TargetId(t as usize) },
    )
}

/// References to every resident target, in package-slot then target-id order.
pub open spec fn resident_targets(entries: Seq<PackageEntry>) -> Seq<TargetRef>
    decreases entries.len(),
{
    if entries.len() == 0 {
        Seq::empty()
    } else {
        let count = match entries.last() {
            PackageEntry::Resident(p) => p.targets@.len(),
            PackageEntry::Offloaded => 0,
        };
        resident_targets(entries.drop_last()) + package_target_refs((entries.len() - 1) as nat, count)
    }
}

/// Whether target `a` comes before target `b` in package-slot, then target-id order.
pub open spec fn target_precedes(a: TargetRef, b: TargetRef) -> bool {
    a.package.0 < b.package.0 || (a.package.0 == b.package.0 && a.target.0 < b.target.0)
}

/// Resolution environment used by frozen queries: reads resident def maps and their scopes.
pub struct FrozenResolutionEnv<'a> {
    pub db: &'a DefMapDb,
}

impl<'a> PathResolutionEnv for FrozenResolutionEnv<'a> {
    open spec fn model(&self) -> EnvModel {
        self.db.model()
    }

    fn extern_root(&self, target: TargetRef, name: &String) -> (r: Option<ModuleRef>) {
        match self.db.def_map(target) {
            Some(def_map) => def_map.extern_root(name),
            None => None,
        }
    }

    fn prelude_module(&self, target: TargetRef) -> (r: Option<ModuleRef>) {
        match self.db.def_map(target) {
            Some(def_map) => def_map.prelude(),
            None => None,
        }
    }

    fn root_module(&self, target: TargetRef) -> (r: Option<ModuleRef>) {
        match self.db.def_map(target) {
            Some(def_map) => match def_map.root_module() {
                Some(root) => Some(ModuleRef { target, module: root }),
                None => None,
            },
            None => None,
        }
    }

    fn module_data(&self, module: ModuleRef) -> (r: Option<&ModuleData>) {
        match self.db.def_map(module.target) {
            Some(def_map) => def_map.module(module.module),
            None => None,
        }
    }

    fn module_scope(&self, module: ModuleRef) -> (r: Option<&ModuleScope>) {
        match self.db.resident_def_map(module.target) {
            Some(def_map) => match def_map.module(module.module) {
                Some(data) => Some(&data.scope),
                None => None,
            },
            None => None,
        }
    }
}

/// Resolves a value-position path from a module against the already-frozen def maps.
pub fn resolve_path_in_db(db: &DefMapDb, importing_module: ModuleRef, path: &Path) -> (r: ResolvePathResult)
    ensures
        r@ == resolve_path(db.model(), importing_module, path@.absolute, path@.segments, false),
{
    proof {
        use_type_invariant(db);
        db.lemma_model_wf();
    }
    let env = FrozenResolutionEnv { db };
    resolve_path_with_env(&env, importing_module, path.absolute, &path.segments, false)
}

impl DefMapDb {
    pub(crate) proof fn lemma_model_wf(&self)
        requires
            self.inv(),
        ensures
            self.model().wf(),
    {
        let model = self.model();
        assert forall|p: int, t: int|
            0 <= p < model.targets.len() && 0 <= t < model.targets[p].len() implies #[trigger] model.targets[p][t].parents_precede() by {
            assert(entry_wf(self.packages@[p]));
        }
    }

    /// Resolves a value-position path from a module against the frozen def-map graph.
    pub fn resolve_path(&self, from: ModuleRef, path: &Path) -> (r: ResolvePathResult)
        ensures
            r@ == resolve_path(self.model(), from, path@.absolute, path@.segments, false),
    {
        resolve_path_in_db(self, from, path)
    }

    /// Resolves a path whose terminal segment is used in the type namespace.
    pub fn resolve_path_in_type_namespace(&self, from: ModuleRef, path: &Path) -> (r: ResolvePathResult)
        ensures
            r@ == resolve_path(self.model(), from, path@.absolute, path@.segments, true),
    {
        proof {
            use_type_invariant(self);
            self.lemma_model_wf();
        }
        let env = FrozenResolutionEnv { db: self };
        resolve_path_with_env(&env, from, path.absolute, &path.segments, true)
    }

    /// Returns one module by stable project-wide reference.
    pub fn module(&self, module: ModuleRef) -> (r: Option<&ModuleData>)
        ensures
            match r {
                Some(m) => self.model().module(module) == Some(m.model()),
                None => self.model().module(module) is None,
            },
    {
        match self.def_map(module.target) {
            Some(def_map) => def_map.module(module.module),
            None => None,
        }
    }

    /// Returns one local definition by stable project-wide reference.
    pub fn local_def(&self, local_def: LocalDefRef) -> (r: Option<&LocalDefData>)
        ensures
            match r {
                Some(d) => self.model().local_def_kind(local_def) == Some(d.kind),
                None => self.model().local_def_kind(local_def) is None,
            },
    {
        match self.def_map(local_def.target) {
            Some(def_map) => def_map.local_def(local_def.local_def),
            None => None,
        }
    }

    /// The resident def map of one target, if its package is resident and has that target.
    pub open spec fn resident_target(&self, target: TargetRef) -> Option<DefMap> {
        if target.package.0 < self.entries().len() {
            match self.entries()[target.package.0 as int] {
                PackageEntry::Resident(p) => if target.target.0 < p.targets@.len() {
                    Some(p.targets@[target.target.0 as int])
                } else {
                    None
                },
                PackageEntry::Offloaded => None,
            }
        } else {
            None
        }
    }

    /// Returns one impl block by stable project-wide reference.
    pub fn local_impl(&self, local_impl: LocalImplRef) -> (r: Option<&LocalImplData>)
        ensures
            r == match self.resident_target(local_impl.target) {
                Some(d) => if local_impl.local_impl.0 < d.local_impls@.len() {
                    Some(&d.local_impls@[local_impl.local_impl.0 as int])
                } else {
                    None
                },
                None => None,
            },
    {
        match self.resident_def_map(local_impl.target) {
            Some(def_map) => def_map.local_impl(local_impl.local_impl),
            None => None,
        }
    }

    /// Returns one import by stable project-wide reference.
    pub fn import(&self, import: ImportRef) -> (r: Option<&ImportData>)
        ensures
            r == match self.resident_target(import.target) {
                Some(d) => if import.import.0 < d.imports@.len() {
                    Some(&d.imports@[import.import.0 as int])
                } else {
                    None
                },
                None => None,
            },
    {
        match self.resident_def_map(import.target) {
            Some(def_map) => def_map.import(import.import),
            None => None,
        }
    }

    /// Returns coarse totals over every resident target.
    pub fn stats(&self) -> (r: DefMapStats)
        requires
            stats_fit(stats_of(resident_def_maps(self.entries()))),
        ensures
            r@ == stats_of(resident_def_maps(self.entries())),
    {
        let mut stats = DefMapStats {
            target_count: 0,
            module_count: 0,
            local_def_count: 0,
            local_impl_count: 0,
            import_count: 0,
            unresolved_import_count: 0,
        };
        let ghost total = stats_of(resident_def_maps(self.entries()));
        proof {
            lemma_stats_prefix(self.entries(), 0);
            assert(self.entries().take(0) =~= Seq::<PackageEntry>::empty());
        }
        let mut p: usize = 0;
        while p < self.packages.len()
            invariant
                p <= self.packages.len(),
                total == stats_of(resident_def_maps(self.entries())),
                stats_fit(total),
                stats_le(stats_of(resident_def_maps(self.entries().take(p as int))), total),
                stats@ == stats_of(resident_def_maps(self.entries().take(p as int))),
            decreases self.packages.len() - p,
        {
            let ghost done = resident_def_maps(self.entries().take(p as int));
            proof {
                assert(self.entries().take(p + 1).drop_last() =~= self.entries().take(p as int));
                lemma_stats_prefix(self.entries(), p as int + 1);
            }
            match self.packages[p].as_resident() {
                Some(package) => {
                    let mut t: usize = 0;
                    proof {
                        assert(done + package.targets@.take(0) =~= done);
                        assert(resident_def_maps(self.entries().take(p + 1)) =~= done + package.targets@);
                    }
                    while t < package.targets.len()
                        invariant
                            t <= package.targets.len(),
                            stats_fit(total),
                            stats_le(stats_of(done + package.targets@), total),
                            stats@ == stats_of(done + package.targets@.take(t as int)),
                        decreases package.targets.len() - t,
                    {
                        let target = &package.targets[t];
                        proof {
                            assert((done + package.targets@.take(t + 1)).drop_last() =~= done + package.targets@.take(t as int));
                            lemma_stats_mono(done + package.targets@, t as int + 1 + done.len());
                            assert((done + package.targets@).take(t + 1 + done.len()) =~= done + package.targets@.take(t + 1));
                        }
                        let unresolved = unresolved_import_count(&target.modules);
                        stats.target_count = stats.target_count + 1;
                        stats.module_count = stats.module_count + target.modules.len();
                        stats.local_def_count = stats.local_def_count + target.local_defs.len();
                        stats.local_impl_count = stats.local_impl_count + target.local_impls.len();
                        stats.import_count = stats.import_count + target.imports.len();
                        stats.unresolved_import_count = stats.unresolved_import_count + unresolved;
                        t = t + 1;
                    }
                    proof {
                        assert(package.targets@.take(package.targets.len() as int) =~= package.targets@);
                    }
                },
                None => {
                    proof {
                        assert(resident_def_maps(self.entries().take(p + 1)) =~= done);
                    }
                },
            }
            p = p + 1;
        }
        proof {
            assert(self.entries().take(self.packages.len() as int) =~= self.entries());
        }
        stats
    }
}

/// Model of coarse def-map totals.
pub struct StatsView {
    pub target_count: int,
    pub module_count: int,
    pub local_def_count: int,
    pub local_impl_count: int,
    pub import_count: int,
    pub unresolved_import_count: int,
}

impl View for DefMapStats {
    type V = StatsView;

    open spec fn view(&self) -> StatsView {
        StatsView {
            target_count: self.target_count as int,
            module_count: self.module_count as int,
            local_def_count: self.local_def_count as int,
            local_impl_count: self.local_impl_count as int,
            import_count: self.import_count as int,
            unresolved_import_count: self.unresolved_import_count as int,
        }
    }
}

/// Resident def maps in package-slot then target-id order.
pub open spec fn resident_def_maps(entries: Seq<PackageEntry>) -> Seq<DefMap>
    decreases entries.len(),
{
    if entries.len() == 0 {
        Seq::empty()
    } else {
        let last = match entries.last() {
            PackageEntry::Resident(p) => p.targets@,
            PackageEntry::Offloaded => Seq::empty(),
        };
        resident_def_maps(entries.drop_last()) + last
    }
}

/// Number of unresolved imports recorded over `modules`.
pub open spec fn unresolved_total(modules: Seq<ModuleData>) -> int
    decreases modules.len(),
{
    if modules.len() == 0 {
        0
    } else {
        unresolved_total(modules.drop_last()) + modules.last().unresolved_imports@.len()
    }
}

/// Totals over `maps`.
pub open spec fn stats_of(maps: Seq<DefMap>) -> StatsView
    decreases maps.len(),
{
    if maps.len() == 0 {
        StatsView {
            target_count: 0,
            module_count: 0,
            local_def_count: 0,
            local_impl_count: 0,
            import_count: 0,
            unresolved_import_count: 0,
        }
    } else {
        let s = stats_of(maps.drop_last());
        let d = maps.last();
        StatsView {
            target_count: s.target_count + 1,
            module_count: s.module_count + d.modules@.len(),
            local_def_count: s.local_def_count + d.local_defs@.len(),
            local_impl_count: s.local_impl_count + d.local_impls@.len(),
            import_count: s.import_count + d.imports@.len(),
            unresolved_import_count: s.unresolved_import_count + unresolved_total(d.modules@),
        }
    }
}

/// Every total fits in a `usize`.
pub open spec fn stats_fit(s: StatsView) -> bool {
    &&& s.target_count <= usize::MAX
    &&& s.module_count <= usize::MAX
    &&& s.local_def_count <= usize::MAX
    &&& s.local_impl_count <= usize::MAX
    &&& s.import_count <= usize::MAX
    &&& s.unresolved_import_count <= usize::MAX
}

pub open spec fn stats_le(a: StatsView, b: StatsView) -> bool {
    &&& a.target_count <= b.target_count
    &&& a.module_count <= b.module_count
    &&& a.local_def_count <= b.local_def_count
    &&& a.local_impl_count <= b.local_impl_count
    &&& a.import_count <= b.import_count
    &&& a.unresolved_import_count <= b.unresolved_import_count
}

proof fn lemma_unresolved_total_nonneg(modules: Seq<ModuleData>)
    ensures
        unresolved_total(modules) >= 0,
    decreases modules.len(),
{
    if modules.len() > 0 {
        lemma_unresolved_total_nonneg(modules.drop_last());
    }
}

/// Totals only grow along a sequence of def maps.
proof fn lemma_stats_mono(maps: Seq<DefMap>, n: int)
    requires
        0 <= n <= maps.len(),
    ensures
        stats_le(stats_of(maps.take(n)), stats_of(maps)),
    decreases maps.len() - n,
{
    if n < maps.len() {
        lemma_stats_mono(maps, n + 1);
        assert(maps.take(n + 1).drop_last() =~= maps.take(n));
        lemma_unresolved_total_nonneg(maps[n].modules@);
    } else {
        assert(maps.take(n) =~= maps);
    }
}

/// The resident maps of a prefix of the entries are a prefix of all resident maps.
proof fn lemma_stats_prefix(entries: Seq<PackageEntry>, n: int)
    requires
        0 <= n <= entries.len(),
    ensures
        stats_le(stats_of(resident_def_maps(entries.take(n))), stats_of(resident_def_maps(entries))),
        resident_def_maps(entries.take(n)).len() <= resident_def_maps(entries).len(),
        resident_def_maps(entries).take(resident_def_maps(entries.take(n)).len() as int) == resident_def_maps(entries.take(n)),
    decreases entries.len() - n,
{
    if n < entries.len() {
        lemma_stats_prefix(entries, n + 1);
        let short = resident_def_maps(entries.take(n));
        let long = resident_def_maps(entries.take(n + 1));
        assert(entries.take(n + 1).drop_last() =~= entries.take(n));
        let all = resident_def_maps(entries);
        assert(long.len() >= short.len());
        assert(all.take(short.len() as int) =~= all.take(long.len() as int).take(short.len() as int));
        assert(long.take(short.len() as int) =~= short);
        lemma_stats_mono(all, short.len() as int);
    } else {
        assert(entries.take(n) =~= entries);
        assert(resident_def_maps(entries).take(resident_def_maps(entries).len() as int) =~= resident_def_maps(entries));
        lemma_stats_mono(resident_def_maps(entries), resident_def_maps(entries).len() as int);
    }
}

/// Sums the unresolved imports recorded over `modules`.
fn unresolved_import_count(modules: &Vec<ModuleData>) -> (r: usize)
    requires
        unresolved_total(modules@) <= usize::MAX,
    ensures
        r == unresolved_total(modules@),
{
    let mut total: usize = 0;
    let mut i: usize = 0;
    while i < modules.len()
        invariant
            i <= modules.len(),
            unresolved_total(modules@) <= usize::MAX,
            total == unresolved_total(modules@.take(i as int)),
        decreases modules.len() - i,
    {
        proof {
            assert(modules@.take(i + 1).drop_last() =~= modules@.take(i as int));
            lemma_unresolved_prefix(modules@, i + 1);
        }
        total = total + modules[i].unresolved_imports.len();
        i = i + 1;
    }
    assert(modules@.take(modules.len() as int) =~= modules@);
    total
}

proof fn lemma_unresolved_prefix(modules: Seq<ModuleData>, n: int)
    requires
        0 <= n <= modules.len(),
    ensures
        unresolved_total(modules.take(n)) <= unresolved_total(modules),
    decreases modules.len() - n,
{
    if n < modules.len() {
        lemma_unresolved_prefix(modules, n + 1);
        assert(modules.take(n + 1).drop_last() =~= modules.take(n));
    } else {
        assert(modules.take(n) =~= modules);
    }
}


impl PackageEntry {
    /// The same entry; a resident package is shared, not copied.
    pub fn share(&self) -> (r: Self)
        ensures
            r == *self,
    {
        match self {
            PackageEntry::Resident(package) => PackageEntry::Resident(share_package(package)),
            PackageEntry::Offloaded => PackageEntry::Offloaded,
        }
    }
}

impl DefMapDb {
    /// Another snapshot with the same entries: resident packages are shared between the two.
    pub fn share(&self) -> (r: Self)
        ensures
            r.entries() == self.entries(),
    {
        proof {
            use_type_invariant(self);
        }
        let mut packages: Vec<PackageEntry> = Vec::new();
        let mut p: usize = 0;
        while p < self.packages.len()
            invariant
                p <= self.packages.len(),
                packages@ == self.packages@.take(p as int),
            decreases self.packages.len() - p,
        {
            packages.push(self.packages[p].share());
            proof {
                assert(packages@ =~= self.packages@.take(p + 1));
            }
            p = p + 1;
        }
        proof {
            assert(packages@ =~= self.packages@);
        }
        DefMapDb { packages }
    }

    /// The shared resident package of one slot, if it is resident.
    pub fn shared_package(&self, package_slot: PackageSlot) -> (r: Option<&Arc<Package>>)
        ensures
            match r {
                Some(shared) => package_slot.0 < self.entries().len() && self.entries()[package_slot.0 as int]
                    == PackageEntry::Resident(*shared),
                None => package_slot.0 >= self.entries().len() || self.entries()[package_slot.0 as int] is Offloaded,
            },
    {
        if package_slot.0 < self.packages.len() {
            match &self.packages[package_slot.0] {
                PackageEntry::Resident(shared) => Some(shared),
                PackageEntry::Offloaded => None,
            }
        } else {
            None
        }
    }
}

impl DefMapDb {
    /// One target's modules with their project-wide references, in order; none when the target
    /// is not resident.
    pub fn modules(&self, target: TargetRef) -> (r: Vec<(ModuleRef, &ModuleData)>)
        ensures
            match self.resident_target(target) {
                Some(d) => r@.len() == d.modules@.len() && forall|i: int|
                    0 <= i < r@.len() ==> #[trigger] r@[i] == (ModuleRef { target, module: ModuleId(i as usize) }, &d.modules@[i]),
                None => r@.len() == 0,
            },
    {
        let mut out: Vec<(ModuleRef, &ModuleData)> = Vec::new();
        if let Some(def_map) = self.resident_def_map(target) {
            let mut i: usize = 0;
            while i < def_map.modules.len()
                invariant
                    i <= def_map.modules@.len(),
                    out@.len() == i,
                    forall|k: int| 0 <= k < i ==> #[trigger] out@[k] == (ModuleRef { target, module: ModuleId(k as usize) }, &def_map.modules@[k]),
                decreases def_map.modules.len() - i,
            {
                out.push((ModuleRef { target, module: ModuleId(i) }, &def_map.modules[i]));
                i = i + 1;
            }
        }
        out
    }

    /// One target's local definitions with their project-wide references, in order.
    pub fn local_defs(&self, target: TargetRef) -> (r: Vec<(LocalDefRef, &LocalDefData)>)
        ensures
            match self.resident_target(target) {
                Some(d) => r@.len() == d.local_defs@.len() && forall|i: int|
                    0 <= i < r@.len() ==> #[trigger] r@[i] == (LocalDefRef { target, local_def: LocalDefId(i as usize) }, &d.local_defs@[i]),
                None => r@.len() == 0,
            },
    {
        let mut out: Vec<(LocalDefRef, &LocalDefData)> = Vec::new();
        if let Some(def_map) = self.resident_def_map(target) {
            let mut i: usize = 0;
            while i < def_map.local_defs.len()
                invariant
                    i <= def_map.local_defs@.len(),
                    out@.len() == i,
                    forall|k: int|
                        0 <= k < i ==> #[trigger] out@[k] == (LocalDefRef { target, local_def: LocalDefId(k as usize) }, &def_map.local_defs@[k]),
                decreases def_map.local_defs.len() - i,
            {
                out.push((LocalDefRef { target, local_def: LocalDefId(i) }, &def_map.local_defs[i]));
                i = i + 1;
            }
        }
        out
    }

    /// One target's impl blocks with their project-wide references, in order.
    pub fn local_impls(&self, target: TargetRef) -> (r: Vec<(LocalImplRef, &LocalImplData)>)
        ensures
            match self.resident_target(target) {
                Some(d) => r@.len() == d.local_impls@.len() && forall|i: int|
                    0 <= i < r@.len() ==> #[trigger] r@[i] == (LocalImplRef { target, local_impl: LocalImplId(i as usize) }, &d.local_impls@[i]),
                None => r@.len() == 0,
            },
    {
        let mut out: Vec<(LocalImplRef, &LocalImplData)> = Vec::new();
        if let Some(def_map) = self.resident_def_map(target) {
            let mut i: usize = 0;
            while i < def_map.local_impls.len()
                invariant
                    i <= def_map.local_impls@.len(),
                    out@.len() == i,
                    forall|k: int|
                        0 <= k < i ==> #[trigger] out@[k] == (LocalImplRef { target, local_impl: LocalImplId(k as usize) }, &def_map.local_impls@[k]),
                decreases def_map.local_impls.len() - i,
            {
                out.push((LocalImplRef { target, local_impl: LocalImplId(i) }, &def_map.local_impls[i]));
                i = i + 1;
            }
        }
        out
    }

    /// One target's imports with their project-wide references, in order.
    pub fn imports(&self, target: TargetRef) -> (r: Vec<(ImportRef, &ImportData)>)
        ensures
            match self.resident_target(target) {
                Some(d) => r@.len() == d.imports@.len() && forall|i: int|
                    0 <= i < r@.len() ==> #[trigger] r@[i] == (ImportRef { target, import: ImportId(i as usize) }, &d.imports@[i]),
                None => r@.len() == 0,
            },
    {
        let mut out: Vec<(ImportRef, &ImportData)> = Vec::new();
        if let Some(def_map) = self.resident_def_map(target) {
            let mut i: usize = 0;
            while i < def_map.imports.len()
                invariant
                    i <= def_map.imports@.len(),
                    out@.len() == i,
                    forall|k: int| 0 <= k < i ==> #[trigger] out@[k] == (ImportRef { target, import: ImportId(k as usize) }, &def_map.imports@[k]),
                decreases def_map.imports.len() - i,
            {
                out.push((ImportRef { target, import: ImportId(i) }, &def_map.imports[i]));
                i = i + 1;
            }
        }
        out
    }
}

} // verus!
