//! Import resolution to a fixed point while def maps are finalized.
//!
//! Target collection stops before cross-target facts such as imports are known. This phase
//! repeatedly applies every import of every target against the previous scope snapshot until
//! the scopes stop changing, then freezes the scopes into the def maps and records the imports
//! that still resolve to nothing.

use vstd::prelude::*;

use crate::def_map::{
    DefMap, ExternRoot, ImportData, ImportKind, ModuleData, TargetModel,
    extern_roots_view,
};
use crate::ids::{DefId, ImportId, ModuleId, ModuleRef, PackageSlot, TargetRef};
use crate::path::{Path, PathView};
use crate::resolution::{
    EnvModel, PathResolutionEnv, binding_visible, binding_is_visible, resolve_path,
    resolve_path_with_env,
};
use crate::scope::{
    BindingView, EntryView, ModuleScope, Namespace, ScopeBinding, ScopeEntry, ScopeNameEntry,
    ScopeView, VisibilityLevel, VisibilityView, bindings_view, entry_or_empty, has_bindings, merge_entry,
    scope_insert,
};
use crate::text::TargetId;

verus! {

/// Per-target state while def maps are finalized: the collected def map, the directly declared
/// module scopes, and the cross-target roots.
#[derive(Debug)]
pub struct TargetState {
    pub target: TargetRef,
    pub target_name: String,
    pub def_map: DefMap,
    /// Scopes holding only directly declared names, one per module.
    pub base_scopes: Vec<ModuleScope>,
    pub implicit_roots: Vec<ExternRoot>,
    pub prelude: Option<ModuleRef>,
}

/// Model of one import.
pub struct ImportView {
    pub module: ModuleId,
    pub kind: ImportKind,
    pub path: PathView,
    pub visibility: VisibilityView,
    pub binding: Option<Seq<char>>,
}

pub open spec fn import_view(import: ImportData) -> ImportView {
    ImportView {
        module: import.module,
        kind: import.kind,
        path: import.path@,
        visibility: import.visibility@,
        binding: match import.binding {
            Some(name) => Some(name@),
            None => None,
        },
    }
}

/// Model of a scope snapshot: package slot, then target, then module.
pub type ScopesView = Seq<Seq<Seq<ScopeView>>>;

pub open spec fn target_scopes_view(scopes: Vec<ModuleScope>) -> Seq<ScopeView> {
    scopes@.map_values(|s: ModuleScope| s@)
}

pub open spec fn package_scopes_view(scopes: Vec<Vec<ModuleScope>>) -> Seq<Seq<ScopeView>> {
    scopes@.map_values(|t: Vec<ModuleScope>| target_scopes_view(t))
}

pub open spec fn scopes_view(scopes: Seq<Vec<Vec<ModuleScope>>>) -> ScopesView {
    scopes.map_values(|p: Vec<Vec<ModuleScope>>| package_scopes_view(p))
}

impl TargetState {
    /// What path resolution reads from this target while imports are resolved.
    pub open spec fn model(&self) -> TargetModel {
        TargetModel {
            extern_roots: extern_roots_view(self.implicit_roots@),
            prelude: self.prelude,
            ..self.def_map.model()
        }
    }

    pub open spec fn imports_view(&self) -> Seq<ImportView> {
        self.def_map.imports@.map_values(|i: ImportData| import_view(i))
    }

    pub open spec fn base_view(&self) -> Seq<ScopeView> {
        target_scopes_view(self.base_scopes)
    }
}

pub open spec fn states_targets(states: Seq<Vec<TargetState>>) -> Seq<Seq<TargetModel>> {
    states.map_values(|p: Vec<TargetState>| p@.map_values(|s: TargetState| s.model()))
}

pub open spec fn states_base(states: Seq<Vec<TargetState>>) -> ScopesView {
    states.map_values(|p: Vec<TargetState>| p@.map_values(|s: TargetState| s.base_view()))
}

/// The environment imports resolve against: the collected targets with `current` scopes.
pub open spec fn build_model(states: Seq<Vec<TargetState>>, current: ScopesView) -> EnvModel {
    EnvModel { targets: states_targets(states), scopes: current }
}

/// Collected states are consistent: each sits at its own slot, has one base scope per module,
/// imports owned by existing modules, and a module tree with parents before children.
pub open spec fn states_wf(states: Seq<Vec<TargetState>>) -> bool {
    forall|p: int, t: int|
        0 <= p < states.len() && 0 <= t < states[p]@.len() ==> #[trigger] state_wf(states[p]@[t], p, t)
}

pub open spec fn state_wf(state: TargetState, p: int, t: int) -> bool {
    &&& state.target == (TargetRef { package: PackageSlot(p as usize), target: TargetId(t as usize) })
    &&& state.base_scopes@.len() == state.def_map.modules@.len()
    &&& forall|i: int|
        0 <= i < state.def_map.imports@.len() ==> (#[trigger] state.def_map.imports@[i]).module.0
            < state.def_map.modules@.len()
    &&& state.model().parents_precede()
}

/// Resolution environment used while imports are being fixed up.
pub struct BuildResolutionEnv<'a> {
    pub states: &'a Vec<Vec<TargetState>>,
    pub current_scopes: &'a Vec<Vec<Vec<ModuleScope>>>,
}

impl<'a> BuildResolutionEnv<'a> {
    fn target_state(&self, target: TargetRef) -> (r: Option<&'a TargetState>)
        ensures
            match r {
                Some(s) => target.package.0 < self.states@.len() && target.target.0
                    < self.states@[target.package.0 as int]@.len() && *s
                    == self.states@[target.package.0 as int]@[target.target.0 as int],
                None => !(target.package.0 < self.states@.len() && target.target.0
                    < self.states@[target.package.0 as int]@.len()),
            },
    {
        if target.package.0 < self.states.len() && target.target.0 < self.states[target.package.0].len() {
            Some(&self.states[target.package.0][target.target.0])
        } else {
            None
        }
    }
}

impl<'a> PathResolutionEnv for BuildResolutionEnv<'a> {
    open spec fn model(&self) -> EnvModel {
        build_model(self.states@, scopes_view(self.current_scopes@))
    }

    fn extern_root(&self, target: TargetRef, name: &String) -> (r: Option<ModuleRef>) {
        match self.target_state(target) {
            Some(state) => {
                proof {
                    assert(self.model().target(target) == Some(state.model()));
                }
                crate::def_map::lookup_extern_root(&state.implicit_roots, name)
            },
            None => None,
        }
    }

    fn prelude_module(&self, target: TargetRef) -> (r: Option<ModuleRef>) {
        match self.target_state(target) {
            Some(state) => state.prelude,
            None => None,
        }
    }

    fn root_module(&self, target: TargetRef) -> (r: Option<ModuleRef>) {
        match self.target_state(target) {
            Some(state) => match state.def_map.root_module() {
                Some(root) => Some(ModuleRef { target, module: root }),
                None => None,
            },
            None => None,
        }
    }

    fn module_data(&self, module: ModuleRef) -> (r: Option<&ModuleData>) {
        match self.target_state(module.target) {
            Some(state) => state.def_map.module(module.module),
            None => None,
        }
    }

    fn module_scope(&self, module: ModuleRef) -> (r: Option<&ModuleScope>) {
        let p = module.target.package.0;
        let t = module.target.target.0;
        let m = module.module.0;
        if p < self.current_scopes.len() && t < self.current_scopes[p].len() && m
            < self.current_scopes[p][t].len() {
            Some(&self.current_scopes[p][t][m])
        } else {
            None
        }
    }
}

// ---------------------------------------------------------------------------------------------
// Semantics of one import round
// ---------------------------------------------------------------------------------------------

/// The visible bindings of a bucket, in order and without duplicates.
pub open spec fn visible_bucket(model: EnvModel, importing: ModuleRef, bindings: Seq<BindingView>) -> Seq<BindingView>
    decreases bindings.len(),
{
    if bindings.len() == 0 {
        Seq::empty()
    } else {
        let before = visible_bucket(model, importing, bindings.drop_last());
        let b = bindings.last();
        if binding_visible(model, importing, b) && !before.contains(b) {
            before.push(b)
        } else {
            before
        }
    }
}

/// The part of an entry visible from `importing`.
pub open spec fn visible_entry(model: EnvModel, importing: ModuleRef, entry: EntryView) -> EntryView {
    EntryView {
        types: visible_bucket(model, importing, entry.types),
        values: visible_bucket(model, importing, entry.values),
        macros: visible_bucket(model, importing, entry.macros),
    }
}

/// The subset of `source`'s scope visible from `importing`: names whose visible part is not
/// empty, mapped to that part.
pub open spec fn visible_scope(model: EnvModel, importing: ModuleRef, source: ModuleRef) -> ScopeView {
    match model.module_scope(source) {
        Some(scope) => Map::new(
            |k: Seq<char>| scope.contains_key(k) && has_bindings(visible_entry(model, importing, scope[k])),
            |k: Seq<char>| visible_entry(model, importing, scope[k]),
        ),
        None => Map::empty(),
    }
}

/// `target` after a glob import copied every entry of `source` with the import's visibility and
/// owner.
pub open spec fn glob_merge(
    target: ScopeView,
    source: ScopeView,
    visibility: VisibilityView,
    owner: ModuleRef,
) -> ScopeView {
    Map::new(
        |k: Seq<char>| target.contains_key(k) || source.contains_key(k),
        |k: Seq<char>|
            if source.contains_key(k) {
                merge_entry(entry_or_empty(target, k), source[k], visibility, owner)
            } else {
                target[k]
            },
    )
}

pub open spec fn scope_at(scopes: ScopesView, module: ModuleRef) -> ScopeView {
    scopes[module.target.package.0 as int][module.target.target.0 as int][module.module.0 as int]
}

pub open spec fn has_scope(scopes: ScopesView, module: ModuleRef) -> bool {
    &&& module.target.package.0 < scopes.len()
    &&& module.target.target.0 < scopes[module.target.package.0 as int].len()
    &&& module.module.0 < scopes[module.target.package.0 as int][module.target.target.0 as int].len()
}

pub open spec fn with_scope(scopes: ScopesView, module: ModuleRef, scope: ScopeView) -> ScopesView {
    let p = module.target.package.0 as int;
    let t = module.target.target.0 as int;
    let m = module.module.0 as int;
    scopes.update(p, scopes[p].update(t, scopes[p][t].update(m, scope)))
}

/// The modules among `defs`, in order and without duplicates.
pub open spec fn modules_of(defs: Seq<DefId>) -> Seq<ModuleRef>
    decreases defs.len(),
{
    if defs.len() == 0 {
        Seq::empty()
    } else {
        let before = modules_of(defs.drop_last());
        match defs.last() {
            DefId::Module(m) => if before.contains(m) {
                before
            } else {
                before.push(m)
            },
            DefId::Local(_) => before,
        }
    }
}

/// Modules a glob import's path denotes.
pub open spec fn path_modules(model: EnvModel, importing: ModuleRef, path: PathView) -> Seq<ModuleRef> {
    modules_of(resolve_path(model, importing, path.absolute, path.segments, false).resolved)
}

/// Namespace bucket a resolved definition occupies.
pub open spec fn def_namespace(model: EnvModel, def: DefId) -> Option<Namespace> {
    match def {
        DefId::Module(_) => Some(Namespace::Types),
        DefId::Local(local) => match model.local_def_kind(local) {
            Some(kind) => Some(kind.spec_namespace()),
            None => None,
        },
    }
}

/// Scopes after glob-importing each of `sources`, in order, into `owner`.
pub open spec fn globs_applied(
    model: EnvModel,
    owner: ModuleRef,
    sources: Seq<ModuleRef>,
    visibility: VisibilityView,
    next: ScopesView,
) -> ScopesView
    decreases sources.len(),
{
    if sources.len() == 0 {
        next
    } else {
        let before = globs_applied(model, owner, sources.drop_last(), visibility, next);
        with_scope(
            before,
            owner,
            glob_merge(
                scope_at(before, owner),
                visible_scope(model, owner, sources.last()),
                visibility,
                owner,
            ),
        )
    }
}

/// Scopes after binding `name` in `owner` to each of `defs`, in order.
pub open spec fn named_applied(
    model: EnvModel,
    owner: ModuleRef,
    name: Seq<char>,
    visibility: VisibilityView,
    defs: Seq<DefId>,
    next: ScopesView,
) -> ScopesView
    decreases defs.len(),
{
    if defs.len() == 0 {
        next
    } else {
        let before = named_applied(model, owner, name, visibility, defs.drop_last(), next);
        match def_namespace(model, defs.last()) {
            Some(namespace) => with_scope(
                before,
                owner,
                scope_insert(
                    scope_at(before, owner),
                    name,
                    namespace,
                    BindingView { def: defs.last(), visibility, owner },
                ),
            ),
            None => before,
        }
    }
}

/// Scopes after applying one import of `target` against the snapshot in `model`.
pub open spec fn import_applied(model: EnvModel, target: TargetRef, import: ImportView, next: ScopesView) -> ScopesView {
    let owner = ModuleRef { target, module: import.module };
    match import.kind {
        ImportKind::Glob => globs_applied(
            model,
            owner,
            path_modules(model, owner, import.path),
            import.visibility,
            next,
        ),
        _ => match import.binding {
            Some(name) => named_applied(
                model,
                owner,
                name,
                import.visibility,
                resolve_path(model, owner, import.path.absolute, import.path.segments, false).resolved,
                next,
            ),
            None => next,
        },
    }
}

/// Scopes after applying every import of `target`, in order.
pub open spec fn imports_applied(
    model: EnvModel,
    target: TargetRef,
    imports: Seq<ImportView>,
    next: ScopesView,
) -> ScopesView
    decreases imports.len(),
{
    if imports.len() == 0 {
        next
    } else {
        import_applied(model, target, imports.last(), imports_applied(model, target, imports.drop_last(), next))
    }
}

// ---------------------------------------------------------------------------------------------
// Applying imports
// ---------------------------------------------------------------------------------------------

pub open spec fn unique_names(items: Seq<(Seq<char>, EntryView)>) -> bool {
    forall|i: int, j: int| 0 <= i < j < items.len() ==> items[i].0 != items[j].0
}

/// Pushes the visible bindings of one bucket into `entry`'s bucket of the same namespace.
fn push_visible_bindings<E: PathResolutionEnv>(
    env: &E,
    importing: ModuleRef,
    entry: &mut ScopeEntry,
    namespace: Namespace,
    bindings: &Vec<ScopeBinding>,
)
    requires
        env.model().wf(),
        old(entry)@.bucket(namespace).len() == 0,
    ensures
        final(entry)@ == old(entry)@.with_bucket(
            namespace,
            visible_bucket(env.model(), importing, bindings_view(bindings@)),
        ),
{
    let ghost model = env.model();
    let mut i: usize = 0;
    proof {
        assert(old(entry)@.with_bucket(namespace, Seq::empty()) =~= old(entry)@);
    }
    while i < bindings.len()
        invariant
            model == env.model(),
            model.wf(),
            i <= bindings.len(),
            entry@ == old(entry)@.with_bucket(
                namespace,
                visible_bucket(model, importing, bindings_view(bindings@.subrange(0, i as int))),
            ),
        decreases bindings.len() - i,
    {
        proof {
            let next = bindings_view(bindings@.subrange(0, i + 1));
            assert(next.drop_last() =~= bindings_view(bindings@.subrange(0, i as int)));
            assert(next.last() == bindings@[i as int]@);
        }
        if binding_is_visible(env, importing, &bindings[i]) {
            let ghost before = entry@;
            entry.insert_binding(namespace, bindings[i].duplicate());
            proof {
                let next = bindings_view(bindings@.subrange(0, i + 1));
                let prev = visible_bucket(model, importing, next.drop_last());
                assert(before.bucket(namespace) == prev);
                if prev.contains(next.last()) {
                    assert(entry@ =~= before);
                } else {
                    assert(entry@ =~= old(entry)@.with_bucket(namespace, prev.push(next.last())));
                }
            }
        }
        i = i + 1;
    }
    assert(bindings@.subrange(0, bindings.len() as int) =~= bindings@);
}

/// Returns the subset of one module scope that is visible to the importing module, as a list of
/// names with non-empty visible entries.
pub fn visible_module_scope_entry_set<E: PathResolutionEnv>(
    env: &E,
    importing: ModuleRef,
    source: ModuleRef,
) -> (r: Vec<ScopeNameEntry>)
    requires
        env.model().wf(),
    ensures
        crate::scope::names_map(crate::scope::scope_items(r@)) == visible_scope(env.model(), importing, source),
        unique_names(crate::scope::scope_items(r@)),
        forall|i: int| 0 <= i < r@.len() ==> has_bindings(#[trigger] r@[i].entry@),
{
    let ghost model = env.model();
    let mut out: Vec<ScopeNameEntry> = Vec::new();
    let scope = match env.module_scope(source) {
        Some(scope) => scope,
        None => {
            proof {
                assert(crate::scope::scope_items(out@) =~= Seq::empty());
                assert(crate::scope::names_map(crate::scope::scope_items(out@)) =~= visible_scope(model, importing, source));
            }
            return out;
        },
    };
    let ghost sv = scope@;
    let ghost items = crate::scope::scope_items(scope.names@);
    let mut i: usize = 0;
    proof {
        assert(crate::scope::scope_items(out@) =~= Seq::empty());
    }
    while i < scope.names.len()
        invariant
            model == env.model(),
            model.wf(),
            model.module_scope(source) == Some(sv),
            sv == scope@,
            items == crate::scope::scope_items(scope.names@),
            i <= scope.names.len(),
            unique_names(crate::scope::scope_items(out@)),
            forall|j: int| 0 <= j < out@.len() ==> has_bindings(#[trigger] out@[j].entry@),
            forall|k: Seq<char>|
                #[trigger] crate::scope::names_map(crate::scope::scope_items(out@)).contains_key(k) <==> (
                (exists|j: int| 0 <= j < i && items[j].0 == k) && sv.contains_key(k) && has_bindings(
                    visible_entry(model, importing, sv[k]),
                )),
            forall|k: Seq<char>|
                #[trigger] crate::scope::names_map(crate::scope::scope_items(out@)).contains_key(k) ==> crate::scope::names_map(
                    crate::scope::scope_items(out@),
                )[k] == visible_entry(model, importing, sv[k]),
        decreases scope.names.len() - i,
    {
        let name = &scope.names[i].name;
        proof {
            assert(items[i as int].0 == name@);
            crate::scope::lemma_names_map_last_exists(items, name@, i as int);
        }
        let ghost out_items = crate::scope::scope_items(out@);
        let mut seen = false;
        let mut j: usize = 0;
        while j < out.len()
            invariant
                j <= out.len(),
                out_items == crate::scope::scope_items(out@),
                out_items.len() == out@.len(),
                seen <==> exists|l: int| 0 <= l < j && out_items[l].0 == name@,
            decreases out.len() - j,
        {
            proof {
                assert(out_items[j as int].0 == out@[j as int].name@);
            }
            if out[j].name == *name {
                seen = true;
            }
            j = j + 1;
        }
        proof {
            if seen {
                let l = choose|l: int| 0 <= l < out@.len() && out_items[l].0 == name@;
                crate::scope::lemma_names_map_last_exists(out_items, name@, l);
            }
        }
        if !seen {
            let source_entry = match scope.entry(name) {
                Some(e) => e,
                None => {
                    // The name was read from this scope, so the lookup succeeds.
                    proof {
                        assert(false);
                    }
                    return out;
                },
            };
            let mut visible = ScopeEntry::new();
            push_visible_bindings(env, importing, &mut visible, Namespace::Types, &source_entry.types);
            push_visible_bindings(env, importing, &mut visible, Namespace::Values, &source_entry.values);
            push_visible_bindings(env, importing, &mut visible, Namespace::Macros, &source_entry.macros);
            proof {
                assert(visible@ =~= visible_entry(model, importing, sv[name@]));
                crate::scope::lemma_names_map_absent(out_items, name@);
            }
            if !visible.is_empty() {
                out.push(ScopeNameEntry { name: name.clone(), entry: visible });
                proof {
                    let new_items = crate::scope::scope_items(out@);
                    assert(new_items.drop_last() =~= out_items);
                    assert(new_items.last() == (name@, visible_entry(model, importing, sv[name@])));
                    assert forall|a: int, b: int| 0 <= a < b < new_items.len() implies new_items[a].0
                        != new_items[b].0 by {
                        if b == new_items.len() - 1 {
                            assert(new_items[a] == out_items[a]);
                        } else {
                            assert(new_items[a] == out_items[a] && new_items[b] == out_items[b]);
                        }
                    }
                }
            }
        } else {
            proof {
                assert(crate::scope::names_map(out_items).contains_key(name@));
            }
        }
        i = i + 1;
    }
    proof {
        let result = crate::scope::names_map(crate::scope::scope_items(out@));
        assert forall|k: Seq<char>| result.contains_key(k) == visible_scope(model, importing, source).contains_key(k) by {
            if sv.contains_key(k) {
                crate::scope::lemma_names_map_present(items, k);
            }
        }
        assert(result =~= visible_scope(model, importing, source));
    }
    out
}


// ---------------------------------------------------------------------------------------------
// Resolution against the build environment
// ---------------------------------------------------------------------------------------------

proof fn lemma_build_model_wf(states: Seq<Vec<TargetState>>, current: ScopesView)
    requires
        states_wf(states),
    ensures
        build_model(states, current).wf(),
{
    let model = build_model(states, current);
    assert forall|p: int, t: int|
        0 <= p < model.targets.len() && 0 <= t < model.targets[p].len() implies #[trigger] model.targets[p][t].parents_precede() by {
        assert(state_wf(states[p]@[t], p, t));
    }
}

/// Resolves an import path from one module against the current scope snapshot.
pub fn resolve_path_to_defs(
    states: &Vec<Vec<TargetState>>,
    current_scopes: &Vec<Vec<Vec<ModuleScope>>>,
    importing_target: TargetRef,
    importing_module: ModuleId,
    path: &Path,
) -> (r: Vec<DefId>)
    requires
        states_wf(states@),
    ensures
        r@ == resolve_path(
            build_model(states@, scopes_view(current_scopes@)),
            ModuleRef { target: importing_target, module: importing_module },
            path@.absolute,
            path@.segments,
            false,
        ).resolved,
{
    let env = BuildResolutionEnv { states, current_scopes };
    proof {
        lemma_build_model_wf(states@, scopes_view(current_scopes@));
    }
    let result = resolve_path_with_env(
        &env,
        ModuleRef { target: importing_target, module: importing_module },
        path.absolute,
        &path.segments,
        false,
    );
    result.resolved
}

fn contains_module(modules: &Vec<ModuleRef>, module: ModuleRef) -> (r: bool)
    ensures
        r == modules@.contains(module),
{
    let mut i: usize = 0;
    while i < modules.len()
        invariant
            i <= modules.len(),
            forall|j: int| 0 <= j < i ==> modules@[j] != module,
        decreases modules.len() - i,
    {
        if modules[i] == module {
            return true;
        }
        i = i + 1;
    }
    false
}

/// Resolves a path and keeps only the modules among the results, in order and without
/// duplicates. Glob imports use this: their path must denote the modules to copy from.
pub fn resolve_path_to_modules(
    states: &Vec<Vec<TargetState>>,
    current_scopes: &Vec<Vec<Vec<ModuleScope>>>,
    importing_target: TargetRef,
    importing_module: ModuleId,
    path: &Path,
) -> (r: Vec<ModuleRef>)
    requires
        states_wf(states@),
    ensures
        r@ == path_modules(
            build_model(states@, scopes_view(current_scopes@)),
            ModuleRef { target: importing_target, module: importing_module },
            path@,
        ),
{
    let defs = resolve_path_to_defs(states, current_scopes, importing_target, importing_module, path);
    let mut modules: Vec<ModuleRef> = Vec::new();
    let mut i: usize = 0;
    while i < defs.len()
        invariant
            i <= defs.len(),
            modules@ == modules_of(defs@.take(i as int)),
        decreases defs.len() - i,
    {
        proof {
            assert(defs@.take(i + 1).drop_last() =~= defs@.take(i as int));
        }
        match defs[i] {
            DefId::Module(module) => {
                if !contains_module(&modules, module) {
                    modules.push(module);
                }
            },
            DefId::Local(_) => {},
        }
        i = i + 1;
    }
    assert(defs@.take(defs.len() as int) =~= defs@);
    modules
}

/// Namespace bucket a resolved definition occupies: modules are types; local definitions use
/// their kind's namespace.
pub fn namespace_for_def(states: &Vec<Vec<TargetState>>, def: DefId) -> (r: Option<Namespace>)
    ensures
        forall|current: ScopesView| r == #[trigger] def_namespace(build_model(states@, current), def),
{
    match def {
        DefId::Module(_) => Some(Namespace::Types),
        DefId::Local(local) => {
            let p = local.target.package.0;
            let t = local.target.target.0;
            if p < states.len() && t < states[p].len() && local.local_def.0
                < states[p][t].def_map.local_defs.len() {
                Some(states[p][t].def_map.local_defs[local.local_def.0].kind.namespace())
            } else {
                None
            }
        },
    }
}

// ---------------------------------------------------------------------------------------------
// Writing into one module of a scope snapshot
// ---------------------------------------------------------------------------------------------

/// Two snapshots have the same packages, targets and modules.
pub open spec fn same_shape(a: ScopesView, b: ScopesView) -> bool {
    &&& a.len() == b.len()
    &&& forall|p: int| 0 <= p < a.len() ==> #[trigger] a[p].len() == b[p].len()
    &&& forall|p: int, t: int|
        0 <= p < a.len() && 0 <= t < a[p].len() ==> #[trigger] a[p][t].len() == b[p][t].len()
}

fn copy_into_scope(
    next: &mut Vec<Vec<Vec<ModuleScope>>>,
    owner: ModuleRef,
    name: &String,
    entry: &ScopeEntry,
    visibility: &VisibilityLevel,
)
    requires
        has_scope(scopes_view(old(next)@), owner),
    ensures
        scopes_view(final(next)@) == with_scope(
            scopes_view(old(next)@),
            owner,
            crate::scope::copy_entry(scope_at(scopes_view(old(next)@), owner), name@, entry@, visibility@, owner),
        ),
        same_shape(scopes_view(final(next)@), scopes_view(old(next)@)),
{
    let p = owner.target.package.0;
    let t = owner.target.target.0;
    let m = owner.module.0;
    next[p][t][m].copy_visible_bindings(name, entry, visibility, owner);
    proof {
        let new_view = with_scope(
            scopes_view(old(next)@),
            owner,
            crate::scope::copy_entry(scope_at(scopes_view(old(next)@), owner), name@, entry@, visibility@, owner),
        );
        assert(package_scopes_view(next@[p as int]) =~= new_view[p as int]) by {
            assert(target_scopes_view(next@[p as int]@[t as int]) =~= new_view[p as int][t as int]);
        }
        assert(scopes_view(next@) =~= new_view);
    }
}

fn insert_into_scope(
    next: &mut Vec<Vec<Vec<ModuleScope>>>,
    owner: ModuleRef,
    name: &String,
    namespace: Namespace,
    binding: ScopeBinding,
)
    requires
        has_scope(scopes_view(old(next)@), owner),
    ensures
        scopes_view(final(next)@) == with_scope(
            scopes_view(old(next)@),
            owner,
            scope_insert(scope_at(scopes_view(old(next)@), owner), name@, namespace, binding@),
        ),
        same_shape(scopes_view(final(next)@), scopes_view(old(next)@)),
{
    let p = owner.target.package.0;
    let t = owner.target.target.0;
    let m = owner.module.0;
    let ghost b = binding@;
    next[p][t][m].insert_binding(name, namespace, binding);
    proof {
        let new_view = with_scope(
            scopes_view(old(next)@),
            owner,
            scope_insert(scope_at(scopes_view(old(next)@), owner), name@, namespace, b),
        );
        assert(package_scopes_view(next@[p as int]) =~= new_view[p as int]) by {
            assert(target_scopes_view(next@[p as int]@[t as int]) =~= new_view[p as int][t as int]);
        }
        assert(scopes_view(next@) =~= new_view);
    }
}


proof fn lemma_with_scope(scopes: ScopesView, owner: ModuleRef, a: ScopeView, b: ScopeView)
    requires
        has_scope(scopes, owner),
    ensures
        has_scope(with_scope(scopes, owner, a), owner),
        scope_at(with_scope(scopes, owner, a), owner) == a,
        with_scope(with_scope(scopes, owner, a), owner, b) == with_scope(scopes, owner, b),
        same_shape(with_scope(scopes, owner, a), scopes),
{
    let p = owner.target.package.0 as int;
    let t = owner.target.target.0 as int;
    let w = with_scope(with_scope(scopes, owner, a), owner, b);
    let v = with_scope(scopes, owner, b);
    assert(w[p][t] =~= v[p][t]);
    assert(w[p] =~= v[p]);
    assert(w =~= v);
}

proof fn lemma_same_shape_has_scope(a: ScopesView, b: ScopesView, owner: ModuleRef)
    requires
        same_shape(a, b),
        has_scope(b, owner),
    ensures
        has_scope(a, owner),
{
    let p = owner.target.package.0 as int;
    let t = owner.target.target.0 as int;
    assert(a[p].len() == b[p].len());
    assert(a[p][t].len() == b[p][t].len());
}

/// `scope` after copying each named entry of `items` in order, as a glob import does.
pub open spec fn copy_all(
    scope: ScopeView,
    items: Seq<(Seq<char>, EntryView)>,
    visibility: VisibilityView,
    owner: ModuleRef,
) -> ScopeView
    decreases items.len(),
{
    if items.len() == 0 {
        scope
    } else {
        crate::scope::copy_entry(
            copy_all(scope, items.drop_last(), visibility, owner),
            items.last().0,
            items.last().1,
            visibility,
            owner,
        )
    }
}

/// Copying a list of distinct, non-empty entries one by one merges the map they denote.
proof fn lemma_copy_all(
    scope: ScopeView,
    items: Seq<(Seq<char>, EntryView)>,
    visibility: VisibilityView,
    owner: ModuleRef,
)
    requires
        unique_names(items),
        forall|i: int| 0 <= i < items.len() ==> has_bindings(#[trigger] items[i].1),
    ensures
        copy_all(scope, items, visibility, owner) == glob_merge(
            scope,
            crate::scope::names_map(items),
            visibility,
            owner,
        ),
    decreases items.len(),
{
    if items.len() == 0 {
        assert(glob_merge(scope, crate::scope::names_map(items), visibility, owner) =~= scope);
    } else {
        let prev = items.drop_last();
        let k = items.last().0;
        let e = items.last().1;
        assert(has_bindings(items[items.len() - 1].1));
        assert forall|i: int| 0 <= i < prev.len() implies has_bindings(#[trigger] prev[i].1) by {
            assert(prev[i] == items[i]);
        }
        assert forall|i: int, j: int| 0 <= i < j < prev.len() implies prev[i].0 != prev[j].0 by {
            assert(prev[i] == items[i] && prev[j] == items[j]);
        }
        lemma_copy_all(scope, prev, visibility, owner);
        let before = copy_all(scope, prev, visibility, owner);
        crate::scope::lemma_copy_entry(before, k, e, visibility, owner);
        assert forall|j: int| 0 <= j < prev.len() implies prev[j].0 != k by {
            assert(prev[j] == items[j]);
        }
        crate::scope::lemma_names_map_absent(prev, k);
        let merged = glob_merge(scope, crate::scope::names_map(items), visibility, owner);
        assert(copy_all(scope, items, visibility, owner) =~= merged);
    }
}

/// Applies one target's imports, reading names from the previous snapshot `current_scopes` and
/// writing the bindings they introduce into `next_scopes`.
///
/// Named and self imports bind one textual name to each definition their path resolves to, in
/// the namespace of that definition. Glob imports copy every binding of each source module that
/// is visible from the importing module. Either way the new binding carries the import's
/// visibility and the importing module as owner.
pub fn apply_imports(
    state: &TargetState,
    states: &Vec<Vec<TargetState>>,
    current_scopes: &Vec<Vec<Vec<ModuleScope>>>,
    next_scopes: &mut Vec<Vec<Vec<ModuleScope>>>,
)
    requires
        states_wf(states@),
        forall|i: int|
            0 <= i < state.def_map.imports@.len() ==> has_scope(
                scopes_view(old(next_scopes)@),
                ModuleRef { target: state.target, module: (#[trigger] state.def_map.imports@[i]).module },
            ),
    ensures
        scopes_view(final(next_scopes)@) == imports_applied(
            build_model(states@, scopes_view(current_scopes@)),
            state.target,
            state.imports_view(),
            scopes_view(old(next_scopes)@),
        ),
        same_shape(scopes_view(final(next_scopes)@), scopes_view(old(next_scopes)@)),
{
    let ghost model = build_model(states@, scopes_view(current_scopes@));
    let ghost start = scopes_view(next_scopes@);
    let ghost imports = state.imports_view();
    let env = BuildResolutionEnv { states, current_scopes };
    proof {
        lemma_build_model_wf(states@, scopes_view(current_scopes@));
        assert(imports.take(0) =~= Seq::<ImportView>::empty());
    }
    let mut i: usize = 0;
    while i < state.def_map.imports.len()
        invariant
            model == build_model(states@, scopes_view(current_scopes@)),
            model == env.model(),
            model.wf(),
            states_wf(states@),
            imports == state.imports_view(),
            i <= state.def_map.imports.len(),
            forall|j: int|
                0 <= j < state.def_map.imports@.len() ==> has_scope(
                    start,
                    ModuleRef { target: state.target, module: (#[trigger] state.def_map.imports@[j]).module },
                ),
            same_shape(scopes_view(next_scopes@), start),
            scopes_view(next_scopes@) == imports_applied(model, state.target, imports.take(i as int), start),
        decreases state.def_map.imports.len() - i,
    {
        let import = &state.def_map.imports[i];
        let owner = ModuleRef { target: state.target, module: import.module };
        let ghost before = scopes_view(next_scopes@);
        let ghost iv = import_view(*import);
        proof {
            assert(imports.take(i + 1).drop_last() =~= imports.take(i as int));
            assert(imports.take(i + 1).last() == iv);
            assert(has_scope(start, owner));
            lemma_same_shape_has_scope(before, start, owner);
        }
        match import.kind {
            ImportKind::Glob => {
                let sources = resolve_path_to_modules(
                    states,
                    current_scopes,
                    state.target,
                    import.module,
                    &import.path,
                );
                let mut k: usize = 0;
                proof {
                    assert(sources@.take(0) =~= Seq::<ModuleRef>::empty());
                }
                while k < sources.len()
                    invariant
                        model == env.model(),
                        model.wf(),
                        has_scope(before, owner),
                        has_scope(start, owner),
                        same_shape(scopes_view(next_scopes@), start),
                        k <= sources.len(),
                        scopes_view(next_scopes@) == globs_applied(
                            model,
                            owner,
                            sources@.take(k as int),
                            import.visibility@,
                            before,
                        ),
                    decreases sources.len() - k,
                {
                    let ghost before_k = scopes_view(next_scopes@);
                    proof {
                        lemma_same_shape_has_scope(before_k, start, owner);
                        assert(sources@.take(k + 1).drop_last() =~= sources@.take(k as int));
                        assert(sources@.take(k + 1).last() == sources@[k as int]);
                    }
                    let visible = visible_module_scope_entry_set(&env, owner, sources[k]);
                    let ghost items = crate::scope::scope_items(visible@);
                    let ghost target0 = scope_at(before_k, owner);
                    let mut e: usize = 0;
                    proof {
                        assert(items.take(0) =~= Seq::<(Seq<char>, EntryView)>::empty());
                        lemma_with_scope(before_k, owner, target0, target0);
                        assert(with_scope(before_k, owner, target0) =~= before_k) by {
                            let p = owner.target.package.0 as int;
                            let t = owner.target.target.0 as int;
                            assert(with_scope(before_k, owner, target0)[p][t] =~= before_k[p][t]);
                            assert(with_scope(before_k, owner, target0)[p] =~= before_k[p]);
                        }
                    }
                    while e < visible.len()
                        invariant
                            has_scope(before_k, owner),
                            has_scope(start, owner),
                            same_shape(before_k, start),
                            items == crate::scope::scope_items(visible@),
                            target0 == scope_at(before_k, owner),
                            e <= visible.len(),
                            scopes_view(next_scopes@) == with_scope(
                                before_k,
                                owner,
                                copy_all(target0, items.take(e as int), import.visibility@, owner),
                            ),
                        decreases visible.len() - e,
                    {
                        let ghost cur = copy_all(target0, items.take(e as int), import.visibility@, owner);
                        proof {
                            lemma_with_scope(before_k, owner, cur, cur);
                            assert(items.take(e + 1).drop_last() =~= items.take(e as int));
                            assert(items.take(e + 1).last() == (visible@[e as int].name@, visible@[e as int].entry@));
                        }
                        copy_into_scope(next_scopes, owner, &visible[e].name, &visible[e].entry, &import.visibility);
                        proof {
                            let nxt = copy_all(target0, items.take(e + 1), import.visibility@, owner);
                            lemma_with_scope(before_k, owner, cur, nxt);
                        }
                        e = e + 1;
                    }
                    proof {
                        assert(items.take(visible.len() as int) =~= items);
                        lemma_copy_all(target0, items, import.visibility@, owner);
                        lemma_with_scope(before_k, owner, target0, target0);
                        lemma_same_shape_has_scope(scopes_view(next_scopes@), before_k, owner);
                    }
                    k = k + 1;
                }
                proof {
                    assert(sources@.take(sources.len() as int) =~= sources@);
                }
            },
            _ => {
                let defs = resolve_path_to_defs(
                    states,
                    current_scopes,
                    state.target,
                    import.module,
                    &import.path,
                );
                match import.binding_name() {
                    Some(name) => {
                        let mut j: usize = 0;
                        proof {
                            assert(defs@.take(0) =~= Seq::<DefId>::empty());
                        }
                        while j < defs.len()
                            invariant
                                model == build_model(states@, scopes_view(current_scopes@)),
                                has_scope(before, owner),
                                has_scope(start, owner),
                                same_shape(scopes_view(next_scopes@), start),
                                j <= defs.len(),
                                scopes_view(next_scopes@) == named_applied(
                                    model,
                                    owner,
                                    name@,
                                    import.visibility@,
                                    defs@.take(j as int),
                                    before,
                                ),
                            decreases defs.len() - j,
                        {
                            proof {
                                assert(defs@.take(j + 1).drop_last() =~= defs@.take(j as int));
                                assert(defs@.take(j + 1).last() == defs@[j as int]);
                                lemma_same_shape_has_scope(scopes_view(next_scopes@), start, owner);
                            }
                            let ns = namespace_for_def(states, defs[j]);
                            proof {
                                assert(ns == def_namespace(model, defs@[j as int]));
                            }
                            match ns {
                                Some(namespace) => {
                                    let ghost cur = scopes_view(next_scopes@);
                                    insert_into_scope(
                                        next_scopes,
                                        owner,
                                        name,
                                        namespace,
                                        ScopeBinding {
                                            def: defs[j],
                                            visibility: import.visibility.duplicate(),
                                            owner,
                                        },
                                    );
                                    proof {
                                        lemma_with_scope(cur, owner, scope_at(cur, owner), scope_at(cur, owner));
                                    }
                                },
                                None => {},
                            }
                            j = j + 1;
                        }
                        proof {
                            assert(defs@.take(defs.len() as int) =~= defs@);
                        }
                    },
                    None => {},
                }
            },
        }
        i = i + 1;
    }
    proof {
        assert(imports.take(state.def_map.imports.len() as int) =~= imports);
    }
}


// ---------------------------------------------------------------------------------------------
// Rounds and the fixed point
// ---------------------------------------------------------------------------------------------

/// `acc` after applying the imports of the first `n` targets of one package.
pub open spec fn round_package(model: EnvModel, package: Seq<TargetState>, n: int, acc: ScopesView) -> ScopesView
    decreases n,
{
    if n <= 0 {
        acc
    } else {
        let state = package[n - 1];
        imports_applied(model, state.target, state.imports_view(), round_package(model, package, n - 1, acc))
    }
}

/// `acc` after applying the imports of every target of the first `n` packages.
pub open spec fn round_packages(model: EnvModel, states: Seq<Vec<TargetState>>, n: int, acc: ScopesView) -> ScopesView
    decreases n,
{
    if n <= 0 {
        acc
    } else {
        round_package(model, states[n - 1]@, states[n - 1]@.len() as int, round_packages(model, states, n - 1, acc))
    }
}

/// One round: start from the directly declared names and layer the bindings of every import,
/// resolved against the snapshot `current`.
pub open spec fn import_round(states: Seq<Vec<TargetState>>, current: ScopesView) -> ScopesView {
    round_packages(build_model(states, current), states, states.len() as int, states_base(states))
}

/// The snapshot after `k` rounds, starting from the directly declared names.
pub open spec fn scopes_after(states: Seq<Vec<TargetState>>, k: nat) -> ScopesView
    decreases k,
{
    if k == 0 {
        states_base(states)
    } else {
        import_round(states, scopes_after(states, (k - 1) as nat))
    }
}

/// One more round after `k` rounds changes nothing.
pub open spec fn is_fixpoint(states: Seq<Vec<TargetState>>, k: nat) -> bool {
    import_round(states, scopes_after(states, k)) == scopes_after(states, k)
}

/// Once a round changes nothing, no later round does.
pub proof fn lemma_fixpoint_stays(states: Seq<Vec<TargetState>>, i: nat, j: nat)
    requires
        is_fixpoint(states, i),
        i <= j,
    ensures
        scopes_after(states, j) == scopes_after(states, i),
        is_fixpoint(states, j),
    decreases j - i,
{
    if j > i {
        lemma_fixpoint_stays(states, i, (j - 1) as nat);
    }
}

/// Copies the directly declared scopes of every target.
pub fn base_scope_snapshot(states: &Vec<Vec<TargetState>>) -> (r: Vec<Vec<Vec<ModuleScope>>>)
    ensures
        scopes_view(r@) == states_base(states@),
{
    let mut out: Vec<Vec<Vec<ModuleScope>>> = Vec::new();
    let mut p: usize = 0;
    while p < states.len()
        invariant
            p <= states.len(),
            out@.len() == p,
            forall|q: int| 0 <= q < p ==> #[trigger] package_scopes_view(out@[q]) == states_base(states@)[q],
        decreases states.len() - p,
    {
        let mut package: Vec<Vec<ModuleScope>> = Vec::new();
        let mut t: usize = 0;
        while t < states[p].len()
            invariant
                p < states.len(),
                t <= states@[p as int]@.len(),
                package@.len() == t,
                forall|u: int|
                    0 <= u < t ==> #[trigger] target_scopes_view(package@[u]) == states@[p as int]@[u].base_view(),
            decreases states@[p as int]@.len() - t,
        {
            let base = &states[p][t].base_scopes;
            let mut scopes: Vec<ModuleScope> = Vec::new();
            let mut m: usize = 0;
            while m < base.len()
                invariant
                    m <= base.len(),
                    scopes@.len() == m,
                    forall|n: int| 0 <= n < m ==> #[trigger] scopes@[n]@ == base@[n]@,
                decreases base.len() - m,
            {
                scopes.push(base[m].duplicate());
                m = m + 1;
            }
            assert(target_scopes_view(scopes) =~= target_scopes_view(*base));
            package.push(scopes);
            t = t + 1;
        }
        assert(package_scopes_view(package) =~= states_base(states@)[p as int]);
        out.push(package);
        p = p + 1;
    }
    assert(scopes_view(out@) =~= states_base(states@));
    out
}

fn target_scopes_equal(a: &Vec<ModuleScope>, b: &Vec<ModuleScope>) -> (r: bool)
    ensures
        r == (target_scopes_view(*a) == target_scopes_view(*b)),
{
    if a.len() != b.len() {
        proof {
            if target_scopes_view(*a) == target_scopes_view(*b) {
                assert(target_scopes_view(*a).len() == a@.len());
            }
        }
        return false;
    }
    let mut m: usize = 0;
    while m < a.len()
        invariant
            a@.len() == b@.len(),
            m <= a.len(),
            forall|n: int| 0 <= n < m ==> #[trigger] a@[n]@ == b@[n]@,
        decreases a.len() - m,
    {
        if !a[m].same_as(&b[m]) {
            proof {
                if target_scopes_view(*a) == target_scopes_view(*b) {
                    assert(target_scopes_view(*a)[m as int] == a@[m as int]@);
                    assert(target_scopes_view(*b)[m as int] == b@[m as int]@);
                }
            }
            return false;
        }
        m = m + 1;
    }
    assert(target_scopes_view(*a) =~= target_scopes_view(*b));
    true
}

fn package_scopes_equal(a: &Vec<Vec<ModuleScope>>, b: &Vec<Vec<ModuleScope>>) -> (r: bool)
    ensures
        r == (package_scopes_view(*a) == package_scopes_view(*b)),
{
    if a.len() != b.len() {
        proof {
            if package_scopes_view(*a) == package_scopes_view(*b) {
                assert(package_scopes_view(*a).len() == a@.len());
            }
        }
        return false;
    }
    let mut t: usize = 0;
    while t < a.len()
        invariant
            a@.len() == b@.len(),
            t <= a.len(),
            forall|u: int| 0 <= u < t ==> #[trigger] target_scopes_view(a@[u]) == target_scopes_view(b@[u]),
        decreases a.len() - t,
    {
        if !target_scopes_equal(&a[t], &b[t]) {
            proof {
                if package_scopes_view(*a) == package_scopes_view(*b) {
                    assert(package_scopes_view(*a)[t as int] == target_scopes_view(a@[t as int]));
                    assert(package_scopes_view(*b)[t as int] == target_scopes_view(b@[t as int]));
                }
            }
            return false;
        }
        t = t + 1;
    }
    assert(package_scopes_view(*a) =~= package_scopes_view(*b));
    true
}

/// Whether two snapshots hold the same scopes.
fn scopes_equal(a: &Vec<Vec<Vec<ModuleScope>>>, b: &Vec<Vec<Vec<ModuleScope>>>) -> (r: bool)
    ensures
        r == (scopes_view(a@) == scopes_view(b@)),
{
    if a.len() != b.len() {
        proof {
            if scopes_view(a@) == scopes_view(b@) {
                assert(scopes_view(a@).len() == a@.len());
            }
        }
        return false;
    }
    let mut p: usize = 0;
    while p < a.len()
        invariant
            a@.len() == b@.len(),
            p <= a.len(),
            forall|q: int| 0 <= q < p ==> #[trigger] package_scopes_view(a@[q]) == package_scopes_view(b@[q]),
        decreases a.len() - p,
    {
        if !package_scopes_equal(&a[p], &b[p]) {
            proof {
                if scopes_view(a@) == scopes_view(b@) {
                    assert(scopes_view(a@)[p as int] == package_scopes_view(a@[p as int]));
                    assert(scopes_view(b@)[p as int] == package_scopes_view(b@[p as int]));
                }
            }
            return false;
        }
        p = p + 1;
    }
    assert(scopes_view(a@) =~= scopes_view(b@));
    true
}

/// Every import of every target owns a module that the base snapshot has a scope for.
proof fn lemma_import_owners_have_scopes(states: Seq<Vec<TargetState>>, p: int, t: int, i: int)
    requires
        states_wf(states),
        0 <= p < states.len(),
        0 <= t < states[p]@.len(),
        0 <= i < states[p]@[t].def_map.imports@.len(),
        p <= usize::MAX,
        t <= usize::MAX,
    ensures
        has_scope(
            states_base(states),
            ModuleRef { target: states[p]@[t].target, module: states[p]@[t].def_map.imports@[i].module },
        ),
{
    assert(state_wf(states[p]@[t], p, t));
    let base = states_base(states);
    let state = states[p]@[t];
    assert(base[p][t] == state.base_view());
    assert(state.def_map.imports@[i].module.0 < state.def_map.modules@.len());
    assert(state.target.package.0 as int == p);
    assert(state.target.target.0 as int == t);
}

/// Runs one round of import resolution against `current_scopes`.
fn run_import_round(
    states: &Vec<Vec<TargetState>>,
    current_scopes: &Vec<Vec<Vec<ModuleScope>>>,
) -> (r: Vec<Vec<Vec<ModuleScope>>>)
    requires
        states_wf(states@),
    ensures
        scopes_view(r@) == import_round(states@, scopes_view(current_scopes@)),
        same_shape(scopes_view(r@), states_base(states@)),
{
    let ghost model = build_model(states@, scopes_view(current_scopes@));
    let mut next = base_scope_snapshot(states);
    let ghost base = scopes_view(next@);
    let mut p: usize = 0;
    while p < states.len()
        invariant
            model == build_model(states@, scopes_view(current_scopes@)),
            states_wf(states@),
            base == states_base(states@),
            p <= states.len(),
            same_shape(scopes_view(next@), base),
            scopes_view(next@) == round_packages(model, states@, p as int, base),
        decreases states.len() - p,
    {
        let ghost before_p = scopes_view(next@);
        let mut t: usize = 0;
        while t < states[p].len()
            invariant
                model == build_model(states@, scopes_view(current_scopes@)),
                states_wf(states@),
                base == states_base(states@),
                p < states.len(),
                t <= states@[p as int]@.len(),
                same_shape(scopes_view(next@), base),
                scopes_view(next@) == round_package(model, states@[p as int]@, t as int, before_p),
            decreases states@[p as int]@.len() - t,
        {
            proof {
                assert forall|i: int|
                    0 <= i < states@[p as int]@[t as int].def_map.imports@.len() implies has_scope(
                        scopes_view(next@),
                        ModuleRef {
                            target: states@[p as int]@[t as int].target,
                            module: (#[trigger] states@[p as int]@[t as int].def_map.imports@[i]).module,
                        },
                    ) by {
                    lemma_import_owners_have_scopes(states@, p as int, t as int, i);
                    lemma_same_shape_has_scope(
                        scopes_view(next@),
                        base,
                        ModuleRef {
                            target: states@[p as int]@[t as int].target,
                            module: states@[p as int]@[t as int].def_map.imports@[i].module,
                        },
                    );
                }
            }
            apply_imports(&states[p][t], states, current_scopes, &mut next);
            t = t + 1;
        }
        p = p + 1;
    }
    next
}


// ---------------------------------------------------------------------------------------------
// Unresolved imports
// ---------------------------------------------------------------------------------------------

/// Whether an import of `target` resolves to nothing against `scopes`: a glob import when its
/// path denotes no module, a named or self import when its path denotes nothing at all.
pub open spec fn import_unresolved(
    states: Seq<Vec<TargetState>>,
    scopes: ScopesView,
    target: TargetRef,
    import: ImportView,
) -> bool {
    let model = build_model(states, scopes);
    let owner = ModuleRef { target, module: import.module };
    match import.kind {
        ImportKind::Glob => path_modules(model, owner, import.path).len() == 0,
        _ => resolve_path(model, owner, import.path.absolute, import.path.segments, false).resolved.len() == 0,
    }
}

/// Ids, in order, of the unresolved imports among the first `n` imports of `state` that
/// `module` owns.
pub open spec fn unresolved_in_module(
    states: Seq<Vec<TargetState>>,
    scopes: ScopesView,
    state: TargetState,
    module: ModuleId,
    n: int,
) -> Seq<ImportId>
    decreases n,
{
    if n <= 0 {
        Seq::empty()
    } else {
        let before = unresolved_in_module(states, scopes, state, module, n - 1);
        let import = state.imports_view()[n - 1];
        if import.module == module && import_unresolved(states, scopes, state.target, import) {
            before.push(ImportId((n - 1) as usize))
        } else {
            before
        }
    }
}

/// Checks whether one import failed to resolve against the final scopes, whether or not it
/// introduces a binding.
pub fn import_is_unresolved(
    state: &TargetState,
    states: &Vec<Vec<TargetState>>,
    final_scopes: &Vec<Vec<Vec<ModuleScope>>>,
    import: &ImportData,
) -> (r: bool)
    requires
        states_wf(states@),
    ensures
        r == import_unresolved(states@, scopes_view(final_scopes@), state.target, import_view(*import)),
{
    match import.kind {
        ImportKind::Glob => resolve_path_to_modules(
            states,
            final_scopes,
            state.target,
            import.module,
            &import.path,
        ).len() == 0,
        _ => resolve_path_to_defs(states, final_scopes, state.target, import.module, &import.path).len()
            == 0,
    }
}

/// Groups, per target and module, the imports that still resolve to nothing.
pub fn collect_unresolved_imports(
    states: &Vec<Vec<TargetState>>,
    final_scopes: &Vec<Vec<Vec<ModuleScope>>>,
) -> (r: Vec<Vec<Vec<Vec<ImportId>>>>)
    requires
        states_wf(states@),
    ensures
        r@.len() == states@.len(),
        forall|p: int| 0 <= p < r@.len() ==> #[trigger] r@[p]@.len() == states@[p]@.len(),
        forall|p: int, t: int|
            0 <= p < r@.len() && 0 <= t < r@[p]@.len() ==> #[trigger] r@[p]@[t]@.len()
                == states@[p]@[t].def_map.modules@.len(),
        forall|p: int, t: int, m: int|
            0 <= p < r@.len() && 0 <= t < r@[p]@.len() && 0 <= m < r@[p]@[t]@.len()
                ==> #[trigger] r@[p]@[t]@[m]@ == unresolved_in_module(
                states@,
                scopes_view(final_scopes@),
                states@[p]@[t],
                ModuleId(m as usize),
                states@[p]@[t].def_map.imports@.len() as int,
            ),
{
    let ghost scopes = scopes_view(final_scopes@);
    let mut out: Vec<Vec<Vec<Vec<ImportId>>>> = Vec::new();
    let mut p: usize = 0;
    while p < states.len()
        invariant
            states_wf(states@),
            scopes == scopes_view(final_scopes@),
            p <= states.len(),
            out@.len() == p,
            forall|q: int| 0 <= q < p ==> #[trigger] out@[q]@.len() == states@[q]@.len(),
            forall|q: int, t: int|
                0 <= q < p && 0 <= t < out@[q]@.len() ==> #[trigger] out@[q]@[t]@.len()
                    == states@[q]@[t].def_map.modules@.len(),
            forall|q: int, t: int, m: int|
                0 <= q < p && 0 <= t < out@[q]@.len() && 0 <= m < out@[q]@[t]@.len()
                    ==> #[trigger] out@[q]@[t]@[m]@ == unresolved_in_module(
                    states@,
                    scopes,
                    states@[q]@[t],
                    ModuleId(m as usize),
                    states@[q]@[t].def_map.imports@.len() as int,
                ),
        decreases states.len() - p,
    {
        let mut package: Vec<Vec<Vec<ImportId>>> = Vec::new();
        let mut t: usize = 0;
        while t < states[p].len()
            invariant
                states_wf(states@),
                scopes == scopes_view(final_scopes@),
                p < states.len(),
                t <= states@[p as int]@.len(),
                package@.len() == t,
                forall|u: int|
                    0 <= u < t ==> #[trigger] package@[u]@.len() == states@[p as int]@[u].def_map.modules@.len(),
                forall|u: int, m: int|
                    0 <= u < t && 0 <= m < package@[u]@.len() ==> #[trigger] package@[u]@[m]@
                        == unresolved_in_module(
                        states@,
                        scopes,
                        states@[p as int]@[u],
                        ModuleId(m as usize),
                        states@[p as int]@[u].def_map.imports@.len() as int,
                    ),
            decreases states@[p as int]@.len() - t,
        {
            let state = &states[p][t];
            let n_modules = state.def_map.modules.len();
            let mut module_imports: Vec<Vec<ImportId>> = Vec::new();
            let mut m: usize = 0;
            while m < n_modules
                invariant
                    m <= n_modules,
                    module_imports@.len() == m,
                    forall|n: int| 0 <= n < m ==> #[trigger] module_imports@[n]@.len() == 0,
                decreases n_modules - m,
            {
                module_imports.push(Vec::new());
                m = m + 1;
            }
            let mut i: usize = 0;
            while i < state.def_map.imports.len()
                invariant
                    states_wf(states@),
                    scopes == scopes_view(final_scopes@),
                    p < states.len(),
                    t < states@[p as int]@.len(),
                    *state == states@[p as int]@[t as int],
                    state_wf(*state, p as int, t as int),
                    n_modules == state.def_map.modules@.len(),
                    i <= state.def_map.imports.len(),
                    module_imports@.len() == n_modules,
                    forall|n: int|
                        0 <= n < n_modules ==> #[trigger] module_imports@[n]@ == unresolved_in_module(
                            states@,
                            scopes,
                            *state,
                            ModuleId(n as usize),
                            i as int,
                        ),
                decreases state.def_map.imports.len() - i,
            {
                let import = &state.def_map.imports[i];
                let unresolved = import_is_unresolved(state, states, final_scopes, import);
                proof {
                    assert(state.imports_view()[i as int] == import_view(*import));
                    assert(import.module.0 < n_modules);
                }
                if unresolved {
                    let mi = import.module.0;
                    module_imports[mi].push(ImportId(i));
                }
                proof {
                    assert forall|n: int| 0 <= n < n_modules implies #[trigger] module_imports@[n]@
                        == unresolved_in_module(states@, scopes, *state, ModuleId(n as usize), i + 1) by {
                        assert(ModuleId(n as usize) == import.module <==> n == import.module.0);
                    }
                }
                i = i + 1;
            }
            package.push(module_imports);
            t = t + 1;
        }
        out.push(package);
        p = p + 1;
    }
    out
}


// ---------------------------------------------------------------------------------------------
// Finalizing scopes
// ---------------------------------------------------------------------------------------------

/// The snapshot at which rounds stop changing anything.
pub open spec fn final_scopes(states: Seq<Vec<TargetState>>) -> ScopesView {
    scopes_after(states, choose|k: nat| is_fixpoint(states, k))
}

/// The final scopes do not depend on which fixed-point round is picked, and one more round of
/// import resolution against them gives them back unchanged.
pub proof fn lemma_final_scopes_fixed(states: Seq<Vec<TargetState>>, k: nat)
    requires
        is_fixpoint(states, k),
    ensures
        final_scopes(states) == scopes_after(states, k),
        import_round(states, final_scopes(states)) == final_scopes(states),
{
    let c = choose|k: nat| is_fixpoint(states, k);
    if c <= k {
        lemma_fixpoint_stays(states, c, k);
    } else {
        lemma_fixpoint_stays(states, k, c);
    }
}

/// `new` is `old` with its scope and unresolved imports replaced.
pub open spec fn module_frozen(old: ModuleData, new: ModuleData, scope: ScopeView, unresolved: Seq<ImportId>) -> bool {
    &&& new.name == old.name
    &&& new.name_span == old.name_span
    &&& new.parent == old.parent
    &&& new.children == old.children
    &&& new.local_defs == old.local_defs
    &&& new.impls == old.impls
    &&& new.imports == old.imports
    &&& new.origin == old.origin
    &&& new.scope@ == scope
    &&& new.unresolved_imports@ == unresolved
}

/// `new` is `old` with every module's scope and unresolved imports taken from the final
/// scopes; nothing else changed.
pub open spec fn state_frozen(
    states: Seq<Vec<TargetState>>,
    scopes: ScopesView,
    old: TargetState,
    new: TargetState,
) -> bool {
    &&& new.target == old.target
    &&& new.target_name == old.target_name
    &&& new.base_scopes == old.base_scopes
    &&& new.implicit_roots == old.implicit_roots
    &&& new.prelude == old.prelude
    &&& new.def_map.root_module == old.def_map.root_module
    &&& new.def_map.extern_prelude == old.def_map.extern_prelude
    &&& new.def_map.prelude == old.def_map.prelude
    &&& new.def_map.local_defs == old.def_map.local_defs
    &&& new.def_map.local_impls == old.def_map.local_impls
    &&& new.def_map.imports == old.def_map.imports
    &&& new.def_map.modules@.len() == old.def_map.modules@.len()
    &&& forall|m: int|
        0 <= m < old.def_map.modules@.len() ==> #[trigger] module_frozen(
            old.def_map.modules@[m],
            new.def_map.modules@[m],
            scopes[old.target.package.0 as int][old.target.target.0 as int][m],
            unresolved_in_module(
                states,
                scopes,
                old,
                ModuleId(m as usize),
                old.def_map.imports@.len() as int,
            ),
        )
}

fn copy_import_ids(ids: &Vec<ImportId>) -> (r: Vec<ImportId>)
    ensures
        r@ == ids@,
{
    let mut out: Vec<ImportId> = Vec::new();
    let mut i: usize = 0;
    while i < ids.len()
        invariant
            i <= ids.len(),
            out@ == ids@.take(i as int),
        decreases ids.len() - i,
    {
        out.push(ids[i]);
        proof {
            assert(out@ =~= ids@.take(i + 1));
        }
        i = i + 1;
    }
    assert(ids@.take(ids.len() as int) =~= ids@);
    out
}

/// A snapshot shaped like the base scopes has one scope per module of every target.
proof fn lemma_snapshot_lens(states: Seq<Vec<TargetState>>, current: Seq<Vec<Vec<ModuleScope>>>)
    requires
        states_wf(states),
        same_shape(scopes_view(current), states_base(states)),
    ensures
        current.len() == states.len(),
        forall|q: int| 0 <= q < states.len() ==> #[trigger] current[q]@.len() == states[q]@.len(),
        forall|q: int, t: int|
            0 <= q < states.len() && 0 <= t < states[q]@.len() ==> #[trigger] current[q]@[t]@.len()
                == states[q]@[t].def_map.modules@.len(),
{
    let cv = scopes_view(current);
    let base = states_base(states);
    assert forall|q: int| 0 <= q < states.len() implies #[trigger] current[q]@.len() == states[q]@.len() by {
        assert(cv[q].len() == base[q].len());
    }
    assert forall|q: int, t: int|
        0 <= q < states.len() && 0 <= t < states[q]@.len() implies #[trigger] current[q]@[t]@.len()
            == states[q]@[t].def_map.modules@.len() by {
        assert(cv[q].len() == base[q].len());
        assert(cv[q][t].len() == base[q][t].len());
        assert(state_wf(states[q]@[t], q, t));
    }
}

/// Writes the final scopes and unresolved imports into one target's modules.
fn freeze_target_scopes(
    state: &mut TargetState,
    scopes: &Vec<ModuleScope>,
    unresolved: &Vec<Vec<ImportId>>,
)
    requires
        old(state).def_map.modules@.len() == scopes@.len(),
        old(state).def_map.modules@.len() == unresolved@.len(),
    ensures
        final(state).target == old(state).target,
        final(state).target_name == old(state).target_name,
        final(state).base_scopes == old(state).base_scopes,
        final(state).implicit_roots == old(state).implicit_roots,
        final(state).prelude == old(state).prelude,
        final(state).def_map.root_module == old(state).def_map.root_module,
        final(state).def_map.extern_prelude == old(state).def_map.extern_prelude,
        final(state).def_map.prelude == old(state).def_map.prelude,
        final(state).def_map.local_defs == old(state).def_map.local_defs,
        final(state).def_map.local_impls == old(state).def_map.local_impls,
        final(state).def_map.imports == old(state).def_map.imports,
        final(state).def_map.modules@.len() == old(state).def_map.modules@.len(),
        forall|m: int|
            0 <= m < scopes@.len() ==> #[trigger] module_frozen(
                old(state).def_map.modules@[m],
                final(state).def_map.modules@[m],
                scopes@[m]@,
                unresolved@[m]@,
            ),
{
    let mut m: usize = 0;
    while m < scopes.len()
        invariant
            m <= scopes.len(),
            state.target == old(state).target,
            state.target_name == old(state).target_name,
            state.base_scopes == old(state).base_scopes,
            state.implicit_roots == old(state).implicit_roots,
            state.prelude == old(state).prelude,
            state.def_map.root_module == old(state).def_map.root_module,
            state.def_map.extern_prelude == old(state).def_map.extern_prelude,
            state.def_map.prelude == old(state).def_map.prelude,
            state.def_map.local_defs == old(state).def_map.local_defs,
            state.def_map.local_impls == old(state).def_map.local_impls,
            state.def_map.imports == old(state).def_map.imports,
            state.def_map.modules@.len() == scopes@.len(),
            unresolved@.len() == scopes@.len(),
            forall|n: int|
                0 <= n < m ==> #[trigger] module_frozen(
                    old(state).def_map.modules@[n],
                    state.def_map.modules@[n],
                    scopes@[n]@,
                    unresolved@[n]@,
                ),
            forall|n: int| m <= n < scopes@.len() ==> #[trigger] state.def_map.modules@[n] == old(state).def_map.modules@[n],
        decreases scopes.len() - m,
    {
        state.def_map.modules[m].scope = scopes[m].duplicate();
        state.def_map.modules[m].unresolved_imports = copy_import_ids(&unresolved[m]);
        m = m + 1;
    }
}

/// Freezes scopes that have reached the import fixed point after `rounds` rounds, with the
/// imports that still resolve to nothing, into the def maps.
fn freeze_final_scopes(states: &mut Vec<Vec<TargetState>>, current: Vec<Vec<Vec<ModuleScope>>>, Ghost(rounds): Ghost<nat>)
    requires
        states_wf(old(states)@),
        is_fixpoint(old(states)@, rounds),
        scopes_view(current@) == scopes_after(old(states)@, rounds),
        same_shape(scopes_view(current@), states_base(old(states)@)),
    ensures
        final(states)@.len() == old(states)@.len(),
        forall|p: int| 0 <= p < old(states)@.len() ==> #[trigger] final(states)@[p]@.len() == old(states)@[p]@.len(),
        forall|p: int, t: int|
            0 <= p < old(states)@.len() && 0 <= t < old(states)@[p]@.len() ==> #[trigger] state_frozen(
                old(states)@,
                final_scopes(old(states)@),
                old(states)@[p]@[t],
                final(states)@[p]@[t],
            ),
        import_round(old(states)@, final_scopes(old(states)@)) == final_scopes(old(states)@),
{
    let ghost original = states@;
    let ghost fin = scopes_view(current@);
    proof {
        lemma_final_scopes_fixed(original, rounds);
        lemma_snapshot_lens(original, current@);
    }
    let unresolved = collect_unresolved_imports(states, &current);
    let mut p: usize = 0;
    while p < states.len()
        invariant
            states_wf(original),
            fin == scopes_view(current@),
            fin == final_scopes(original),
            states@.len() == original.len(),
            p <= states@.len(),
            forall|q: int| 0 <= q < original.len() ==> #[trigger] states@[q]@.len() == original[q]@.len(),
            forall|q: int| p <= q < original.len() ==> #[trigger] states@[q] == original[q],
            forall|q: int, t: int|
                0 <= q < p && 0 <= t < original[q]@.len() ==> #[trigger] state_frozen(
                    original,
                    fin,
                    original[q]@[t],
                    states@[q]@[t],
                ),
            unresolved@.len() == original.len(),
            forall|q: int| 0 <= q < unresolved@.len() ==> #[trigger] unresolved@[q]@.len() == original[q]@.len(),
            forall|q: int, t: int|
                0 <= q < unresolved@.len() && 0 <= t < unresolved@[q]@.len() ==> #[trigger] unresolved@[q]@[t]@.len()
                    == original[q]@[t].def_map.modules@.len(),
            forall|q: int, t: int, m: int|
                0 <= q < unresolved@.len() && 0 <= t < unresolved@[q]@.len() && 0 <= m < unresolved@[q]@[t]@.len()
                    ==> #[trigger] unresolved@[q]@[t]@[m]@ == unresolved_in_module(
                    original,
                    fin,
                    original[q]@[t],
                    ModuleId(m as usize),
                    original[q]@[t].def_map.imports@.len() as int,
                ),
            current@.len() == original.len(),
            forall|q: int| 0 <= q < original.len() ==> #[trigger] current@[q]@.len() == original[q]@.len(),
            forall|q: int, t: int|
                0 <= q < original.len() && 0 <= t < original[q]@.len() ==> #[trigger] current@[q]@[t]@.len()
                    == original[q]@[t].def_map.modules@.len(),
        decreases original.len() - p,
    {
        let mut t: usize = 0;
        while t < states[p].len()
            invariant
                states_wf(original),
                fin == scopes_view(current@),
                states@.len() == original.len(),
                p < states@.len(),
                t <= states@[p as int]@.len(),
                forall|q: int| 0 <= q < original.len() ==> #[trigger] states@[q]@.len() == original[q]@.len(),
                forall|q: int| p < q < original.len() ==> #[trigger] states@[q] == original[q],
                forall|u: int| t <= u < original[p as int]@.len() ==> #[trigger] states@[p as int]@[u] == original[p as int]@[u],
                forall|q: int, u: int|
                    0 <= q < p && 0 <= u < original[q]@.len() ==> #[trigger] state_frozen(
                        original,
                        fin,
                        original[q]@[u],
                        states@[q]@[u],
                    ),
                forall|u: int|
                    0 <= u < t ==> #[trigger] state_frozen(
                        original,
                        fin,
                        original[p as int]@[u],
                        states@[p as int]@[u],
                    ),
                unresolved@.len() == original.len(),
                forall|q: int| 0 <= q < unresolved@.len() ==> #[trigger] unresolved@[q]@.len() == original[q]@.len(),
                forall|q: int, u: int|
                    0 <= q < unresolved@.len() && 0 <= u < unresolved@[q]@.len() ==> #[trigger] unresolved@[q]@[u]@.len()
                        == original[q]@[u].def_map.modules@.len(),
                forall|q: int, u: int, m: int|
                    0 <= q < unresolved@.len() && 0 <= u < unresolved@[q]@.len() && 0 <= m < unresolved@[q]@[u]@.len()
                        ==> #[trigger] unresolved@[q]@[u]@[m]@ == unresolved_in_module(
                        original,
                        fin,
                        original[q]@[u],
                        ModuleId(m as usize),
                        original[q]@[u].def_map.imports@.len() as int,
                    ),
                current@.len() == original.len(),
                forall|q: int| 0 <= q < original.len() ==> #[trigger] current@[q]@.len() == original[q]@.len(),
                forall|q: int, u: int|
                    0 <= q < original.len() && 0 <= u < original[q]@.len() ==> #[trigger] current@[q]@[u]@.len()
                        == original[q]@[u].def_map.modules@.len(),
            decreases original[p as int]@.len() - t,
        {
            let ghost old_state = states@[p as int]@[t as int];
            proof {
                assert(state_wf(original[p as int]@[t as int], p as int, t as int));
                assert(current@[p as int]@[t as int]@.len() == old_state.def_map.modules@.len());
            }
            freeze_target_scopes(&mut states[p][t], &current[p][t], &unresolved[p][t]);
            proof {
                let new_state = states@[p as int]@[t as int];
                assert forall|m: int| 0 <= m < old_state.def_map.modules@.len() implies #[trigger] module_frozen(
                    old_state.def_map.modules@[m],
                    new_state.def_map.modules@[m],
                    fin[old_state.target.package.0 as int][old_state.target.target.0 as int][m],
                    unresolved_in_module(
                        original,
                        fin,
                        old_state,
                        ModuleId(m as usize),
                        old_state.def_map.imports@.len() as int,
                    ),
                ) by {
                    assert(fin[p as int][t as int][m] == current@[p as int]@[t as int]@[m]@);
                    assert(module_frozen(
                        old_state.def_map.modules@[m],
                        new_state.def_map.modules@[m],
                        current@[p as int]@[t as int]@[m]@,
                        unresolved@[p as int]@[t as int]@[m]@,
                    ));
                }
                assert(state_frozen(original, fin, old_state, new_state));
            }
            t = t + 1;
        }
        p = p + 1;
    }
}

/// Resolves imports until every scope stops changing, then freezes the final scopes and the
/// imports that still resolve to nothing into the def maps.
///
/// Each round starts from the directly declared names and layers the bindings of every import,
/// resolved against the previous round's scopes. Imports depend on names that other imports
/// introduce, across modules and targets, so one round is not enough in general.
pub fn finalize_scopes(states: &mut Vec<Vec<TargetState>>)
    requires
        states_wf(old(states)@),
        exists|k: nat| is_fixpoint(old(states)@, k),
    ensures
        final(states)@.len() == old(states)@.len(),
        forall|p: int| 0 <= p < old(states)@.len() ==> #[trigger] final(states)@[p]@.len() == old(states)@[p]@.len(),
        forall|p: int, t: int|
            0 <= p < old(states)@.len() && 0 <= t < old(states)@[p]@.len() ==> #[trigger] state_frozen(
                old(states)@,
                final_scopes(old(states)@),
                old(states)@[p]@[t],
                final(states)@[p]@[t],
            ),
        import_round(old(states)@, final_scopes(old(states)@)) == final_scopes(old(states)@),
{
    let ghost original = states@;
    let ghost goal: nat = choose|k: nat| is_fixpoint(original, k);
    let mut current = base_scope_snapshot(states);
    let ghost mut rounds: nat = 0;
    loop
        invariant
            states@ == original,
            states_wf(original),
            is_fixpoint(original, goal),
            rounds <= goal,
            scopes_view(current@) == scopes_after(original, rounds),
            same_shape(scopes_view(current@), states_base(original)),
        ensures
            states@ == original,
            is_fixpoint(original, rounds),
            scopes_view(current@) == scopes_after(original, rounds),
            same_shape(scopes_view(current@), states_base(original)),
        decreases goal - rounds,
    {
        let next = run_import_round(states, &current);
        if scopes_equal(&next, &current) {
            proof {
                lemma_final_scopes_fixed(original, rounds);
            }
            break;
        }
        proof {
            if rounds == goal {
                assert(false);
            }
        }
        current = next;
        proof {
            rounds = rounds + 1;
        }
    }
    freeze_final_scopes(states, current, Ghost(rounds));
}

/// Resolves imports for at most `max_rounds` rounds. When some round among them changes
/// nothing, freezes the final scopes as [`finalize_scopes`] does and says so; otherwise leaves
/// `states` as they were and says that no fixed point was reached.
pub fn finalize_scopes_within(states: &mut Vec<Vec<TargetState>>, max_rounds: usize) -> (r: bool)
    requires
        states_wf(old(states)@),
    ensures
        r <==> exists|k: nat| k < max_rounds && #[trigger] is_fixpoint(old(states)@, k),
        !r ==> final(states)@ == old(states)@,
        r ==> {
            &&& final(states)@.len() == old(states)@.len()
            &&& forall|p: int| 0 <= p < old(states)@.len() ==> #[trigger] final(states)@[p]@.len() == old(states)@[p]@.len()
            &&& forall|p: int, t: int|
                0 <= p < old(states)@.len() && 0 <= t < old(states)@[p]@.len() ==> #[trigger] state_frozen(
                    old(states)@,
                    final_scopes(old(states)@),
                    old(states)@[p]@[t],
                    final(states)@[p]@[t],
                )
            &&& import_round(old(states)@, final_scopes(old(states)@)) == final_scopes(old(states)@)
        },
{
    let ghost original = states@;
    let mut current = base_scope_snapshot(states);
    let mut rounds: usize = 0;
    let mut found = false;
    while rounds < max_rounds && !found
        invariant
            states@ == original,
            states_wf(original),
            rounds <= max_rounds,
            scopes_view(current@) == scopes_after(original, rounds as nat),
            same_shape(scopes_view(current@), states_base(original)),
            found ==> is_fixpoint(original, rounds as nat) && rounds < max_rounds,
            forall|k: nat| k < rounds && !(found && k == rounds) ==> !#[trigger] is_fixpoint(original, k),
        decreases max_rounds - rounds + if found { 0int } else { 1int },
    {
        let next = run_import_round(states, &current);
        if scopes_equal(&next, &current) {
            found = true;
        } else {
            current = next;
            rounds = rounds + 1;
        }
    }
    if !found {
        proof {
            assert forall|k: nat| k < max_rounds implies !#[trigger] is_fixpoint(original, k) by {}
        }
        return false;
    }
    freeze_final_scopes(states, current, Ghost(rounds as nat));
    true
}

} // verus!
