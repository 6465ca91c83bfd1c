//! Turning finalized target states into frozen def maps, and back.
//!
//! A clean build finalizes freshly collected target states. A package-scoped rebuild turns the
//! previous frozen def maps into states whose final scopes act as base scopes and whose imports
//! are cleared, so that only the rebuilt packages re-enter import resolution.

use vstd::prelude::*;
use vstd::string::*;

use crate::db::{DefMapDb, Package, PackageEntry};
use crate::def_map::{
    DefMap, copy_extern_roots, def_map_copy, lemma_def_map_copy,
};
use crate::ids::{ModuleRef, PackageSlot, TargetRef};
use crate::imports::{
    ScopesView, TargetState, build_model, final_scopes, import_round, is_fixpoint, path_modules,
    resolve_path_to_modules, scopes_view, state_frozen, state_wf, states_base, states_wf,
    target_scopes_view,
};
use crate::path::{Path, PathView};
use crate::scope::ModuleScope;
use crate::text::{TargetId, decimal, push_decimal};

verus! {

/// The def map a finalized target state freezes into: its collected def map, with the implicit
/// roots kept as extern prelude and the selected standard prelude.
pub open spec fn frozen_def_map(state: TargetState) -> DefMap {
    DefMap { extern_prelude: state.implicit_roots, prelude: state.prelude, ..state.def_map }
}

/// Freezes one finalized target state into the def map that queries read.
///
/// The implicit roots used by import resolution are still needed by later path queries, so they
/// are kept as the extern prelude rather than as child modules of the crate root.
pub fn freeze_target_state(state: &TargetState) -> (r: DefMap)
    ensures
        def_map_copy(r, frozen_def_map(*state)),
        r.model() == state.model(),
        r.scopes() == state.def_map.scopes(),
{
    let mut def_map = state.def_map.duplicate();
    def_map.set_extern_prelude(copy_extern_roots(&state.implicit_roots));
    def_map.set_prelude(state.prelude);
    proof {
        lemma_def_map_copy(def_map, frozen_def_map(*state));
        assert(frozen_def_map(*state).model() =~= state.model());
    }
    def_map
}

/// `slots` in increasing order without repetition.
pub open spec fn strictly_increasing(slots: Seq<PackageSlot>) -> bool {
    forall|i: int, j: int| 0 <= i < j < slots.len() ==> slots[i].0 < slots[j].0
}

/// Sorts package slots and removes repeated ones.
pub fn normalized_package_slots(packages: &Vec<PackageSlot>) -> (r: Vec<PackageSlot>)
    ensures
        strictly_increasing(r@),
        r@.to_set() == packages@.to_set(),
{
    let mut out: Vec<PackageSlot> = Vec::new();
    let mut i: usize = 0;
    while i < packages.len()
        invariant
            i <= packages.len(),
            strictly_increasing(out@),
            out@.to_set() == packages@.take(i as int).to_set(),
        decreases packages.len() - i,
    {
        let slot = packages[i];
        let mut pos: usize = 0;
        while pos < out.len() && out[pos].0 < slot.0
            invariant
                pos <= out.len(),
                strictly_increasing(out@),
                forall|j: int| 0 <= j < pos ==> out@[j].0 < slot.0,
            decreases out.len() - pos,
        {
            pos = pos + 1;
        }
        let ghost before = out@;
        if pos < out.len() && out[pos].0 == slot.0 {
            proof {
                assert(out@[pos as int] == slot);
                assert(packages@.take(i + 1) =~= packages@.take(i as int).push(slot));
                assert(out@.to_set() =~= packages@.take(i + 1).to_set());
            }
        } else {
            out.insert(pos, slot);
            proof {
                assert(packages@.take(i + 1) =~= packages@.take(i as int).push(slot));
                assert(out@ =~= before.subrange(0, pos as int).push(slot) + before.subrange(pos as int, before.len() as int));
                assert forall|a: int, b: int| 0 <= a < b < out@.len() implies out@[a].0 < out@[b].0 by {
                    if b < pos {
                        assert(out@[a] == before[a] && out@[b] == before[b]);
                    } else if b == pos {
                        assert(out@[a] == before[a]);
                    } else if a < pos {
                        assert(out@[a] == before[a] && out@[b] == before[b - 1]);
                    } else if a == pos {
                        assert(out@[b] == before[b - 1]);
                    } else {
                        assert(out@[a] == before[a - 1] && out@[b] == before[b - 1]);
                    }
                }
                assert forall|x: PackageSlot| out@.contains(x) == (before.contains(x) || x == slot) by {
                    if out@.contains(x) {
                        let k = choose|k: int| 0 <= k < out@.len() && out@[k] == x;
                        if k < pos {
                            assert(before[k] == x);
                        } else if k > pos {
                            assert(before[k - 1] == x);
                        }
                    }
                    if before.contains(x) {
                        let k = choose|k: int| 0 <= k < before.len() && before[k] == x;
                        if k < pos {
                            assert(out@[k] == x);
                        } else {
                            assert(out@[k + 1] == x);
                        }
                    }
                    if x == slot {
                        assert(out@[pos as int] == x);
                    }
                }
                assert forall|x: PackageSlot| packages@.take(i + 1).contains(x) == (packages@.take(i as int).contains(x) || x == slot) by {
                    let longer = packages@.take(i + 1);
                    let shorter = packages@.take(i as int);
                    if longer.contains(x) {
                        let k = choose|k: int| 0 <= k < longer.len() && longer[k] == x;
                        if k < i {
                            assert(shorter[k] == x);
                        }
                    }
                    if shorter.contains(x) {
                        let k = choose|k: int| 0 <= k < shorter.len() && shorter[k] == x;
                        assert(longer[k] == x);
                    }
                    if x == slot {
                        assert(longer[i as int] == x);
                    }
                }
                assert forall|x: PackageSlot| #[trigger] out@.to_set().contains(x) == packages@.take(i + 1).to_set().contains(x) by {
                    assert(before.to_set().contains(x) == packages@.take(i as int).to_set().contains(x));
                }
                assert(out@.to_set() =~= packages@.take(i + 1).to_set());
            }
        }
        i = i + 1;
    }
    assert(packages@.take(packages.len() as int) =~= packages@);
    out
}


/// The name used for a target whose package records no crate name for it.
pub open spec fn fallback_target_name(package: nat, target: nat) -> Seq<char> {
    "package "@ + decimal(package) + " target "@ + decimal(target)
}

fn fallback_target_name_string(package: usize, target: usize) -> (r: String)
    ensures
        r@ == fallback_target_name(package as nat, target as nat),
{
    let mut name = String::from_str("package ");
    push_decimal(&mut name, package);
    name.append(" target ");
    push_decimal(&mut name, target);
    name
}

/// The crate name of target `t` of a package, or a name made from its slots.
pub open spec fn target_name_or_fallback(package: Package, p: nat, t: nat) -> Seq<char> {
    if t < package.target_names@.len() {
        package.target_names@[t as int]@
    } else {
        fallback_target_name(p, t)
    }
}

/// `state` stands for target `t` of the frozen `package` at slot `p`: its final scopes are the
/// base scopes, its roots and prelude are the frozen ones, and it has no imports left.
pub open spec fn frozen_state_of(package: Package, p: nat, t: nat, state: TargetState) -> bool {
    let def_map = package.targets@[t as int];
    &&& state.target == (TargetRef { package: PackageSlot(p as usize), target: TargetId(t as usize) })
    &&& state.target_name@ == target_name_or_fallback(package, p, t)
    &&& target_scopes_view(state.base_scopes) == def_map.scopes()
    &&& state.implicit_roots@ == def_map.extern_prelude@
    &&& state.prelude == def_map.prelude
    &&& def_map_copy(state.def_map, DefMap { imports: state.def_map.imports, ..def_map })
    &&& state.def_map.imports@.len() == 0
}

/// Number of targets of a package entry; offloaded packages hold none.
pub open spec fn entry_target_count(entry: PackageEntry) -> nat {
    match entry {
        PackageEntry::Resident(p) => p.targets@.len(),
        PackageEntry::Offloaded => 0,
    }
}

/// Turns the frozen def maps of a previous build into target states for a rebuild: final
/// scopes become base scopes, and imports are cleared so that import resolution does not
/// process them again. Offloaded packages contribute no targets.
pub fn frozen_target_states(old: &DefMapDb) -> (r: Vec<Vec<TargetState>>)
    ensures
        r@.len() == old.entries().len(),
        forall|p: int| 0 <= p < r@.len() ==> #[trigger] r@[p]@.len() == entry_target_count(old.entries()[p]),
        forall|p: int, t: int|
            0 <= p < r@.len() && 0 <= t < r@[p]@.len() ==> #[trigger] frozen_state_of(
                *(old.entries()[p]->Resident_0),
                p as nat,
                t as nat,
                r@[p]@[t],
            ),
        states_wf(r@),
{
    proof {
        use_type_invariant(old);
    }
    let mut out: Vec<Vec<TargetState>> = Vec::new();
    let count = old.package_count();
    let mut p: usize = 0;
    while p < count
        invariant
            count == old.entries().len(),
            p <= count,
            out@.len() == p,
            forall|q: int| 0 <= q < p ==> #[trigger] out@[q]@.len() == entry_target_count(old.entries()[q]),
            forall|q: int, t: int|
                0 <= q < p && 0 <= t < out@[q]@.len() ==> #[trigger] frozen_state_of(
                    *(old.entries()[q]->Resident_0),
                    q as nat,
                    t as nat,
                    out@[q]@[t],
                ),
            forall|q: int, t: int|
                0 <= q < p && 0 <= t < out@[q]@.len() ==> #[trigger] state_wf(out@[q]@[t], q, t),
        decreases count - p,
    {
        let mut states: Vec<TargetState> = Vec::new();
        match old.resident_package(PackageSlot(p)) {
            Some(package) => {
                let mut t: usize = 0;
                while t < package.targets.len()
                    invariant
                        p < count,
                        count == old.entries().len(),
                        crate::db::resident_is(old.entries()[p as int], *package),
                        package.wf(),
                        t <= package.targets.len(),
                        states@.len() == t,
                        forall|u: int|
                            0 <= u < t ==> #[trigger] frozen_state_of(*package, p as nat, u as nat, states@[u]),
                        forall|u: int| 0 <= u < t ==> #[trigger] state_wf(states@[u], p as int, u),
                    decreases package.targets.len() - t,
                {
                    let def_map = &package.targets[t];
                    let target_name = match package.target_name(TargetId(t)) {
                        Some(name) => name.clone(),
                        None => fallback_target_name_string(p, t),
                    };
                    let mut base_scopes: Vec<ModuleScope> = Vec::new();
                    let mut m: usize = 0;
                    while m < def_map.modules.len()
                        invariant
                            m <= def_map.modules.len(),
                            base_scopes@.len() == m,
                            forall|n: int| 0 <= n < m ==> #[trigger] base_scopes@[n]@ == def_map.modules@[n].scope@,
                        decreases def_map.modules.len() - m,
                    {
                        base_scopes.push(def_map.modules[m].scope.duplicate());
                        m = m + 1;
                    }
                    let mut env_def_map = def_map.duplicate();
                    env_def_map.imports = Vec::new();
                    let state = TargetState {
                        target: TargetRef { package: PackageSlot(p), target: TargetId(t) },
                        target_name,
                        base_scopes,
                        implicit_roots: copy_extern_roots(&def_map.extern_prelude),
                        prelude: def_map.prelude,
                        def_map: env_def_map,
                    };
                    proof {
                        assert(target_scopes_view(state.base_scopes) =~= def_map.scopes());
                        assert(def_map.model().parents_precede());
                        lemma_def_map_copy(env_def_map, DefMap { imports: env_def_map.imports, ..*def_map });
                        assert(state.model() =~= def_map.model());
                        assert(frozen_state_of(*package, p as nat, t as nat, state));
                        assert(state_wf(state, p as int, t as int));
                    }
                    states.push(state);
                    t = t + 1;
                }
            },
            None => {},
        }
        out.push(states);
        p = p + 1;
    }
    out
}


/// The standard prelude module a target resolves `prelude` to from its crate root, against
/// the directly declared scopes: the first module the path denotes, if any.
pub open spec fn selected_prelude(states: Seq<Vec<TargetState>>, state: TargetState, prelude: PathView) -> Option<ModuleRef> {
    match state.def_map.root_module {
        Some(root) => {
            let modules = path_modules(
                build_model(states, states_base(states)),
                ModuleRef { target: state.target, module: root },
                prelude,
            );
            if modules.len() > 0 {
                Some(modules[0])
            } else {
                None
            }
        },
        None => None,
    }
}

/// `new` is `old` with the prelude of every target of package `p` set to the module that the
/// package's prelude path resolves to.
pub open spec fn preludes_selected(
    old: Seq<Vec<TargetState>>,
    new: Seq<Vec<TargetState>>,
    prelude_paths: Seq<Path>,
) -> bool {
    &&& new.len() == old.len()
    &&& forall|p: int| 0 <= p < old.len() ==> #[trigger] new[p]@.len() == old[p]@.len()
    &&& forall|p: int, t: int|
        0 <= p < old.len() && 0 <= t < old[p]@.len() ==> #[trigger] new[p]@[t] == (TargetState {
            prelude: selected_prelude(old, old[p]@[t], prelude_paths[p]@),
            ..old[p]@[t]
        })
}

/// Selects the standard prelude module of every target before ordinary imports are resolved.
///
/// Only the prelude module's path is resolved here, against the directly declared scopes; the
/// prelude is not copied into module scopes but serves as the last fallback of unqualified
/// names.
pub fn select_preludes(prelude_paths: &Vec<Path>, states: &mut Vec<Vec<TargetState>>)
    requires
        states_wf(old(states)@),
        prelude_paths@.len() >= old(states)@.len(),
    ensures
        preludes_selected(old(states)@, final(states)@, prelude_paths@),
        states_wf(final(states)@),
{
    let ghost given = states@;
    let base_scopes = crate::imports::base_scope_snapshot(states);
    let mut selected: Vec<Vec<Option<ModuleRef>>> = Vec::new();
    let mut p: usize = 0;
    while p < states.len()
        invariant
            states@ == given,
            states_wf(given),
            scopes_view(base_scopes@) == states_base(given),
            p <= states.len(),
            prelude_paths@.len() >= given.len(),
            selected@.len() == p,
            forall|q: int| 0 <= q < p ==> #[trigger] selected@[q]@.len() == given[q]@.len(),
            forall|q: int, t: int|
                0 <= q < p && 0 <= t < given[q]@.len() ==> #[trigger] selected@[q]@[t] == selected_prelude(
                    given,
                    given[q]@[t],
                    prelude_paths@[q]@,
                ),
        decreases states.len() - p,
    {
        let mut package: Vec<Option<ModuleRef>> = Vec::new();
        let mut t: usize = 0;
        while t < states[p].len()
            invariant
                states@ == given,
                states_wf(given),
                scopes_view(base_scopes@) == states_base(given),
                p < states.len(),
                prelude_paths@.len() >= given.len(),
                t <= given[p as int]@.len(),
                package@.len() == t,
                forall|u: int|
                    0 <= u < t ==> #[trigger] package@[u] == selected_prelude(
                        given,
                        given[p as int]@[u],
                        prelude_paths@[p as int]@,
                    ),
            decreases given[p as int]@.len() - t,
        {
            let state = &states[p][t];
            let prelude = match state.def_map.root_module() {
                Some(root) => {
                    let modules = resolve_path_to_modules(states, &base_scopes, state.target, root, &prelude_paths[p]);
                    if modules.len() > 0 {
                        Some(modules[0])
                    } else {
                        None
                    }
                },
                None => None,
            };
            package.push(prelude);
            t = t + 1;
        }
        selected.push(package);
        p = p + 1;
    }
    let mut p: usize = 0;
    while p < states.len()
        invariant
            states_wf(given),
            states@.len() == given.len(),
            p <= states@.len(),
            selected@.len() == given.len(),
            forall|q: int| 0 <= q < given.len() ==> #[trigger] selected@[q]@.len() == given[q]@.len(),
            forall|q: int, t: int|
                0 <= q < given.len() && 0 <= t < given[q]@.len() ==> #[trigger] selected@[q]@[t]
                    == selected_prelude(given, given[q]@[t], prelude_paths@[q]@),
            forall|q: int| 0 <= q < given.len() ==> #[trigger] states@[q]@.len() == given[q]@.len(),
            forall|q: int| p <= q < given.len() ==> #[trigger] states@[q] == given[q],
            forall|q: int, t: int|
                0 <= q < p && 0 <= t < given[q]@.len() ==> #[trigger] states@[q]@[t] == (TargetState {
                    prelude: selected_prelude(given, given[q]@[t], prelude_paths@[q]@),
                    ..given[q]@[t]
                }),
        decreases given.len() - p,
    {
        let mut t: usize = 0;
        while t < states[p].len()
            invariant
                states@.len() == given.len(),
                p < states@.len(),
                selected@.len() == given.len(),
                forall|q: int| 0 <= q < given.len() ==> #[trigger] selected@[q]@.len() == given[q]@.len(),
                forall|q: int, u: int|
                    0 <= q < given.len() && 0 <= u < given[q]@.len() ==> #[trigger] selected@[q]@[u]
                        == selected_prelude(given, given[q]@[u], prelude_paths@[q]@),
                forall|q: int| 0 <= q < given.len() ==> #[trigger] states@[q]@.len() == given[q]@.len(),
                forall|q: int| p < q < given.len() ==> #[trigger] states@[q] == given[q],
                forall|u: int| t <= u < given[p as int]@.len() ==> #[trigger] states@[p as int]@[u] == given[p as int]@[u],
                forall|q: int, u: int|
                    0 <= q < p && 0 <= u < given[q]@.len() ==> #[trigger] states@[q]@[u] == (TargetState {
                        prelude: selected_prelude(given, given[q]@[u], prelude_paths@[q]@),
                        ..given[q]@[u]
                    }),
                forall|u: int|
                    0 <= u < t ==> #[trigger] states@[p as int]@[u] == (TargetState {
                        prelude: selected_prelude(given, given[p as int]@[u], prelude_paths@[p as int]@),
                        ..given[p as int]@[u]
                    }),
                t <= states@[p as int]@.len(),
            decreases given[p as int]@.len() - t,
        {
            states[p][t].prelude = selected[p][t];
            t = t + 1;
        }
        p = p + 1;
    }
    proof {
        assert forall|q: int, t: int|
            0 <= q < states@.len() && 0 <= t < states@[q]@.len() implies #[trigger] state_wf(states@[q]@[t], q, t) by {
            assert(state_wf(given[q]@[t], q, t));
            assert(states@[q]@[t].model().parents_precede() == given[q]@[t].model().parents_precede());
        }
    }
}


/// `new` holds the states of `old` after import resolution reached its fixed point and the final
/// scopes were frozen into their def maps.
pub open spec fn scopes_finalized(old: Seq<Vec<TargetState>>, new: Seq<Vec<TargetState>>) -> bool {
    &&& new.len() == old.len()
    &&& forall|p: int| 0 <= p < old.len() ==> #[trigger] new[p]@.len() == old[p]@.len()
    &&& forall|p: int, t: int|
        0 <= p < old.len() && 0 <= t < old[p]@.len() ==> #[trigger] state_frozen(
            old,
            final_scopes(old),
            old[p]@[t],
            new[p]@[t],
        )
    &&& import_round(old, final_scopes(old)) == final_scopes(old)
}

/// Freezing scopes changes no module's place in the tree.
proof fn lemma_frozen_model(
    states: Seq<Vec<TargetState>>,
    scopes: ScopesView,
    old: TargetState,
    new: TargetState,
)
    requires
        state_frozen(states, scopes, old, new),
    ensures
        new.model() == old.model(),
{
    assert forall|m: int| 0 <= m < old.def_map.modules@.len() implies new.def_map.modules@[m].model()
        == old.def_map.modules@[m].model() by {
        assert(crate::imports::module_frozen(
            old.def_map.modules@[m],
            new.def_map.modules@[m],
            scopes[old.target.package.0 as int][old.target.target.0 as int][m],
            crate::imports::unresolved_in_module(
                states,
                scopes,
                old,
                crate::ids::ModuleId(m as usize),
                old.def_map.imports@.len() as int,
            ),
        ));
    }
    assert(new.model().modules =~= old.model().modules);
    assert(new.model() =~= old.model());
}

/// `package` holds the frozen targets of `states` in order, under `name`.
pub open spec fn package_frozen(package: Package, name: String, states: Seq<TargetState>) -> bool {
    &&& package.name == name
    &&& package.target_names@.len() == states.len()
    &&& package.targets@.len() == states.len()
    &&& forall|t: int| 0 <= t < states.len() ==> #[trigger] package.target_names@[t] == states[t].target_name
    &&& forall|t: int|
        0 <= t < states.len() ==> #[trigger] def_map_copy(package.targets@[t], frozen_def_map(states[t]))
}

/// Runs the post-collection pipeline shared by clean builds and package rebuilds: selects each
/// target's standard prelude, resolves imports to their fixed point, and freezes every target
/// into a def map. Packages are paired with `package_names` in slot order.
pub fn finalize_and_freeze(
    package_names: &Vec<String>,
    prelude_paths: &Vec<Path>,
    states: &mut Vec<Vec<TargetState>>,
) -> (r: Vec<Package>)
    requires
        states_wf(old(states)@),
        prelude_paths@.len() >= old(states)@.len(),
        forall|mid: Seq<Vec<TargetState>>|
            #[trigger] preludes_selected(old(states)@, mid, prelude_paths@) ==> exists|k: nat| is_fixpoint(mid, k),
    ensures
        exists|mid: Seq<Vec<TargetState>>|
            #[trigger] preludes_selected(old(states)@, mid, prelude_paths@) && scopes_finalized(mid, final(states)@),
        r@.len() == if old(states)@.len() < package_names@.len() {
            old(states)@.len()
        } else {
            package_names@.len()
        },
        forall|p: int| 0 <= p < r@.len() ==> (#[trigger] r@[p]).wf(),
        forall|p: int|
            0 <= p < r@.len() ==> #[trigger] package_frozen(r@[p], package_names@[p], final(states)@[p]@),
{
    select_preludes(prelude_paths, states);
    let ghost mid = states@;
    crate::imports::finalize_scopes(states);
    proof {
        assert(scopes_finalized(mid, states@));
    }
    freeze_packages(package_names, states, Ghost(mid))
}

/// Freezes target states whose scopes are final into packages, one per named package.
fn freeze_packages(package_names: &Vec<String>, states: &Vec<Vec<TargetState>>, Ghost(mid): Ghost<Seq<Vec<TargetState>>>) -> (r: Vec<
    Package,
>)
    requires
        states_wf(mid),
        scopes_finalized(mid, states@),
    ensures
        r@.len() == if states@.len() < package_names@.len() {
            states@.len()
        } else {
            package_names@.len()
        },
        forall|p: int| 0 <= p < r@.len() ==> (#[trigger] r@[p]).wf(),
        forall|p: int| 0 <= p < r@.len() ==> #[trigger] package_frozen(r@[p], package_names@[p], states@[p]@),
{
    let n = if states.len() < package_names.len() {
        states.len()
    } else {
        package_names.len()
    };
    let mut out: Vec<Package> = Vec::new();
    let mut p: usize = 0;
    while p < n
        invariant
            states_wf(mid),
            scopes_finalized(mid, states@),
            n <= states@.len(),
            n <= package_names@.len(),
            p <= n,
            out@.len() == p,
            forall|q: int| 0 <= q < p ==> (#[trigger] out@[q]).wf(),
            forall|q: int| 0 <= q < p ==> #[trigger] package_frozen(out@[q], package_names@[q], states@[q]@),
        decreases n - p,
    {
        let mut target_names: Vec<String> = Vec::new();
        let mut targets: Vec<DefMap> = Vec::new();
        let mut t: usize = 0;
        while t < states[p].len()
            invariant
                states_wf(mid),
                scopes_finalized(mid, states@),
                p < states@.len(),
                t <= states@[p as int]@.len(),
                target_names@.len() == t,
                targets@.len() == t,
                forall|u: int| 0 <= u < t ==> #[trigger] target_names@[u] == states@[p as int]@[u].target_name,
                forall|u: int|
                    0 <= u < t ==> #[trigger] def_map_copy(targets@[u], frozen_def_map(states@[p as int]@[u])),
                forall|u: int| 0 <= u < t ==> (#[trigger] targets@[u]).model().parents_precede(),
            decreases states@[p as int]@.len() - t,
        {
            let state = &states[p][t];
            target_names.push(state.target_name.clone());
            let def_map = freeze_target_state(state);
            proof {
                assert(state_frozen(mid, final_scopes(mid), mid[p as int]@[t as int], *state));
                lemma_frozen_model(mid, final_scopes(mid), mid[p as int]@[t as int], *state);
                assert(state_wf(mid[p as int]@[t as int], p as int, t as int));
            }
            targets.push(def_map);
            t = t + 1;
        }
        let package = Package { name: package_names[p].clone(), target_names, targets };
        proof {
            assert forall|u: int| 0 <= u < package.targets@.len() implies #[trigger] package.targets@[u].model().parents_precede() by {
                assert(targets@[u].model().parents_precede());
            }
        }
        out.push(package);
        p = p + 1;
    }
    out
}

/// Builds the database of a clean build as [`build_db`] does, resolving imports for at most
/// `max_rounds` rounds: when no round among them reaches the import fixed point, gives nothing
/// and leaves the target states with their preludes selected.
pub fn build_db_within(
    package_names: &Vec<String>,
    prelude_paths: &Vec<Path>,
    target_states: &mut Vec<Vec<TargetState>>,
    max_rounds: usize,
) -> (r: Option<DefMapDb>)
    requires
        states_wf(old(target_states)@),
        prelude_paths@.len() >= old(target_states)@.len(),
    ensures
        exists|mid: Seq<Vec<TargetState>>|
            #[trigger] preludes_selected(old(target_states)@, mid, prelude_paths@) && {
                &&& (r is Some <==> exists|k: nat| k < max_rounds && #[trigger] crate::imports::is_fixpoint(mid, k))
                &&& r is None ==> final(target_states)@ == mid
                &&& r matches Some(db) ==> {
                    &&& scopes_finalized(mid, final(target_states)@)
                    &&& db.entries().len() == if old(target_states)@.len() < package_names@.len() {
                        old(target_states)@.len()
                    } else {
                        package_names@.len()
                    }
                    &&& forall|p: int|
                        0 <= p < db.entries().len() ==> #[trigger] resident_frozen(
                            db.entries()[p],
                            package_names@[p],
                            final(target_states)@[p]@,
                        )
                }
            },
{
    select_preludes(prelude_paths, target_states);
    let ghost mid = target_states@;
    if !crate::imports::finalize_scopes_within(target_states, max_rounds) {
        return None;
    }
    proof {
        assert(scopes_finalized(mid, target_states@));
    }
    let packages = freeze_packages(package_names, target_states, Ghost(mid));
    let ghost frozen = packages@;
    let db = DefMapDb::from_packages(packages);
    proof {
        assert forall|p: int| 0 <= p < db.entries().len() implies #[trigger] resident_frozen(
            db.entries()[p],
            package_names@[p],
            target_states@[p]@,
        ) by {
            assert(crate::db::resident_is(db.entries()[p], frozen[p]));
            assert(package_frozen(frozen[p], package_names@[p], target_states@[p]@));
        }
    }
    Some(db)
}


/// Builds the database of a clean build from freshly collected target states.
pub fn build_db(
    package_names: &Vec<String>,
    prelude_paths: &Vec<Path>,
    target_states: &mut Vec<Vec<TargetState>>,
) -> (r: DefMapDb)
    requires
        states_wf(old(target_states)@),
        prelude_paths@.len() >= old(target_states)@.len(),
        forall|mid: Seq<Vec<TargetState>>|
            #[trigger] preludes_selected(old(target_states)@, mid, prelude_paths@) ==> exists|k: nat| is_fixpoint(mid, k),
    ensures
        exists|mid: Seq<Vec<TargetState>>|
            #[trigger] preludes_selected(old(target_states)@, mid, prelude_paths@) && scopes_finalized(
                mid,
                final(target_states)@,
            ),
        r.entries().len() == if old(target_states)@.len() < package_names@.len() {
            old(target_states)@.len()
        } else {
            package_names@.len()
        },
        forall|p: int|
            0 <= p < r.entries().len() ==> #[trigger] resident_frozen(
                r.entries()[p],
                package_names@[p],
                final(target_states)@[p]@,
            ),
{
    let packages = finalize_and_freeze(package_names, prelude_paths, target_states);
    let ghost frozen = packages@;
    let db = DefMapDb::from_packages(packages);
    proof {
        assert forall|p: int| 0 <= p < db.entries().len() implies #[trigger] resident_frozen(
            db.entries()[p],
            package_names@[p],
            target_states@[p]@,
        ) by {
            assert(crate::db::resident_is(db.entries()[p], frozen[p]));
            assert(package_frozen(frozen[p], package_names@[p], target_states@[p]@));
        }
    }
    db
}

/// `entry` is resident and holds the frozen targets of `states` under `name`.
pub open spec fn resident_frozen(entry: PackageEntry, name: String, states: Seq<TargetState>) -> bool {
    match entry {
        PackageEntry::Resident(package) => package_frozen(*package, name, states),
        PackageEntry::Offloaded => false,
    }
}

/// Why a package rebuild could not be completed.
#[derive(Debug, Clone, Copy, PartialEq, Eq, Structural)]
pub enum RebuildError {
    /// No freshly collected target states were supplied for this package slot.
    MissingCollectedPackage(PackageSlot),
    /// The previous snapshot has no such package slot.
    UnknownPackageSlot(PackageSlot),
    /// Finalization produced no package for this slot: no package name was given for it.
    MissingRebuiltPackage(PackageSlot),
}

/// The states a rebuild finalizes: collected states for the rebuilt slots, frozen states of the
/// previous snapshot for every other slot.
pub open spec fn rebuild_states(
    old: Seq<PackageEntry>,
    collected: Seq<Vec<TargetState>>,
    rebuilt: Set<PackageSlot>,
    states: Seq<Vec<TargetState>>,
) -> bool {
    &&& states.len() == old.len()
    &&& forall|p: int|
        0 <= p < old.len() ==> #[trigger] slot_state(old, collected, rebuilt, p, states[p])
}

pub open spec fn slot_state(
    old: Seq<PackageEntry>,
    collected: Seq<Vec<TargetState>>,
    rebuilt: Set<PackageSlot>,
    p: int,
    package: Vec<TargetState>,
) -> bool {
    if rebuilt.contains(PackageSlot(p as usize)) {
        package == collected[p]
    } else {
        &&& package@.len() == entry_target_count(old[p])
        &&& forall|t: int|
            0 <= t < package@.len() ==> #[trigger] frozen_state_of(*(old[p]->Resident_0), p as nat, t as nat, package@[t])
    }
}

/// A rebuilt slot has collected states and exists in the previous snapshot.
pub open spec fn slot_available(slot: PackageSlot, collected_len: nat, old_len: nat) -> bool {
    slot.0 < collected_len && slot.0 < old_len
}

/// Runs [`finalize_and_freeze`], resolving imports for at most `max_rounds` rounds where a bound
/// is given: gives nothing when no round among them reaches the fixed point.
fn finalize_and_freeze_bounded(
    package_names: &Vec<String>,
    prelude_paths: &Vec<Path>,
    states: &mut Vec<Vec<TargetState>>,
    max_rounds: Option<usize>,
) -> (r: Option<Vec<Package>>)
    requires
        states_wf(old(states)@),
        prelude_paths@.len() >= old(states)@.len(),
        max_rounds is None ==> forall|mid: Seq<Vec<TargetState>>|
            #[trigger] preludes_selected(old(states)@, mid, prelude_paths@) ==> exists|k: nat| is_fixpoint(mid, k),
    ensures
        exists|mid: Seq<Vec<TargetState>>|
            #[trigger] preludes_selected(old(states)@, mid, prelude_paths@) && {
                &&& (r is Some <==> (max_rounds matches Some(n) ==> exists|k: nat| k < n && #[trigger] is_fixpoint(mid, k)))
                &&& r matches Some(packages) ==> {
                    &&& scopes_finalized(mid, final(states)@)
                    &&& packages@.len() == if old(states)@.len() < package_names@.len() {
                        old(states)@.len()
                    } else {
                        package_names@.len()
                    }
                    &&& forall|p: int| 0 <= p < packages@.len() ==> (#[trigger] packages@[p]).wf()
                    &&& forall|p: int|
                        0 <= p < packages@.len() ==> #[trigger] package_frozen(packages@[p], package_names@[p], final(states)@[p]@)
                }
            },
{
    select_preludes(prelude_paths, states);
    let ghost mid = states@;
    match max_rounds {
        None => crate::imports::finalize_scopes(states),
        Some(n) => {
            if !crate::imports::finalize_scopes_within(states, n) {
                return None;
            }
        },
    }
    proof {
        assert(scopes_finalized(mid, states@));
    }
    Some(freeze_packages(package_names, states, Ghost(mid)))
}

/// Rebuilds the given package slots against the previous frozen graph.
///
/// `collected` holds, by package slot, freshly collected target states. The other packages are
/// represented by their frozen def maps, whose final scopes serve as base scopes, so imports of
/// the rebuilt packages still resolve through them without collecting them again. The result
/// keeps the previous snapshot and replaces only the rebuilt package payloads. Slots are
/// processed in increasing order; the first one that cannot be rebuilt is reported.
pub fn rebuild_packages(
    old: &DefMapDb,
    package_names: &Vec<String>,
    prelude_paths: &Vec<Path>,
    packages: &Vec<PackageSlot>,
    collected: Vec<Vec<TargetState>>,
) -> (r: Result<DefMapDb, RebuildError>)
    requires
        prelude_paths@.len() >= old.entries().len(),
        forall|p: int, t: int|
            #![trigger collected@[p]@[t]]
            0 <= p < collected@.len() && 0 <= t < collected@[p]@.len() && packages@.contains(
                PackageSlot(p as usize),
            ) ==> state_wf(collected@[p]@[t], p, t),
        forall|states: Seq<Vec<TargetState>>, mid: Seq<Vec<TargetState>>|
            rebuild_states(old.entries(), collected@, packages@.to_set(), states) && #[trigger] preludes_selected(
                states,
                mid,
                prelude_paths@,
            ) ==> exists|k: nat| is_fixpoint(mid, k),
    ensures
        r matches Err(RebuildError::MissingCollectedPackage(s)) ==> {
            &&& packages@.contains(s)
            &&& s.0 >= collected@.len()
            &&& forall|x: PackageSlot|
                packages@.contains(x) && x.0 < s.0 ==> slot_available(x, collected@.len(), old.entries().len())
        },
        r matches Err(RebuildError::UnknownPackageSlot(s)) ==> {
            &&& packages@.contains(s)
            &&& s.0 < collected@.len()
            &&& s.0 >= old.entries().len()
            &&& forall|x: PackageSlot|
                packages@.contains(x) && x.0 < s.0 ==> slot_available(x, collected@.len(), old.entries().len())
        },
        r matches Err(RebuildError::MissingRebuiltPackage(s)) ==> {
            &&& forall|x: PackageSlot|
                #[trigger] packages@.contains(x) ==> slot_available(x, collected@.len(), old.entries().len())
            &&& packages@.contains(s)
            &&& s.0 >= package_names@.len()
            &&& forall|x: PackageSlot| packages@.contains(x) && x.0 < s.0 ==> x.0 < package_names@.len()
        },
        r matches Ok(db) ==> {
            &&& forall|x: PackageSlot|
                #[trigger] packages@.contains(x) ==> slot_available(x, collected@.len(), old.entries().len())
                    && x.0 < package_names@.len()
            &&& db.entries().len() == old.entries().len()
            &&& forall|p: int|
                0 <= p < old.entries().len() && !packages@.contains(PackageSlot(p as usize)) ==> #[trigger] db.entries()[p]
                    == old.entries()[p]
            &&& packages@.len() > 0 ==> exists|
                states: Seq<Vec<TargetState>>,
                mid: Seq<Vec<TargetState>>,
                fin: Seq<Vec<TargetState>>,
            |
                #![trigger preludes_selected(states, mid, prelude_paths@), scopes_finalized(mid, fin)]
                rebuild_states(old.entries(), collected@, packages@.to_set(), states) && preludes_selected(
                    states,
                    mid,
                    prelude_paths@,
                ) && scopes_finalized(mid, fin) && forall|p: int|
                    0 <= p < old.entries().len() && packages@.contains(PackageSlot(p as usize))
                        ==> #[trigger] resident_frozen(db.entries()[p], package_names@[p], fin[p]@)
        },
{
    match rebuild_packages_bounded(old, package_names, prelude_paths, packages, collected, None) {
        Ok(Some(db)) => Ok(db),
        Ok(None) => {
            proof {
                assert(false);
            }
            Err(RebuildError::UnknownPackageSlot(PackageSlot(0)))
        },
        Err(e) => Err(e),
    }
}

/// Rebuilds package slots as [`rebuild_packages`] does, resolving imports for at most
/// `max_rounds` rounds: where no round among them reaches the import fixed point, gives no
/// database. Errors about the requested slots are found before imports are resolved.
pub fn rebuild_packages_within(
    old: &DefMapDb,
    package_names: &Vec<String>,
    prelude_paths: &Vec<Path>,
    packages: &Vec<PackageSlot>,
    collected: Vec<Vec<TargetState>>,
    max_rounds: usize,
) -> (r: Result<Option<DefMapDb>, RebuildError>)
    requires
        prelude_paths@.len() >= old.entries().len(),
        forall|p: int, t: int|
            #![trigger collected@[p]@[t]]
            0 <= p < collected@.len() && 0 <= t < collected@[p]@.len() && packages@.contains(
                PackageSlot(p as usize),
            ) ==> state_wf(collected@[p]@[t], p, t),
    ensures
        r matches Err(RebuildError::MissingCollectedPackage(s)) ==> {
            &&& packages@.contains(s)
            &&& s.0 >= collected@.len()
            &&& forall|x: PackageSlot|
                packages@.contains(x) && x.0 < s.0 ==> slot_available(x, collected@.len(), old.entries().len())
        },
        r matches Err(RebuildError::UnknownPackageSlot(s)) ==> {
            &&& packages@.contains(s)
            &&& s.0 < collected@.len()
            &&& s.0 >= old.entries().len()
            &&& forall|x: PackageSlot|
                packages@.contains(x) && x.0 < s.0 ==> slot_available(x, collected@.len(), old.entries().len())
        },
        r matches Err(RebuildError::MissingRebuiltPackage(s)) ==> {
            &&& forall|x: PackageSlot|
                #[trigger] packages@.contains(x) ==> slot_available(x, collected@.len(), old.entries().len())
            &&& packages@.contains(s)
            &&& s.0 >= package_names@.len()
            &&& forall|x: PackageSlot| packages@.contains(x) && x.0 < s.0 ==> x.0 < package_names@.len()
        },
        r matches Ok(None) ==> {
            &&& packages@.len() > 0
            &&& forall|x: PackageSlot|
                #[trigger] packages@.contains(x) ==> slot_available(x, collected@.len(), old.entries().len())
            &&& exists|states: Seq<Vec<TargetState>>, mid: Seq<Vec<TargetState>>|
                #[trigger] preludes_selected(states, mid, prelude_paths@) && rebuild_states(
                    old.entries(),
                    collected@,
                    packages@.to_set(),
                    states,
                ) && !(exists|k: nat| k < max_rounds && #[trigger] is_fixpoint(mid, k))
        },
        r matches Ok(Some(db)) ==> {
            &&& forall|x: PackageSlot|
                #[trigger] packages@.contains(x) ==> slot_available(x, collected@.len(), old.entries().len())
                    && x.0 < package_names@.len()
            &&& db.entries().len() == old.entries().len()
            &&& forall|p: int|
                0 <= p < old.entries().len() && !packages@.contains(PackageSlot(p as usize)) ==> #[trigger] db.entries()[p]
                    == old.entries()[p]
            &&& packages@.len() > 0 ==> exists|
                states: Seq<Vec<TargetState>>,
                mid: Seq<Vec<TargetState>>,
                fin: Seq<Vec<TargetState>>,
            |
                #![trigger preludes_selected(states, mid, prelude_paths@), scopes_finalized(mid, fin)]
                rebuild_states(old.entries(), collected@, packages@.to_set(), states) && preludes_selected(
                    states,
                    mid,
                    prelude_paths@,
                ) && scopes_finalized(mid, fin) && (exists|k: nat|
                    k < max_rounds && #[trigger] is_fixpoint(mid, k)) && forall|p: int|
                    0 <= p < old.entries().len() && packages@.contains(PackageSlot(p as usize))
                        ==> #[trigger] resident_frozen(db.entries()[p], package_names@[p], fin[p]@)
        },
{
    rebuild_packages_bounded(old, package_names, prelude_paths, packages, collected, Some(max_rounds))
}

/// The rebuild behind [`rebuild_packages`] and [`rebuild_packages_within`]; where `max_rounds`
/// is given, imports are resolved for at most that many rounds.
fn rebuild_packages_bounded(
    old: &DefMapDb,
    package_names: &Vec<String>,
    prelude_paths: &Vec<Path>,
    packages: &Vec<PackageSlot>,
    collected: Vec<Vec<TargetState>>,
    max_rounds: Option<usize>,
) -> (r: Result<Option<DefMapDb>, RebuildError>)
    requires
        prelude_paths@.len() >= old.entries().len(),
        forall|p: int, t: int|
            #![trigger collected@[p]@[t]]
            0 <= p < collected@.len() && 0 <= t < collected@[p]@.len() && packages@.contains(
                PackageSlot(p as usize),
            ) ==> state_wf(collected@[p]@[t], p, t),
        max_rounds is None ==> forall|states: Seq<Vec<TargetState>>, mid: Seq<Vec<TargetState>>|
            rebuild_states(old.entries(), collected@, packages@.to_set(), states) && #[trigger] preludes_selected(
                states,
                mid,
                prelude_paths@,
            ) ==> exists|k: nat| is_fixpoint(mid, k),
    ensures
        r matches Err(RebuildError::MissingCollectedPackage(s)) ==> {
            &&& packages@.contains(s)
            &&& s.0 >= collected@.len()
            &&& forall|x: PackageSlot|
                packages@.contains(x) && x.0 < s.0 ==> slot_available(x, collected@.len(), old.entries().len())
        },
        r matches Err(RebuildError::UnknownPackageSlot(s)) ==> {
            &&& packages@.contains(s)
            &&& s.0 < collected@.len()
            &&& s.0 >= old.entries().len()
            &&& forall|x: PackageSlot|
                packages@.contains(x) && x.0 < s.0 ==> slot_available(x, collected@.len(), old.entries().len())
        },
        r matches Err(RebuildError::MissingRebuiltPackage(s)) ==> {
            &&& forall|x: PackageSlot|
                #[trigger] packages@.contains(x) ==> slot_available(x, collected@.len(), old.entries().len())
            &&& packages@.contains(s)
            &&& s.0 >= package_names@.len()
            &&& forall|x: PackageSlot| packages@.contains(x) && x.0 < s.0 ==> x.0 < package_names@.len()
        },
        r matches Ok(None) ==> {
            &&& packages@.len() > 0
            &&& forall|x: PackageSlot|
                #[trigger] packages@.contains(x) ==> slot_available(x, collected@.len(), old.entries().len())
            &&& max_rounds matches Some(n) && exists|states: Seq<Vec<TargetState>>, mid: Seq<Vec<TargetState>>|
                #[trigger] preludes_selected(states, mid, prelude_paths@) && rebuild_states(
                    old.entries(),
                    collected@,
                    packages@.to_set(),
                    states,
                ) && !(exists|k: nat| k < n && #[trigger] is_fixpoint(mid, k))
        },
        r matches Ok(Some(db)) ==> {
            &&& forall|x: PackageSlot|
                #[trigger] packages@.contains(x) ==> slot_available(x, collected@.len(), old.entries().len())
                    && x.0 < package_names@.len()
            &&& db.entries().len() == old.entries().len()
            &&& forall|p: int|
                0 <= p < old.entries().len() && !packages@.contains(PackageSlot(p as usize)) ==> #[trigger] db.entries()[p]
                    == old.entries()[p]
            &&& packages@.len() > 0 ==> exists|
                states: Seq<Vec<TargetState>>,
                mid: Seq<Vec<TargetState>>,
                fin: Seq<Vec<TargetState>>,
            |
                #![trigger preludes_selected(states, mid, prelude_paths@), scopes_finalized(mid, fin)]
                rebuild_states(old.entries(), collected@, packages@.to_set(), states) && preludes_selected(
                    states,
                    mid,
                    prelude_paths@,
                ) && scopes_finalized(mid, fin) && (max_rounds matches Some(n) ==> exists|k: nat|
                    k < n && #[trigger] is_fixpoint(mid, k)) && forall|p: int|
                    0 <= p < old.entries().len() && packages@.contains(PackageSlot(p as usize))
                        ==> #[trigger] resident_frozen(db.entries()[p], package_names@[p], fin[p]@)
        },
{
    let package_count = old.package_count();
    let slots = normalized_package_slots(packages);
    let ghost rebuilt = packages@.to_set();
    proof {
        assert forall|x: PackageSlot| #[trigger] packages@.contains(x) == slots@.contains(x) by {
            assert(packages@.to_set().contains(x) == slots@.to_set().contains(x));
        }
    }
    if slots.len() == 0 {
        proof {
            assert forall|x: PackageSlot| #[trigger] packages@.contains(x) implies false by {
                assert(slots@.contains(x));
            }
            if packages@.len() > 0 {
                assert(packages@.contains(packages@[0]));
            }
        }
        return Ok(Some(old.share()));
    }
    let mut states = frozen_target_states(old);
    let ghost frozen = states@;
    let mut pending = collected;
    let ghost fresh = pending@;
    let mut i: usize = 0;
    while i < slots.len()
        invariant
            strictly_increasing(slots@),
            forall|x: PackageSlot| #[trigger] packages@.contains(x) == slots@.contains(x),
            rebuilt == packages@.to_set(),
            i <= slots.len(),
            pending@.len() == fresh.len(),
            fresh == collected@,
            package_count == old.entries().len(),
            states@.len() == old.entries().len(),
            frozen.len() == old.entries().len(),
            forall|j: int| 0 <= j < i ==> slot_available(#[trigger] slots@[j], fresh.len(), old.entries().len()),
            forall|j: int| i <= j < slots@.len() && slots@[j].0 < fresh.len() ==> #[trigger] pending@[slots@[j].0 as int] == fresh[slots@[j].0 as int],
            forall|p: int|
                0 <= p < old.entries().len() ==> #[trigger] states@[p] == if exists|j: int| 0 <= j < i && slots@[j].0 == p {
                    fresh[p]
                } else {
                    frozen[p]
                },
        decreases slots.len() - i,
    {
        let slot = slots[i];
        if slot.0 >= pending.len() {
            proof {
                assert(packages@.contains(slot));
                assert forall|x: PackageSlot| packages@.contains(x) && x.0 < slot.0 implies slot_available(
                    x,
                    fresh.len(),
                    old.entries().len(),
                ) by {
                    assert(slots@.contains(x));
                    let j = choose|j: int| 0 <= j < slots@.len() && slots@[j] == x;
                    if j >= i {
                        assert(slots@[i as int].0 <= slots@[j].0);
                    }
                }
            }
            return Err(RebuildError::MissingCollectedPackage(slot));
        }
        if slot.0 >= states.len() {
            proof {
                assert(packages@.contains(slot));
                assert forall|x: PackageSlot| packages@.contains(x) && x.0 < slot.0 implies slot_available(
                    x,
                    fresh.len(),
                    old.entries().len(),
                ) by {
                    assert(slots@.contains(x));
                    let j = choose|j: int| 0 <= j < slots@.len() && slots@[j] == x;
                    if j >= i {
                        assert(slots@[i as int].0 <= slots@[j].0);
                    }
                }
            }
            return Err(RebuildError::UnknownPackageSlot(slot));
        }
        let mut package: Vec<TargetState> = Vec::new();
        std::mem::swap(&mut package, &mut pending[slot.0]);
        proof {
            assert(package == fresh[slot.0 as int]);
        }
        states.set(slot.0, package);
        proof {
            assert forall|j: int| i + 1 <= j < slots@.len() && slots@[j].0 < fresh.len() implies #[trigger] pending@[slots@[j].0 as int]
                == fresh[slots@[j].0 as int] by {
                assert(slots@[i as int].0 < slots@[j].0);
            }
            assert forall|p: int| 0 <= p < old.entries().len() implies #[trigger] states@[p] == if exists|j: int| 0 <= j < i + 1 && slots@[j].0 == p {
                fresh[p]
            } else {
                frozen[p]
            } by {
                if p == slot.0 {
                    assert(slots@[i as int].0 == p);
                } else {
                    if exists|j: int| 0 <= j < i + 1 && slots@[j].0 == p {
                        let j = choose|j: int| 0 <= j < i + 1 && slots@[j].0 == p;
                        assert(j < i);
                    }
                }
            }
        }
        i = i + 1;
    }
    proof {
        assert forall|p: int| 0 <= p < old.entries().len() implies #[trigger] slot_state(
            old.entries(),
            fresh,
            rebuilt,
            p,
            states@[p],
        ) by {
            if rebuilt.contains(PackageSlot(p as usize)) {
                assert(packages@.contains(PackageSlot(p as usize)));
                assert(slots@.contains(PackageSlot(p as usize)));
                let j = choose|j: int| 0 <= j < slots@.len() && slots@[j] == PackageSlot(p as usize);
                assert(slots@[j].0 == p);
            } else {
                if exists|j: int| 0 <= j < slots@.len() && slots@[j].0 == p {
                    let j = choose|j: int| 0 <= j < slots@.len() && slots@[j].0 == p;
                    assert(slots@[j] == PackageSlot(p as usize));
                    assert(slots@.contains(PackageSlot(p as usize)));
                    assert(packages@.contains(PackageSlot(p as usize)));
                }
            }
        }
        assert(rebuild_states(old.entries(), fresh, rebuilt, states@));
        assert forall|p: int, t: int| 0 <= p < states@.len() && 0 <= t < states@[p]@.len() implies #[trigger] state_wf(
            states@[p]@[t],
            p,
            t,
        ) by {
            assert(slot_state(old.entries(), fresh, rebuilt, p, states@[p]));
            if rebuilt.contains(PackageSlot(p as usize)) {
                assert(packages@.contains(PackageSlot(p as usize)));
                assert(fresh[p]@[t] == states@[p]@[t]);
            } else {
                assert(states@[p] == frozen[p]);
            }
        }
        if max_rounds is None {
            assert forall|mid: Seq<Vec<TargetState>>|
                #[trigger] preludes_selected(states@, mid, prelude_paths@) implies exists|k: nat| is_fixpoint(mid, k) by {
                assert(rebuild_states(old.entries(), fresh, packages@.to_set(), states@));
            }
        }
        assert(packages@.contains(slots@[0]));
    }
    let ghost before_finalize = states@;
    let mut finalized = match finalize_and_freeze_bounded(package_names, prelude_paths, &mut states, max_rounds) {
        Some(finalized) => finalized,
        None => {
            proof {
                let mid = choose|mid: Seq<Vec<TargetState>>|
                    #[trigger] preludes_selected(before_finalize, mid, prelude_paths@) && !(max_rounds matches Some(n)
                        ==> exists|k: nat| k < n && #[trigger] is_fixpoint(mid, k));
                assert(rebuild_states(old.entries(), fresh, packages@.to_set(), before_finalize));
                assert forall|x: PackageSlot| #[trigger] packages@.contains(x) implies slot_available(x, fresh.len(), old.entries().len()) by {
                    assert(slots@.contains(x));
                }
            }
            return Ok(None);
        },
    };
    let ghost fin = states@;
    let ghost frozen_packages = finalized@;
    let mut next = old.share();
    let mut i: usize = 0;
    while i < slots.len()
        invariant
            strictly_increasing(slots@),
            forall|x: PackageSlot| #[trigger] packages@.contains(x) == slots@.contains(x),
            forall|j: int| 0 <= j < slots@.len() ==> slot_available(#[trigger] slots@[j], fresh.len(), old.entries().len()),
            fresh == collected@,
            package_count == old.entries().len(),
            i <= slots.len(),
            finalized@.len() == frozen_packages.len(),
            frozen_packages.len() == if old.entries().len() < package_names@.len() {
                old.entries().len()
            } else {
                package_names@.len()
            },
            forall|q: int| 0 <= q < frozen_packages.len() ==> (#[trigger] frozen_packages[q]).wf(),
            forall|q: int|
                0 <= q < frozen_packages.len() ==> #[trigger] package_frozen(frozen_packages[q], package_names@[q], fin[q]@),
            forall|j: int| i <= j < slots@.len() && slots@[j].0 < frozen_packages.len() ==> #[trigger] finalized@[slots@[j].0 as int]
                == frozen_packages[slots@[j].0 as int],
            forall|j: int| 0 <= j < i ==> (#[trigger] slots@[j]).0 < package_names@.len(),
            next.entries().len() == old.entries().len(),
            forall|p: int|
                0 <= p < old.entries().len() ==> #[trigger] next_entry_ok(next.entries()[p], old.entries()[p], frozen_packages, p, slot_among(slots@, i as int, p)),
        decreases slots.len() - i,
    {
        let slot = slots[i];
        if slot.0 >= finalized.len() {
            proof {
                assert(packages@.contains(slot));
                assert forall|x: PackageSlot| packages@.contains(x) && x.0 < slot.0 implies x.0 < package_names@.len() by {
                    assert(slots@.contains(x));
                    let j = choose|j: int| 0 <= j < slots@.len() && slots@[j] == x;
                    if j >= i {
                        assert(slots@[i as int].0 <= slots@[j].0);
                    }
                }
                assert forall|x: PackageSlot| #[trigger] packages@.contains(x) implies slot_available(x, fresh.len(), old.entries().len()) by {
                    assert(slots@.contains(x));
                }
            }
            return Err(RebuildError::MissingRebuiltPackage(slot));
        }
        let mut package = Package { name: String::new(), target_names: Vec::new(), targets: Vec::new() };
        std::mem::swap(&mut package, &mut finalized[slot.0]);
        proof {
            assert(package == frozen_packages[slot.0 as int]);
        }
        let ghost before_next = next.entries();
        let replaced = next.replace_package(slot, package);
        match replaced {
            Some(()) => {},
            None => {
                proof {
                    assert(slot_available(slots@[i as int], fresh.len(), old.entries().len()));
                }
                return Err(RebuildError::UnknownPackageSlot(slot));
            },
        }
        proof {
            assert forall|j: int| i + 1 <= j < slots@.len() && slots@[j].0 < frozen_packages.len() implies #[trigger] finalized@[slots@[j].0 as int]
                == frozen_packages[slots@[j].0 as int] by {
                assert(slots@[i as int].0 < slots@[j].0);
            }
            assert forall|p: int| 0 <= p < old.entries().len() implies #[trigger] next_entry_ok(next.entries()[p], old.entries()[p], frozen_packages, p, slot_among(slots@, i + 1, p)) by {
                if p == slot.0 {
                    assert(slots@[i as int].0 == p);
                    assert(slot_among(slots@, i + 1, p));
                    assert(crate::db::resident_is(next.entries()[p], frozen_packages[p]));
                } else {
                    assert(next.entries()[p] == before_next[p]);
                    assert(next_entry_ok(before_next[p], old.entries()[p], frozen_packages, p, slot_among(slots@, i as int, p)));
                    if slot_among(slots@, i + 1, p) {
                        let j = choose|j: int| 0 <= j < i + 1 && slots@[j].0 == p;
                        assert(j < i);
                        assert(slot_among(slots@, i as int, p));
                    }
                    if slot_among(slots@, i as int, p) {
                        let j = choose|j: int| 0 <= j < i && slots@[j].0 == p;
                        assert(slots@[j].0 == p);
                        assert(slot_among(slots@, i + 1, p));
                    }
                }
            }
        }
        i = i + 1;
    }
    proof {
        assert forall|x: PackageSlot| #[trigger] packages@.contains(x) implies slot_available(x, fresh.len(), old.entries().len())
            && x.0 < package_names@.len() by {
            assert(slots@.contains(x));
            let j = choose|j: int| 0 <= j < slots@.len() && slots@[j] == x;
        }
        assert forall|p: int|
            0 <= p < old.entries().len() && !packages@.contains(PackageSlot(p as usize)) implies #[trigger] next.entries()[p]
                == old.entries()[p] by {
            assert(next_entry_ok(next.entries()[p], old.entries()[p], frozen_packages, p, slot_among(slots@, slots@.len() as int, p)));
            if exists|j: int| 0 <= j < slots@.len() && slots@[j].0 == p {
                let j = choose|j: int| 0 <= j < slots@.len() && slots@[j].0 == p;
                assert(slots@[j] == PackageSlot(p as usize));
                assert(slots@.contains(PackageSlot(p as usize)));
            }
        }
        let mid = choose|mid: Seq<Vec<TargetState>>|
            #[trigger] preludes_selected(before_finalize, mid, prelude_paths@) && scopes_finalized(mid, fin) && (
            max_rounds matches Some(n) ==> exists|k: nat| k < n && #[trigger] is_fixpoint(mid, k));
        assert forall|p: int|
            0 <= p < old.entries().len() && packages@.contains(PackageSlot(p as usize)) implies #[trigger] resident_frozen(
                next.entries()[p],
                package_names@[p],
                fin[p]@,
            ) by {
            assert(slots@.contains(PackageSlot(p as usize)));
            let j = choose|j: int| 0 <= j < slots@.len() && slots@[j] == PackageSlot(p as usize);
            assert(slots@[j].0 == p);
            assert(next_entry_ok(next.entries()[p], old.entries()[p], frozen_packages, p, slot_among(slots@, slots@.len() as int, p)));
            assert(p < package_names@.len());
            assert(package_frozen(frozen_packages[p], package_names@[p], fin[p]@));
        }
        assert(rebuild_states(old.entries(), fresh, packages@.to_set(), before_finalize));
        assert(preludes_selected(before_finalize, mid, prelude_paths@) && scopes_finalized(mid, fin));
    }
    Ok(Some(next))
}

/// One of the first `n` slots is `p`.
pub open spec fn slot_among(slots: Seq<PackageSlot>, n: int, p: int) -> bool {
    exists|j: int| 0 <= j < n && slots[j].0 == p
}

/// After the replacement loop: a replaced slot holds its frozen package, others the previous
/// entry.
pub open spec fn next_entry_ok(
    entry: PackageEntry,
    old: PackageEntry,
    frozen: Seq<Package>,
    p: int,
    replaced: bool,
) -> bool {
    if replaced {
        0 <= p < frozen.len() && crate::db::resident_is(entry, frozen[p])
    } else {
        entry == old
    }
}

} // verus!
