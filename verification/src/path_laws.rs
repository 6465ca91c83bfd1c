//! Properties of path resolution that hold for every path and every def-map model: a name
//! denotes exactly the visible bindings of it; a single name is looked up locally, then among
//! extern roots, then in the prelude; a path resolves to nothing exactly when it reports the
//! segment where it stopped, that segment is one of the path's, and no definition is listed
//! twice.

use vstd::prelude::*;

use crate::ids::{DefId, ModuleRef};
use crate::path::SegmentView;
use crate::resolution::{
    EnvModel, binding_visible, ResolveView, push_all_unique, push_unique, push_visible, resolve_first, resolve_name, resolve_next,
    resolve_path, walk_segments,
};
use crate::scope::{BindingView, Namespace};

verus! {

/// Appending a definition only when absent keeps a list free of duplicates.
pub proof fn lemma_push_unique_distinct(defs: Seq<DefId>, def: DefId)
    requires
        defs.no_duplicates(),
    ensures
        push_unique(defs, def).no_duplicates(),
        forall|d: DefId| defs.contains(d) ==> #[trigger] push_unique(defs, def).contains(d),
        push_unique(defs, def).contains(def),
        push_unique(defs, def).len() >= defs.len(),
{
    if !defs.contains(def) {
        let pushed = defs.push(def);
        assert forall|i: int| 0 <= i < defs.len() implies defs[i] != def by {
            if defs[i] == def {
                assert(defs.contains(def));
            }
        }
        assert forall|d: DefId| defs.contains(d) implies pushed.contains(d) by {
            let i = choose|i: int| 0 <= i < defs.len() && defs[i] == d;
            assert(pushed[i] == d);
        }
        assert(pushed[defs.len() as int] == def);
    }
}

/// Appending the absent entries of a list keeps a list free of duplicates.
pub proof fn lemma_push_all_unique_distinct(defs: Seq<DefId>, more: Seq<DefId>)
    requires
        defs.no_duplicates(),
    ensures
        push_all_unique(defs, more).no_duplicates(),
        push_all_unique(defs, more).len() >= defs.len(),
    decreases more.len(),
{
    if more.len() > 0 {
        lemma_push_all_unique_distinct(defs, more.drop_last());
        lemma_push_unique_distinct(push_all_unique(defs, more.drop_last()), more.last());
    }
}

/// Adding the visible bindings of a bucket keeps a list free of duplicates.
pub proof fn lemma_push_visible_distinct(model: EnvModel, importing: ModuleRef, defs: Seq<DefId>, bindings: Seq<BindingView>)
    requires
        defs.no_duplicates(),
    ensures
        push_visible(model, importing, defs, bindings).no_duplicates(),
    decreases bindings.len(),
{
    if bindings.len() > 0 {
        lemma_push_visible_distinct(model, importing, defs, bindings.drop_last());
        lemma_push_unique_distinct(push_visible(model, importing, defs, bindings.drop_last()), bindings.last().def);
    }
}

/// A name resolves to distinct definitions.
pub proof fn lemma_resolve_name_distinct(model: EnvModel, importing: ModuleRef, module: ModuleRef, name: Seq<char>, types_only: bool)
    ensures
        resolve_name(model, importing, module, name, types_only).no_duplicates(),
{
    let empty = Seq::<DefId>::empty();
    assert(empty.no_duplicates());
    match model.module_scope(module) {
        Some(scope) => if scope.contains_key(name) {
            let entry = scope[name];
            lemma_push_visible_distinct(model, importing, empty, entry.types);
            let types = push_visible(model, importing, empty, entry.types);
            lemma_push_visible_distinct(model, importing, types, entry.values);
            lemma_push_visible_distinct(model, importing, push_visible(model, importing, types, entry.values), entry.macros);
        },
        None => {},
    }
}

proof fn lemma_single_distinct(def: DefId)
    ensures
        seq![def].no_duplicates(),
{
}

/// The first segment of a path resolves to distinct definitions.
pub proof fn lemma_resolve_first_distinct(model: EnvModel, importing: ModuleRef, absolute: bool, segment: SegmentView, types_only: bool)
    ensures
        resolve_first(model, importing, absolute, segment, types_only).no_duplicates(),
{
    match segment {
        SegmentView::Name(name) => {
            lemma_resolve_name_distinct(model, importing, importing, name, types_only);
            match model.extern_root(importing.target, name) {
                Some(root) => lemma_single_distinct(DefId::Module(root)),
                None => match model.prelude_module(importing.target) {
                    Some(prelude) => lemma_resolve_name_distinct(model, importing, prelude, name, types_only),
                    None => {},
                },
            }
        },
        SegmentView::SelfKw => lemma_single_distinct(DefId::Module(importing)),
        SegmentView::SuperKw => match model.parent_module(importing.target, importing.module) {
            Some(parent) => lemma_single_distinct(DefId::Module(parent)),
            None => {},
        },
        SegmentView::CrateKw => match model.root_module(importing.target) {
            Some(root) => lemma_single_distinct(DefId::Module(root)),
            None => {},
        },
    }
}

/// One more segment reaches distinct definitions.
pub proof fn lemma_resolve_next_distinct(
    model: EnvModel,
    importing: ModuleRef,
    current: Seq<DefId>,
    segment: SegmentView,
    types_only: bool,
)
    ensures
        resolve_next(model, importing, current, segment, types_only).no_duplicates(),
    decreases current.len(),
{
    if current.len() == 0 {
        assert(Seq::<DefId>::empty().no_duplicates());
    } else {
        lemma_resolve_next_distinct(model, importing, current.drop_last(), segment, types_only);
        let before = resolve_next(model, importing, current.drop_last(), segment, types_only);
        match current.last() {
            DefId::Module(module) => match segment {
                SegmentView::SelfKw => lemma_push_unique_distinct(before, DefId::Module(module)),
                SegmentView::SuperKw => match model.parent_module(module.target, module.module) {
                    Some(parent) => lemma_push_unique_distinct(before, DefId::Module(parent)),
                    None => {},
                },
                SegmentView::CrateKw => match model.root_module(module.target) {
                    Some(root) => lemma_push_unique_distinct(before, DefId::Module(root)),
                    None => {},
                },
                SegmentView::Name(name) => lemma_push_all_unique_distinct(
                    before,
                    resolve_name(model, importing, module, name, types_only),
                ),
            },
            DefId::Local(_) => {},
        }
    }
}

/// The shape of a result: nothing resolved exactly when a segment index is reported, and that
/// index lies among the segments walked from `idx` on.
pub open spec fn walk_outcome(view: ResolveView, idx: nat, len: nat) -> bool {
    &&& (view.resolved.len() == 0 <==> view.unresolved_at is Some)
    &&& view.unresolved_at matches Some(i) ==> idx <= i < len
    &&& view.resolved.no_duplicates()
}

/// Walking the remaining segments from a non-empty, duplicate-free start keeps that shape.
pub proof fn lemma_walk_segments_outcome(
    model: EnvModel,
    importing: ModuleRef,
    defs: Seq<DefId>,
    segments: Seq<SegmentView>,
    idx: nat,
    terminal_types_only: bool,
)
    requires
        defs.len() > 0,
        defs.no_duplicates(),
    ensures
        walk_outcome(walk_segments(model, importing, defs, segments, idx, terminal_types_only), idx, segments.len()),
    decreases segments.len() - idx,
{
    if idx < segments.len() {
        let types_only = idx + 1 < segments.len() || terminal_types_only;
        lemma_resolve_next_distinct(model, importing, defs, segments[idx as int], types_only);
        let next = resolve_next(model, importing, defs, segments[idx as int], types_only);
        if next.len() > 0 {
            lemma_walk_segments_outcome(model, importing, next, segments, idx + 1, terminal_types_only);
        }
    }
}

/// A path resolves to nothing exactly when resolution reports the segment where it stopped;
/// that segment is one of the path's (the first, for a path without segments); and no
/// definition is listed twice.
pub proof fn lemma_resolve_path_outcome(
    model: EnvModel,
    importing: ModuleRef,
    absolute: bool,
    segments: Seq<SegmentView>,
    terminal_types_only: bool,
)
    ensures
        ({
            let r = resolve_path(model, importing, absolute, segments, terminal_types_only);
            &&& (r.resolved.len() == 0 <==> r.unresolved_at is Some)
            &&& r.unresolved_at matches Some(i) ==> (i < segments.len() || (i == 0 && segments.len() == 0))
            &&& r.resolved.no_duplicates()
        }),
{
    assert(Seq::<DefId>::empty().no_duplicates());
    if segments.len() > 0 {
        let types_only = 1 < segments.len() || terminal_types_only;
        lemma_resolve_first_distinct(model, importing, absolute, segments[0], types_only);
        let first = resolve_first(model, importing, absolute, segments[0], types_only);
        if first.len() > 0 {
            lemma_walk_segments_outcome(model, importing, first, segments, 1, terminal_types_only);
        }
    }
}

/// Adding the visible bindings of a bucket adds exactly their definitions: every definition of
/// the result was there before or is that of a visible binding of the bucket, and every visible
/// binding's definition is in the result, as is everything that was there before.
proof fn lemma_push_visible_members(model: EnvModel, importing: ModuleRef, defs: Seq<DefId>, bindings: Seq<BindingView>, d: DefId)
    ensures
        push_visible(model, importing, defs, bindings).contains(d) <==> (defs.contains(d) || exists|i: int|
            0 <= i < bindings.len() && (#[trigger] bindings[i]).def == d && binding_visible(model, importing, bindings[i])),
    decreases bindings.len(),
{
    if bindings.len() > 0 {
        let rest = bindings.drop_last();
        lemma_push_visible_members(model, importing, defs, rest, d);
        let before = push_visible(model, importing, defs, rest);
        let last = bindings.last();
        if exists|i: int| 0 <= i < rest.len() && (#[trigger] rest[i]).def == d && binding_visible(model, importing, rest[i]) {
            let i = choose|i: int| 0 <= i < rest.len() && (#[trigger] rest[i]).def == d && binding_visible(model, importing, rest[i]);
            assert(bindings[i] == rest[i]);
        }
        if exists|i: int| 0 <= i < bindings.len() && (#[trigger] bindings[i]).def == d && binding_visible(model, importing, bindings[i]) {
            let i = choose|i: int| 0 <= i < bindings.len() && (#[trigger] bindings[i]).def == d && binding_visible(model, importing, bindings[i]);
            if i < rest.len() {
                assert(rest[i] == bindings[i]);
            }
        }
        if binding_visible(model, importing, last) {
            if !before.contains(last.def) {
                let p = before.push(last.def);
                assert(p[before.len() as int] == last.def);
                if p.contains(d) && d != last.def {
                    let k = choose|k: int| 0 <= k < p.len() && p[k] == d;
                    assert(before[k] == d);
                }
                if before.contains(d) {
                    let k = choose|k: int| 0 <= k < before.len() && before[k] == d;
                    assert(p[k] == d);
                }
            }
            assert(bindings[bindings.len() - 1] == last);
        }
    }
}

/// What a name denotes in a module, seen from `importing`: exactly the definitions of the
/// bindings under that name in the module's scope that are visible from `importing`, in the
/// type namespace only when `types_only`. Invisible bindings never resolve.
pub proof fn lemma_resolve_name_members(
    model: EnvModel,
    importing: ModuleRef,
    module: ModuleRef,
    name: Seq<char>,
    types_only: bool,
    d: DefId,
)
    ensures
        resolve_name(model, importing, module, name, types_only).contains(d) <==> (model.module_scope(module) matches Some(scope)
            && scope.contains_key(name) && exists|namespace: Namespace, b: BindingView|
            #![trigger scope[name].bucket(namespace).contains(b)]
            (!types_only || namespace == Namespace::Types) && scope[name].bucket(namespace).contains(b) && b.def == d
                && binding_visible(model, importing, b)),
{
    let empty = Seq::<DefId>::empty();
    match model.module_scope(module) {
        Some(scope) => if scope.contains_key(name) {
            let entry = scope[name];
            let types = push_visible(model, importing, empty, entry.types);
            let values = push_visible(model, importing, types, entry.values);
            lemma_push_visible_members(model, importing, empty, entry.types, d);
            lemma_push_visible_members(model, importing, types, entry.values, d);
            lemma_push_visible_members(model, importing, values, entry.macros, d);
            let found = exists|namespace: Namespace, b: BindingView|
                #![trigger entry.bucket(namespace).contains(b)]
                (!types_only || namespace == Namespace::Types) && entry.bucket(namespace).contains(b) && b.def == d
                    && binding_visible(model, importing, b);
            if resolve_name(model, importing, module, name, types_only).contains(d) {
                let (ns, bs) = if types_only || types.contains(d) {
                    (Namespace::Types, entry.types)
                } else if values.contains(d) {
                    (Namespace::Values, entry.values)
                } else {
                    (Namespace::Macros, entry.macros)
                };
                assert(!empty.contains(d));
                let i = choose|i: int| 0 <= i < bs.len() && (#[trigger] bs[i]).def == d && binding_visible(model, importing, bs[i]);
                assert(entry.bucket(ns) == bs);
                assert(bs.contains(bs[i]));
                assert(found);
            }
            if found {
                let (ns, b) = choose|namespace: Namespace, b: BindingView|
                    #![trigger entry.bucket(namespace).contains(b)]
                    (!types_only || namespace == Namespace::Types) && entry.bucket(namespace).contains(b) && b.def == d
                        && binding_visible(model, importing, b);
                let bs = entry.bucket(ns);
                let i = choose|i: int| 0 <= i < bs.len() && bs[i] == b;
                match ns {
                    Namespace::Types => assert(entry.types[i].def == d),
                    Namespace::Values => assert(entry.values[i].def == d),
                    Namespace::Macros => assert(entry.macros[i].def == d),
                }
            }
        },
        None => {},
    }
}

/// A single relative name resolves to what the importing module's scope binds under it when that
/// is anything; only then do extern roots, and last the standard prelude, come into play.
pub proof fn lemma_single_name_lookup_order(model: EnvModel, importing: ModuleRef, name: Seq<char>, terminal_types_only: bool)
    ensures
        ({
            let resolved = resolve_path(model, importing, false, seq![SegmentView::Name(name)], terminal_types_only).resolved;
            let local = resolve_name(model, importing, importing, name, terminal_types_only);
            &&& local.len() > 0 ==> resolved == local
            &&& local.len() == 0 && model.extern_root(importing.target, name) is Some ==> resolved == seq![
                DefId::Module(model.extern_root(importing.target, name)->0),
            ]
            &&& local.len() == 0 && model.extern_root(importing.target, name) is None && model.prelude_module(importing.target) is Some
                ==> resolved == resolve_name(model, importing, model.prelude_module(importing.target)->0, name, terminal_types_only)
        }),
{
    let segments = seq![SegmentView::Name(name)];
    assert(segments[0] == SegmentView::Name(name));
    let first = resolve_first(model, importing, false, segments[0], 1 < segments.len() || terminal_types_only);
    assert(!(1 < segments.len()));
    if first.len() > 0 {
        assert(walk_segments(model, importing, first, segments, 1, terminal_types_only).resolved == first);
    }
}

} // verus!
