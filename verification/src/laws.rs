//! Properties of scopes, visibility and glob imports that hold for every input.

use vstd::prelude::*;

use crate::ids::{DefId, ModuleRef, TargetRef};
use crate::imports::{
    ImportView, ScopesView, glob_merge, globs_applied, has_scope, import_applied, imports_applied, named_applied, scope_at, visible_bucket, visible_entry,
    visible_scope, with_scope,
};
use crate::def_map::ImportKind;
use crate::resolution::{EnvModel, binding_visible, is_descendant};
use crate::scope::{
    BindingView, EntryView, Namespace, ScopeView, VisibilityView, entry_or_empty, entry_rebound,
    merge_entry, rebind, scope_insert,
};

verus! {

/// Inserting the same binding twice under one name leaves the scope as one insertion does.
pub proof fn lemma_scope_insert_idempotent(scope: ScopeView, name: Seq<char>, namespace: Namespace, binding: BindingView)
    ensures
        scope_insert(scope_insert(scope, name, namespace, binding), name, namespace, binding) == scope_insert(
            scope,
            name,
            namespace,
            binding,
        ),
{
    let once = scope_insert(scope, name, namespace, binding);
    let entry = entry_or_empty(scope, name).insert(namespace, binding);
    assert(once[name] == entry);
    assert(entry.bucket(namespace).contains(binding)) by {
        if !entry_or_empty(scope, name).bucket(namespace).contains(binding) {
            let b = entry_or_empty(scope, name).bucket(namespace).push(binding);
            assert(entry_or_empty(scope, name).with_bucket(namespace, b).bucket(namespace) == b);
            assert(b[b.len() - 1] == binding);
        }
    }
    assert(entry_or_empty(once, name).insert(namespace, binding) == entry);
    assert(scope_insert(once, name, namespace, binding) =~= once);
}

/// Every module is nested in itself.
pub proof fn lemma_descendant_reflexive(model: EnvModel, module: ModuleRef)
    ensures
        is_descendant(model, module, module),
{
}

/// A public binding is visible from every module.
pub proof fn lemma_public_visible(model: EnvModel, importing: ModuleRef, binding: BindingView)
    requires
        binding.visibility == VisibilityView::Public,
    ensures
        binding_visible(model, importing, binding),
{
}

/// Another target sees a binding only when it is public.
pub proof fn lemma_cross_target_needs_public(model: EnvModel, importing: ModuleRef, binding: BindingView)
    requires
        importing.target != binding.owner.target,
        binding_visible(model, importing, binding),
    ensures
        binding.visibility == VisibilityView::Public,
{
}

/// A private binding is visible from the module that declares it.
pub proof fn lemma_private_visible_in_owner(model: EnvModel, binding: BindingView)
    requires
        binding.visibility == VisibilityView::Private,
    ensures
        binding_visible(model, binding.owner, binding),
{
}

/// The visible part of a bucket holds only visible bindings of the bucket.
pub proof fn lemma_visible_bucket_sound(model: EnvModel, importing: ModuleRef, bindings: Seq<BindingView>, b: BindingView)
    requires
        visible_bucket(model, importing, bindings).contains(b),
    ensures
        bindings.contains(b),
        binding_visible(model, importing, b),
    decreases bindings.len(),
{
    let before = visible_bucket(model, importing, bindings.drop_last());
    let last = bindings.last();
    if before.contains(b) {
        lemma_visible_bucket_sound(model, importing, bindings.drop_last(), b);
        let k = choose|k: int| 0 <= k < bindings.drop_last().len() && bindings.drop_last()[k] == b;
        assert(bindings[k] == b);
    } else {
        assert(binding_visible(model, importing, last) && !before.contains(last));
        let pushed = before.push(last);
        let i = choose|i: int| 0 <= i < pushed.len() && pushed[i] == b;
        assert(b == last);
        assert(bindings[bindings.len() - 1] == b);
    }
}

/// A binding of a rebound bucket was already there or re-introduces one of `bindings`.
proof fn lemma_entry_rebound_origin(
    entry: EntryView,
    namespace: Namespace,
    bindings: Seq<BindingView>,
    visibility: VisibilityView,
    owner: ModuleRef,
    other: Namespace,
    b: BindingView,
)
    requires
        entry_rebound(entry, namespace, bindings, visibility, owner).bucket(other).contains(b),
    ensures
        entry.bucket(other).contains(b) || (other == namespace && exists|i: int|
            0 <= i < bindings.len() && b == rebind(#[trigger] bindings[i], visibility, owner)),
    decreases bindings.len(),
{
    if bindings.len() > 0 {
        let before = entry_rebound(entry, namespace, bindings.drop_last(), visibility, owner);
        let nb = rebind(bindings.last(), visibility, owner);
        if before.bucket(other).contains(b) {
            lemma_entry_rebound_origin(entry, namespace, bindings.drop_last(), visibility, owner, other, b);
            if !entry.bucket(other).contains(b) {
                let i = choose|i: int| 0 <= i < bindings.drop_last().len() && b == rebind(bindings.drop_last()[i], visibility, owner);
                assert(bindings[i] == bindings.drop_last()[i]);
            }
        } else {
            assert(!before.bucket(namespace).contains(nb));
            if other != namespace {
                assert(before.insert(namespace, nb).bucket(other) == before.bucket(other));
            } else {
                let pushed = before.bucket(namespace).push(nb);
                assert(before.insert(namespace, nb).bucket(namespace) == pushed);
                let i = choose|i: int| 0 <= i < pushed.len() && pushed[i] == b;
                assert(b == nb);
                assert(b == rebind(bindings[bindings.len() - 1], visibility, owner));
            }
        }
    }
}

/// A glob import adds to the importing scope only bindings that re-introduce, with the
/// import's visibility and owner, bindings of the source module visible from the importing
/// module, under the same name and in the same namespace.
pub proof fn lemma_glob_adds_only_visible(
    model: EnvModel,
    target: ScopeView,
    source: ModuleRef,
    visibility: VisibilityView,
    owner: ModuleRef,
    name: Seq<char>,
    namespace: Namespace,
    b: BindingView,
)
    requires
        glob_merge(target, visible_scope(model, owner, source), visibility, owner).contains_key(name),
        glob_merge(target, visible_scope(model, owner, source), visibility, owner)[name].bucket(namespace).contains(b),
        !entry_or_empty(target, name).bucket(namespace).contains(b),
    ensures
        exists|scope: ScopeView, original: BindingView|
            model.module_scope(source) == Some(scope) && scope.contains_key(name) && #[trigger] scope[name].bucket(
                namespace,
            ).contains(original) && binding_visible(model, owner, original) && b == rebind(original, visibility, owner)
                && b.def == original.def && b.visibility == visibility && b.owner == owner,
{
    let visible = visible_scope(model, owner, source);
    if !visible.contains_key(name) {
        assert(glob_merge(target, visible, visibility, owner)[name] == target[name]);
        assert(entry_or_empty(target, name) == target[name]);
    } else {
        let scope = model.module_scope(source)->0;
        let src = visible_entry(model, owner, scope[name]);
        let start = entry_or_empty(target, name);
        let with_types = entry_rebound(start, Namespace::Types, src.types, visibility, owner);
        let with_values = entry_rebound(with_types, Namespace::Values, src.values, visibility, owner);
        let merged = entry_rebound(with_values, Namespace::Macros, src.macros, visibility, owner);
        assert(merged == merge_entry(start, src, visibility, owner));
        lemma_entry_rebound_origin(with_values, Namespace::Macros, src.macros, visibility, owner, namespace, b);
        let original = if with_values.bucket(namespace).contains(b) {
            lemma_entry_rebound_origin(with_types, Namespace::Values, src.values, visibility, owner, namespace, b);
            if with_types.bucket(namespace).contains(b) {
                lemma_entry_rebound_origin(start, Namespace::Types, src.types, visibility, owner, namespace, b);
                let i = choose|i: int| 0 <= i < src.types.len() && b == rebind(#[trigger] src.types[i], visibility, owner);
                src.types[i]
            } else {
                let i = choose|i: int| 0 <= i < src.values.len() && b == rebind(#[trigger] src.values[i], visibility, owner);
                src.values[i]
            }
        } else {
            let i = choose|i: int| 0 <= i < src.macros.len() && b == rebind(#[trigger] src.macros[i], visibility, owner);
            src.macros[i]
        };
        assert(src.bucket(namespace).contains(original));
        lemma_visible_bucket_sound(model, owner, scope[name].bucket(namespace), original);
        assert(scope[name].bucket(namespace).contains(original));
    }
}

proof fn lemma_with_scope_other(scopes: ScopesView, module: ModuleRef, scope: ScopeView, other: ModuleRef)
    requires
        has_scope(scopes, module),
        has_scope(scopes, other),
        module != other,
    ensures
        has_scope(with_scope(scopes, module, scope), other),
        scope_at(with_scope(scopes, module, scope), other) == scope_at(scopes, other),
{
}

proof fn lemma_with_scope_shape(scopes: ScopesView, module: ModuleRef, scope: ScopeView)
    requires
        has_scope(scopes, module),
    ensures
        forall|m: ModuleRef| has_scope(scopes, m) ==> #[trigger] has_scope(with_scope(scopes, module, scope), m),
{
}

proof fn lemma_named_keeps_others(
    model: EnvModel,
    owner: ModuleRef,
    name: Seq<char>,
    visibility: VisibilityView,
    defs: Seq<DefId>,
    next: ScopesView,
    other: ModuleRef,
)
    requires
        has_scope(next, owner),
        has_scope(next, other),
        owner != other,
    ensures
        has_scope(named_applied(model, owner, name, visibility, defs, next), owner),
        has_scope(named_applied(model, owner, name, visibility, defs, next), other),
        scope_at(named_applied(model, owner, name, visibility, defs, next), other) == scope_at(next, other),
    decreases defs.len(),
{
    if defs.len() > 0 {
        lemma_named_keeps_others(model, owner, name, visibility, defs.drop_last(), next, other);
        let before = named_applied(model, owner, name, visibility, defs.drop_last(), next);
        lemma_with_scope_shape(before, owner, scope_at(before, owner));
    }
}

proof fn lemma_globs_keep_others(
    model: EnvModel,
    owner: ModuleRef,
    sources: Seq<ModuleRef>,
    visibility: VisibilityView,
    next: ScopesView,
    other: ModuleRef,
)
    requires
        has_scope(next, owner),
        has_scope(next, other),
        owner != other,
    ensures
        has_scope(globs_applied(model, owner, sources, visibility, next), owner),
        has_scope(globs_applied(model, owner, sources, visibility, next), other),
        scope_at(globs_applied(model, owner, sources, visibility, next), other) == scope_at(next, other),
    decreases sources.len(),
{
    if sources.len() > 0 {
        lemma_globs_keep_others(model, owner, sources.drop_last(), visibility, next, other);
        let before = globs_applied(model, owner, sources.drop_last(), visibility, next);
        lemma_with_scope_shape(before, owner, scope_at(before, owner));
    }
}

/// Applying the imports of one target leaves the scope of every module of another target as it
/// was: an import binds names only in the module that declares it.
pub proof fn lemma_imports_keep_other_targets(
    model: EnvModel,
    target: TargetRef,
    imports: Seq<ImportView>,
    next: ScopesView,
    other: ModuleRef,
)
    requires
        forall|i: int| 0 <= i < imports.len() ==> has_scope(next, ModuleRef { target, module: (#[trigger] imports[i]).module }),
        has_scope(next, other),
        other.target != target,
    ensures
        has_scope(imports_applied(model, target, imports, next), other),
        scope_at(imports_applied(model, target, imports, next), other) == scope_at(next, other),
        forall|i: int|
            0 <= i < imports.len() ==> has_scope(
                imports_applied(model, target, imports, next),
                ModuleRef { target, module: (#[trigger] imports[i]).module },
            ),
    decreases imports.len(),
{
    if imports.len() > 0 {
        let rest = imports.drop_last();
        lemma_imports_keep_other_targets(model, target, rest, next, other);
        let before = imports_applied(model, target, rest, next);
        let import = imports.last();
        let owner = ModuleRef { target, module: import.module };
        assert(has_scope(next, ModuleRef { target, module: imports[imports.len() - 1].module }));
        assert forall|i: int| 0 <= i < imports.len() implies has_scope(
            before,
            ModuleRef { target, module: (#[trigger] imports[i]).module },
        ) by {
            if i < imports.len() - 1 {
                assert(imports[i] == rest[i]);
            } else {
                lemma_imports_keep_shape(model, target, rest, next, owner);
            }
        }
        assert(has_scope(before, owner));
        assert forall|i: int| 0 <= i < imports.len() implies has_scope(
            import_applied(model, target, import, before),
            ModuleRef { target, module: (#[trigger] imports[i]).module },
        ) by {
            let m = ModuleRef { target, module: imports[i].module };
            match import.kind {
                ImportKind::Glob => {
                    lemma_globs_shape(model, owner, crate::imports::path_modules(model, owner, import.path), import.visibility, before, m);
                },
                _ => {
                    if let Some(name) = import.binding {
                        lemma_named_shape(
                            model,
                            owner,
                            name,
                            import.visibility,
                            crate::resolution::resolve_path(model, owner, import.path.absolute, import.path.segments, false).resolved,
                            before,
                            m,
                        );
                    }
                },
            }
        }
        match import.kind {
            ImportKind::Glob => {
                lemma_globs_keep_others(model, owner, crate::imports::path_modules(model, owner, import.path), import.visibility, before, other);
            },
            _ => {
                if let Some(name) = import.binding {
                    lemma_named_keeps_others(
                        model,
                        owner,
                        name,
                        import.visibility,
                        crate::resolution::resolve_path(model, owner, import.path.absolute, import.path.segments, false).resolved,
                        before,
                        other,
                    );
                }
            },
        }
    }
}

proof fn lemma_named_shape(
    model: EnvModel,
    owner: ModuleRef,
    name: Seq<char>,
    visibility: VisibilityView,
    defs: Seq<DefId>,
    next: ScopesView,
    m: ModuleRef,
)
    requires
        has_scope(next, owner),
        has_scope(next, m),
    ensures
        has_scope(named_applied(model, owner, name, visibility, defs, next), m),
        has_scope(named_applied(model, owner, name, visibility, defs, next), owner),
    decreases defs.len(),
{
    if defs.len() > 0 {
        lemma_named_shape(model, owner, name, visibility, defs.drop_last(), next, m);
        let before = named_applied(model, owner, name, visibility, defs.drop_last(), next);
        lemma_with_scope_shape(before, owner, scope_at(before, owner));
    }
}

proof fn lemma_globs_shape(
    model: EnvModel,
    owner: ModuleRef,
    sources: Seq<ModuleRef>,
    visibility: VisibilityView,
    next: ScopesView,
    m: ModuleRef,
)
    requires
        has_scope(next, owner),
        has_scope(next, m),
    ensures
        has_scope(globs_applied(model, owner, sources, visibility, next), m),
        has_scope(globs_applied(model, owner, sources, visibility, next), owner),
    decreases sources.len(),
{
    if sources.len() > 0 {
        lemma_globs_shape(model, owner, sources.drop_last(), visibility, next, m);
        let before = globs_applied(model, owner, sources.drop_last(), visibility, next);
        lemma_with_scope_shape(before, owner, scope_at(before, owner));
    }
}

proof fn lemma_imports_keep_shape(model: EnvModel, target: TargetRef, imports: Seq<ImportView>, next: ScopesView, m: ModuleRef)
    requires
        forall|i: int| 0 <= i < imports.len() ==> has_scope(next, ModuleRef { target, module: (#[trigger] imports[i]).module }),
        has_scope(next, m),
    ensures
        has_scope(imports_applied(model, target, imports, next), m),
    decreases imports.len(),
{
    if imports.len() > 0 {
        let rest = imports.drop_last();
        assert forall|i: int| 0 <= i < rest.len() implies has_scope(next, ModuleRef { target, module: (#[trigger] rest[i]).module }) by {
            assert(rest[i] == imports[i]);
        }
        lemma_imports_keep_shape(model, target, rest, next, m);
        let before = imports_applied(model, target, rest, next);
        let import = imports.last();
        let owner = ModuleRef { target, module: import.module };
        assert(has_scope(next, ModuleRef { target, module: imports[imports.len() - 1].module }));
        lemma_imports_keep_shape(model, target, rest, next, owner);
        match import.kind {
            ImportKind::Glob => {
                lemma_globs_shape(model, owner, crate::imports::path_modules(model, owner, import.path), import.visibility, before, m);
            },
            _ => {
                if let Some(name) = import.binding {
                    lemma_named_shape(
                        model,
                        owner,
                        name,
                        import.visibility,
                        crate::resolution::resolve_path(model, owner, import.path.absolute, import.path.segments, false).resolved,
                        before,
                        m,
                    );
                }
            },
        }
    }
}

/// A `pub(super)` binding is visible from the parent of the module that declares it, and from
/// every module nested in that parent.
pub proof fn lemma_super_visible_from_parent(model: EnvModel, importing: ModuleRef, parent: ModuleRef, binding: BindingView)
    requires
        binding.visibility == VisibilityView::Super,
        model.parent_module(binding.owner.target, binding.owner.module) == Some(parent),
        is_descendant(model, importing, parent),
    ensures
        binding_visible(model, importing, binding),
{
}

/// A `pub(super)` binding declared in a module with a parent is visible from that parent.
pub proof fn lemma_super_visible_in_parent(model: EnvModel, parent: ModuleRef, binding: BindingView)
    requires
        binding.visibility == VisibilityView::Super,
        model.parent_module(binding.owner.target, binding.owner.module) == Some(parent),
    ensures
        binding_visible(model, parent, binding),
{
    lemma_descendant_reflexive(model, parent);
}

/// A bucket after inserting a binding holds exactly what it held before, plus that binding in
/// its namespace.
proof fn lemma_entry_insert_contains(entry: EntryView, namespace: Namespace, binding: BindingView, other: Namespace, b: BindingView)
    ensures
        entry.insert(namespace, binding).bucket(other).contains(b) <==> (entry.bucket(other).contains(b) || (other
            == namespace && b == binding)),
{
    if !entry.bucket(namespace).contains(binding) {
        let pushed = entry.bucket(namespace).push(binding);
        let inserted = entry.with_bucket(namespace, pushed);
        if other == namespace {
            assert(inserted.bucket(other) == pushed);
            if pushed.contains(b) && b != binding {
                let i = choose|i: int| 0 <= i < pushed.len() && pushed[i] == b;
                assert(i < entry.bucket(namespace).len());
                assert(entry.bucket(namespace)[i] == b);
            }
            if entry.bucket(other).contains(b) {
                let i = choose|i: int| 0 <= i < entry.bucket(other).len() && entry.bucket(other)[i] == b;
                assert(pushed[i] == b);
            }
            if b == binding {
                assert(pushed[pushed.len() - 1] == b);
            }
        } else {
            assert(inserted.bucket(other) == entry.bucket(other));
        }
    }
}

/// Under `name` in `owner`, every binding of `after` was already in `before`, or carries
/// `visibility` and has `owner` as its owner.
pub open spec fn only_new_with(
    before: ScopesView,
    after: ScopesView,
    owner: ModuleRef,
    name: Seq<char>,
    visibility: VisibilityView,
) -> bool {
    forall|namespace: Namespace, b: BindingView|
        #[trigger] entry_or_empty(scope_at(after, owner), name).bucket(namespace).contains(b) ==> entry_or_empty(
            scope_at(before, owner),
            name,
        ).bucket(namespace).contains(b) || (b.visibility == visibility && b.owner == owner)
}

/// Under `name` in `owner`, every binding of `before` is still in `after`.
pub open spec fn keeps_bindings(before: ScopesView, after: ScopesView, owner: ModuleRef, name: Seq<char>) -> bool {
    forall|namespace: Namespace, b: BindingView|
        #[trigger] entry_or_empty(scope_at(before, owner), name).bucket(namespace).contains(b) ==> entry_or_empty(
            scope_at(after, owner),
            name,
        ).bucket(namespace).contains(b)
}

proof fn lemma_named_bindings(
    model: EnvModel,
    owner: ModuleRef,
    name: Seq<char>,
    visibility: VisibilityView,
    defs: Seq<DefId>,
    next: ScopesView,
)
    requires
        has_scope(next, owner),
    ensures
        has_scope(named_applied(model, owner, name, visibility, defs, next), owner),
        only_new_with(next, named_applied(model, owner, name, visibility, defs, next), owner, name, visibility),
        keeps_bindings(next, named_applied(model, owner, name, visibility, defs, next), owner, name),
        forall|i: int|
            0 <= i < defs.len() && crate::imports::def_namespace(model, #[trigger] defs[i]) is Some ==> entry_or_empty(
                scope_at(named_applied(model, owner, name, visibility, defs, next), owner),
                name,
            ).bucket(crate::imports::def_namespace(model, defs[i])->0).contains(BindingView { def: defs[i], visibility, owner }),
    decreases defs.len(),
{
    if defs.len() > 0 {
        let rest = defs.drop_last();
        lemma_named_bindings(model, owner, name, visibility, rest, next);
        let before = named_applied(model, owner, name, visibility, rest, next);
        let after = named_applied(model, owner, name, visibility, defs, next);
        lemma_with_scope_shape(before, owner, scope_at(before, owner));
        match crate::imports::def_namespace(model, defs.last()) {
            Some(namespace) => {
                let bv = BindingView { def: defs.last(), visibility, owner };
                let scope = scope_at(before, owner);
                assert(after == with_scope(before, owner, scope_insert(scope, name, namespace, bv)));
                assert(scope_at(after, owner) == scope_insert(scope, name, namespace, bv));
                assert(entry_or_empty(scope_at(after, owner), name) == entry_or_empty(scope, name).insert(namespace, bv));
                assert forall|ns: Namespace, b: BindingView|
                    #[trigger] entry_or_empty(scope_at(after, owner), name).bucket(ns).contains(b) implies entry_or_empty(
                        scope_at(next, owner),
                        name,
                    ).bucket(ns).contains(b) || (b.visibility == visibility && b.owner == owner) by {
                    lemma_entry_insert_contains(entry_or_empty(scope, name), namespace, bv, ns, b);
                }
                assert forall|ns: Namespace, b: BindingView|
                    #[trigger] entry_or_empty(scope_at(next, owner), name).bucket(ns).contains(b) implies entry_or_empty(
                        scope_at(after, owner),
                        name,
                    ).bucket(ns).contains(b) by {
                    assert(entry_or_empty(scope_at(before, owner), name).bucket(ns).contains(b));
                    lemma_entry_insert_contains(entry_or_empty(scope, name), namespace, bv, ns, b);
                }
                assert forall|i: int|
                    0 <= i < defs.len() && crate::imports::def_namespace(model, #[trigger] defs[i]) is Some implies entry_or_empty(
                        scope_at(after, owner),
                        name,
                    ).bucket(crate::imports::def_namespace(model, defs[i])->0).contains(BindingView { def: defs[i], visibility, owner }) by {
                    let ns = crate::imports::def_namespace(model, defs[i])->0;
                    let b = BindingView { def: defs[i], visibility, owner };
                    if i < defs.len() - 1 {
                        assert(rest[i] == defs[i]);
                        assert(entry_or_empty(scope_at(before, owner), name).bucket(ns).contains(b));
                    }
                    lemma_entry_insert_contains(entry_or_empty(scope, name), namespace, bv, ns, b);
                }
            },
            None => {
                assert forall|i: int|
                    0 <= i < defs.len() && crate::imports::def_namespace(model, #[trigger] defs[i]) is Some implies entry_or_empty(
                        scope_at(after, owner),
                        name,
                    ).bucket(crate::imports::def_namespace(model, defs[i])->0).contains(BindingView { def: defs[i], visibility, owner }) by {
                    assert(i < defs.len() - 1);
                    assert(rest[i] == defs[i]);
                }
            },
        }
    }
}

/// A named import (`vis use path as name;`) binds `name` in its module with the import's own
/// visibility: each definition the path resolves to, in a namespace, is bound under `name`
/// with that visibility and the importing module as owner; every other binding under `name` was
/// there before, and none of those is lost.
pub proof fn lemma_named_import_visibility(model: EnvModel, target: TargetRef, import: ImportView, next: ScopesView)
    requires
        !(import.kind is Glob),
        import.binding is Some,
        has_scope(next, ModuleRef { target, module: import.module }),
    ensures
        ({
            let owner = ModuleRef { target, module: import.module };
            let name = import.binding->0;
            let after = import_applied(model, target, import, next);
            let defs = crate::resolution::resolve_path(model, owner, import.path.absolute, import.path.segments, false).resolved;
            &&& only_new_with(next, after, owner, name, import.visibility)
            &&& keeps_bindings(next, after, owner, name)
            &&& forall|i: int|
                0 <= i < defs.len() && crate::imports::def_namespace(model, #[trigger] defs[i]) is Some ==> entry_or_empty(
                    scope_at(after, owner),
                    name,
                ).bucket(crate::imports::def_namespace(model, defs[i])->0).contains(
                    BindingView { def: defs[i], visibility: import.visibility, owner },
                )
        }),
{
    let owner = ModuleRef { target, module: import.module };
    let defs = crate::resolution::resolve_path(model, owner, import.path.absolute, import.path.segments, false).resolved;
    lemma_named_bindings(model, owner, import.binding->0, import.visibility, defs, next);
}

/// A private (or `pub(self)`) binding is visible exactly from the module that declares it and
/// the modules nested in it.
pub proof fn lemma_private_visible_in_subtree(model: EnvModel, importing: ModuleRef, binding: BindingView)
    requires
        binding.visibility == VisibilityView::Private || binding.visibility == VisibilityView::SelfVis,
    ensures
        binding_visible(model, importing, binding) <==> is_descendant(model, importing, binding.owner),
{
}

/// A `pub(crate)` binding is visible exactly from the modules of the target that declares it.
pub proof fn lemma_crate_visible_in_target(model: EnvModel, importing: ModuleRef, binding: BindingView)
    requires
        binding.visibility == VisibilityView::Crate,
    ensures
        binding_visible(model, importing, binding) <==> importing.target == binding.owner.target,
{
}

/// A `pub(super)` binding is visible exactly from the parent of the module that declares it and
/// the modules nested in that parent; declared in a module without a parent, it is visible from
/// nowhere.
pub proof fn lemma_super_visible_exactly(model: EnvModel, importing: ModuleRef, binding: BindingView)
    requires
        binding.visibility == VisibilityView::Super,
    ensures
        binding_visible(model, importing, binding) <==> (model.parent_module(binding.owner.target, binding.owner.module) matches Some(
            parent,
        ) && is_descendant(model, importing, parent)),
{
}

} // verus!
