//! Name lookups inside lowered bodies: lexical bindings and body-local items.

use vstd::prelude::*;

use crate::body::{BodyData, BindingData, BodyImplData, BodyItemData, entry_at, field_has_key};
use crate::body_ids::{BindingId, BodyFieldRef, BodyItemId, BodyItemRef, BodyRef, ExprId, ScopeId};
use crate::cursor::{path_from_type_path_prefix, type_path_prefix};
use crate::item_tree::{FieldKey, TraitRef, TypeDefRef, TypeRef};

verus! {

/// The binding is named `name`.
pub open spec fn binding_named(binding: BindingData, name: Seq<char>) -> bool {
    match binding.name {
        Some(n) => n@ == name,
        None => false,
    }
}

/// Scans `ids[..k]` from the last entry back for a binding named `name` among those below
/// `limit`. `Some(Some(b))`: found `b`; `Some(None)`: none here; `None`: a listed binding does
/// not exist, and the lookup gives up.
pub open spec fn scan_bindings(
    bindings: Seq<BindingData>,
    ids: Seq<BindingId>,
    k: int,
    name: Seq<char>,
    limit: nat,
) -> Option<Option<BindingId>>
    decreases k,
{
    if k <= 0 {
        Some(None)
    } else {
        let b = ids[k - 1];
        if b.0 >= limit {
            scan_bindings(bindings, ids, k - 1, name, limit)
        } else if b.0 >= bindings.len() {
            None
        } else if binding_named(bindings[b.0 as int], name) {
            Some(Some(b))
        } else {
            scan_bindings(bindings, ids, k - 1, name, limit)
        }
    }
}

/// The binding `name` refers to from `scope`: the latest binding below `limit` named `name`
/// in the scope, else in its parent, and so on outward.
pub open spec fn lookup_local_name(body: BodyData, scope: ScopeId, name: Seq<char>, limit: nat) -> Option<BindingId>
    decreases scope.0,
{
    match entry_at(body.scopes@, scope.0) {
        None => None,
        Some(data) => match scan_bindings(body.bindings@, data.bindings@, data.bindings@.len() as int, name, limit) {
            None => None,
            Some(Some(b)) => Some(b),
            Some(None) => match data.parent {
                Some(parent) => if parent.0 < scope.0 {
                    lookup_local_name(body, parent, name, limit)
                } else {
                    None
                },
                None => None,
            },
        },
    }
}

proof fn lemma_scan_found(bindings: Seq<BindingData>, ids: Seq<BindingId>, k: int, name: Seq<char>, limit: nat)
    requires
        0 <= k <= ids.len(),
    ensures
        scan_bindings(bindings, ids, k, name, limit) matches Some(Some(b)) ==> b.0 < limit && b.0
            < bindings.len() && binding_named(bindings[b.0 as int], name),
    decreases k,
{
    if k > 0 {
        lemma_scan_found(bindings, ids, k - 1, name, limit);
    }
}

/// What a local name refers to is always a binding of that name declared before the
/// expression.
pub proof fn lemma_local_name_found(body: BodyData, scope: ScopeId, name: Seq<char>, limit: nat)
    ensures
        lookup_local_name(body, scope, name, limit) matches Some(b) ==> b.0 < limit && b.0
            < body.bindings@.len() && binding_named(body.bindings@[b.0 as int], name),
    decreases scope.0,
{
    match entry_at(body.scopes@, scope.0) {
        None => {},
        Some(data) => {
            lemma_scan_found(body.bindings@, data.bindings@, data.bindings@.len() as int, name, limit);
            match data.parent {
                Some(parent) => if parent.0 < scope.0 {
                    lemma_local_name_found(body, parent, name, limit);
                },
                None => {},
            }
        },
    }
}

/// Resolves a bare name in value position to the local binding it refers to from `scope`, for
/// the expression `expr`: only bindings declared before the expression are candidates, and
/// inner scopes and later declarations shadow outer and earlier ones.
pub fn resolve_local_name(body: &BodyData, scope: ScopeId, name: &String, expr: ExprId) -> (r: Option<BindingId>)
    requires
        expr.0 < body.exprs@.len(),
    ensures
        r == lookup_local_name(*body, scope, name@, body.exprs@[expr.0 as int].visible_bindings as nat),
{
    let limit = body.exprs[expr.0].visible_bindings;
    let ghost target = lookup_local_name(*body, scope, name@, limit as nat);
    let mut current = scope;
    loop
        invariant
            target == lookup_local_name(*body, current, name@, limit as nat),
            target == lookup_local_name(*body, scope, name@, limit as nat),
            limit == body.exprs@[expr.0 as int].visible_bindings,
        decreases current.0,
    {
        let scope_data = match body.scope(current) {
            Some(data) => data,
            None => return None,
        };
        let ids = &scope_data.bindings;
        let mut k: usize = ids.len();
        while k > 0
            invariant
                k <= ids@.len(),
                target == lookup_local_name(*body, current, name@, limit as nat),
                target == lookup_local_name(*body, scope, name@, limit as nat),
                limit == body.exprs@[expr.0 as int].visible_bindings,
                current.0 < body.scopes@.len(),
                body.scopes@[current.0 as int] == *scope_data,
                ids == &scope_data.bindings,
                scan_bindings(body.bindings@, ids@, ids@.len() as int, name@, limit as nat)
                    == scan_bindings(body.bindings@, ids@, k as int, name@, limit as nat),
            decreases k,
        {
            let binding = ids[k - 1];
            if binding.0 < limit {
                let binding_data = match body.binding(binding) {
                    Some(data) => data,
                    None => return None,
                };
                let named = match &binding_data.name {
                    Some(n) => *n == *name,
                    None => false,
                };
                if named {
                    return Some(binding);
                }
            }
            k = k - 1;
        }
        match scope_data.parent {
            Some(parent) => {
                proof {
                    assert(body.scopes@[current.0 as int].parent == Some(parent));
                }
                if parent.0 >= current.0 {
                    return None;
                }
                current = parent;
            },
            None => return None,
        }
    }
}

/// The item `name` refers to from `scope` in type position: the latest body-local item of that
/// name in the scope, else in its parent, and so on outward. `None` also when a listed item
/// does not exist.
pub open spec fn lookup_local_type_item(body: BodyData, scope: ScopeId, name: Seq<char>) -> Option<BodyItemId>
    decreases scope.0,
{
    match entry_at(body.scopes@, scope.0) {
        None => None,
        Some(data) => match scan_items(body.local_items@, data.local_items@, data.local_items@.len() as int, name) {
            None => None,
            Some(Some(item)) => Some(item),
            Some(None) => match data.parent {
                Some(parent) => if parent.0 < scope.0 {
                    lookup_local_type_item(body, parent, name)
                } else {
                    None
                },
                None => None,
            },
        },
    }
}

/// Scans `ids[..k]` from the last entry back for an item named `name`, as [`scan_bindings`].
pub open spec fn scan_items(items: Seq<BodyItemData>, ids: Seq<BodyItemId>, k: int, name: Seq<char>) -> Option<Option<BodyItemId>>
    decreases k,
{
    if k <= 0 {
        Some(None)
    } else {
        let item = ids[k - 1];
        if item.0 >= items.len() {
            None
        } else if items[item.0 as int].name@ == name {
            Some(Some(item))
        } else {
            scan_items(items, ids, k - 1, name)
        }
    }
}

/// Resolves a bare name in type position to a body-local item, walking from the innermost scope
/// outward so that body-local items shadow outer declarations like lexical bindings do.
pub fn resolve_local_type_item(body: &BodyData, scope: ScopeId, name: &String) -> (r: Option<BodyItemId>)
    ensures
        r == lookup_local_type_item(*body, scope, name@),
{
    let ghost target = lookup_local_type_item(*body, scope, name@);
    let mut current = scope;
    loop
        invariant
            target == lookup_local_type_item(*body, current, name@),
            target == lookup_local_type_item(*body, scope, name@),
        decreases current.0,
    {
        let scope_data = match body.scope(current) {
            Some(data) => data,
            None => return None,
        };
        let ids = &scope_data.local_items;
        let mut k: usize = ids.len();
        while k > 0
            invariant
                k <= ids@.len(),
                target == lookup_local_type_item(*body, current, name@),
                target == lookup_local_type_item(*body, scope, name@),
                current.0 < body.scopes@.len(),
                body.scopes@[current.0 as int] == *scope_data,
                ids == &scope_data.local_items,
                scan_items(body.local_items@, ids@, ids@.len() as int, name@)
                    == scan_items(body.local_items@, ids@, k as int, name@),
            decreases k,
        {
            let item = ids[k - 1];
            let item_data = match body.local_item(item) {
                Some(data) => data,
                None => return None,
            };
            if item_data.name == *name {
                return Some(item);
            }
            k = k - 1;
        }
        match scope_data.parent {
            Some(parent) => {
                proof {
                    assert(body.scopes@[current.0 as int].parent == Some(parent));
                }
                if parent.0 >= current.0 {
                    return None;
                }
                current = parent;
            },
            None => return None,
        }
    }
}

/// The body-local item that a type written in `scope` names: a relative one-segment path whose
/// name a local item of that scope or an enclosing one declares. Other paths resolve outside the
/// body, never to a local item.
pub open spec fn local_item_for_type(body: BodyData, body_ref: BodyRef, scope: ScopeId, ty: TypeRef) -> Option<BodyItemRef> {
    match ty {
        TypeRef::Path(path) => match type_path_prefix(path, path.segments@.len() as int).single_name() {
            Some(name) => match lookup_local_type_item(body, scope, name) {
                Some(item) => Some(BodyItemRef { body: body_ref, item }),
                None => None,
            },
            None => None,
        },
        _ => None,
    }
}

/// Resolves a type written in `scope` to the body-local item it names, if any.
pub fn local_item_from_type_ref_in_scope(body: &BodyData, body_ref: BodyRef, ty: &TypeRef, scope: ScopeId) -> (r: Option<BodyItemRef>)
    ensures
        r == local_item_for_type(*body, body_ref, scope, *ty),
{
    match ty {
        TypeRef::Path(type_path) => {
            let path = path_from_type_path_prefix(type_path, type_path.segments.len());
            match path.single_name() {
                Some(name) => match resolve_local_type_item(body, scope, name) {
                    Some(item) => Some(BodyItemRef { body: body_ref, item }),
                    None => None,
                },
                None => None,
            }
        },
        _ => None,
    }
}

/// Links every body-local impl to the local item its self type names, so that method lookup
/// can match receivers by local item identity. Nothing else of the body changes.
pub fn resolve_local_impls(body: &mut BodyData, body_ref: BodyRef)
    ensures
        final(body).local_impls@.len() == old(body).local_impls@.len(),
        forall|i: int|
            0 <= i < old(body).local_impls@.len() ==> #[trigger] final(body).local_impls@[i] == (BodyImplData {
                self_item: local_item_for_type(*old(body), body_ref, old(body).local_impls@[i].scope, old(body).local_impls@[i].self_ty),
                ..old(body).local_impls@[i]
            }),
        final(body).scopes == old(body).scopes,
        final(body).local_items == old(body).local_items,
        final(body).local_functions == old(body).local_functions,
        final(body).bindings == old(body).bindings,
        final(body).pats == old(body).pats,
        final(body).statements == old(body).statements,
        final(body).exprs == old(body).exprs,
        final(body).params == old(body).params,
        final(body).root_expr == old(body).root_expr,
        final(body).param_scope == old(body).param_scope,
        final(body).owner == old(body).owner,
        final(body).owner_module == old(body).owner_module,
        final(body).source == old(body).source,
{
    let ghost b0 = *body;
    let mut links: Vec<Option<BodyItemRef>> = Vec::new();
    let mut i: usize = 0;
    while i < body.local_impls.len()
        invariant
            *body == b0,
            i <= b0.local_impls@.len(),
            links@.len() == i,
            forall|j: int|
                0 <= j < i ==> #[trigger] links@[j] == local_item_for_type(b0, body_ref, b0.local_impls@[j].scope, b0.local_impls@[j].self_ty),
        decreases body.local_impls.len() - i,
    {
        let link = local_item_from_type_ref_in_scope(body, body_ref, &body.local_impls[i].self_ty, body.local_impls[i].scope);
        links.push(link);
        i = i + 1;
    }
    let mut i: usize = 0;
    while i < body.local_impls.len()
        invariant
            i <= body.local_impls@.len(),
            links@.len() == b0.local_impls@.len(),
            body.local_impls@.len() == b0.local_impls@.len(),
            body.scopes == b0.scopes,
            body.local_items == b0.local_items,
            body.local_functions == b0.local_functions,
            body.bindings == b0.bindings,
            body.pats == b0.pats,
            body.statements == b0.statements,
            body.exprs == b0.exprs,
            body.params == b0.params,
            body.root_expr == b0.root_expr,
            body.param_scope == b0.param_scope,
            body.owner == b0.owner,
            body.owner_module == b0.owner_module,
            body.source == b0.source,
            forall|j: int|
                0 <= j < b0.local_impls@.len() ==> #[trigger] links@[j] == local_item_for_type(b0, body_ref, b0.local_impls@[j].scope, b0.local_impls@[j].self_ty),
            forall|j: int| i <= j < b0.local_impls@.len() ==> #[trigger] body.local_impls@[j] == b0.local_impls@[j],
            forall|j: int|
                0 <= j < i ==> #[trigger] body.local_impls@[j] == (BodyImplData { self_item: links@[j], ..b0.local_impls@[j] }),
        decreases body.local_impls.len() - i,
    {
        body.local_impls[i].self_item = links[i];
        i = i + 1;
    }
}

/// The field of a body-local item of this body declared under `key`: the first field with that
/// key. Items of other bodies have no fields here.
pub fn local_field_for_type(body: &BodyData, body_ref: BodyRef, item_ref: BodyItemRef, key: &FieldKey) -> (r: Option<BodyFieldRef>)
    ensures
        match r {
            Some(field) => item_ref.body == body_ref && item_ref.item.0 < body.local_items@.len() && field.item == item_ref
                && field.index < body.local_items@[item_ref.item.0 as int].fields.fields@.len() && field_has_key(
                body.local_items@[item_ref.item.0 as int].fields.fields@[field.index as int],
                key@,
            ) && forall|j: int|
                0 <= j < field.index ==> !field_has_key(#[trigger] body.local_items@[item_ref.item.0 as int].fields.fields@[j], key@),
            None => item_ref.body != body_ref || item_ref.item.0 >= body.local_items@.len() || forall|j: int|
                0 <= j < body.local_items@[item_ref.item.0 as int].fields.fields@.len() ==> !field_has_key(
                    #[trigger] body.local_items@[item_ref.item.0 as int].fields.fields@[j],
                    key@,
                ),
        },
{
    if item_ref.body != body_ref {
        return None;
    }
    let item = match body.local_item(item_ref.item) {
        Some(item) => item,
        None => return None,
    };
    match item.field_index(key) {
        Some(index) => Some(BodyFieldRef { item: item_ref, index }),
        None => None,
    }
}

/// What a type path written inside a body names.
#[derive(Debug)]
pub enum BodyTypePathResolution {
    BodyLocal(BodyItemRef),
    SelfType(Vec<TypeDefRef>),
    TypeDefs(Vec<TypeDefRef>),
    Traits(Vec<TraitRef>),
    Unknown,
}

} // verus!
