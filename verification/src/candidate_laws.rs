//! Properties of the candidates that field accesses and method calls resolve to, for every body,
//! receiver type and name: each candidate is listed once, and those declared on body-local items
//! come before those of module-level types.

use vstd::prelude::*;

use crate::body::{BodyData, ResolvedFieldRef, ResolvedFunctionRef};
use crate::body_ids::{BodyFunctionRef, BodyItemRef, BodyRef};
use crate::body_infer::{
    ResolutionView, field_access, local_fields_fold, local_functions_of, local_method_step, local_methods_fold,
    local_methods_of, method_call, model_local_items, model_nominals, semantic_fields_fold,
    semantic_method_step, semantic_methods_fold, semantic_methods_of,
};
use crate::body_ty::{NominalModel, TyModel};
use crate::ids::ModuleRef;
use crate::item_tree::{FieldKeyView, FunctionRef};
use crate::resolution::EnvModel;
use crate::semantic::{SemanticIndex, push_distinct};

verus! {

/// Appending an entry only when absent keeps a list free of duplicates.
pub proof fn lemma_push_distinct_no_duplicates<T>(s: Seq<T>, x: T)
    requires
        s.no_duplicates(),
    ensures
        push_distinct(s, x).no_duplicates(),
{
    if !s.contains(x) {
        assert forall|i: int| 0 <= i < s.len() implies s[i] != x by {
            if s[i] == x {
                assert(s.contains(x));
            }
        }
        assert(s.push(x)[s.len() as int] == x);
    }
}

/// Every function of `s` is declared in a body.
pub open spec fn all_local_functions(s: Seq<ResolvedFunctionRef>) -> bool {
    forall|i: int| 0 <= i < s.len() ==> (#[trigger] s[i]) is BodyLocal
}

/// No module-level function of `s` comes before a body-local one.
pub open spec fn local_functions_first(s: Seq<ResolvedFunctionRef>) -> bool {
    forall|i: int, j: int| #![trigger s[i], s[j]] 0 <= i < j < s.len() && s[j] is BodyLocal ==> s[i] is BodyLocal
}

/// Every field of `s` is declared in a body.
pub open spec fn all_local_fields(s: Seq<ResolvedFieldRef>) -> bool {
    forall|i: int| 0 <= i < s.len() ==> (#[trigger] s[i]) is BodyLocal
}

/// No module-level field of `s` comes before a body-local one.
pub open spec fn local_fields_first(s: Seq<ResolvedFieldRef>) -> bool {
    forall|i: int, j: int| #![trigger s[i], s[j]] 0 <= i < j < s.len() && s[j] is BodyLocal ==> s[i] is BodyLocal
}

proof fn lemma_push_local_function(s: Seq<ResolvedFunctionRef>, x: ResolvedFunctionRef)
    requires
        s.no_duplicates(),
        all_local_functions(s),
        x is BodyLocal,
    ensures
        push_distinct(s, x).no_duplicates(),
        all_local_functions(push_distinct(s, x)),
{
    lemma_push_distinct_no_duplicates(s, x);
    if !s.contains(x) {
        assert forall|i: int| 0 <= i < s.len() + 1 implies (#[trigger] s.push(x)[i]) is BodyLocal by {
            if i < s.len() {
                assert(s.push(x)[i] == s[i]);
            }
        }
    }
}

proof fn lemma_push_semantic_function(s: Seq<ResolvedFunctionRef>, x: ResolvedFunctionRef)
    requires
        s.no_duplicates(),
        local_functions_first(s),
        !(x is BodyLocal),
    ensures
        push_distinct(s, x).no_duplicates(),
        local_functions_first(push_distinct(s, x)),
{
    lemma_push_distinct_no_duplicates(s, x);
    if !s.contains(x) {
        let p = s.push(x);
        assert forall|i: int, j: int| #![trigger p[i], p[j]] 0 <= i < j < p.len() && p[j] is BodyLocal implies p[i] is BodyLocal by {
            assert(j < s.len());
            assert(p[i] == s[i] && p[j] == s[j]);
        }
    }
}

proof fn lemma_push_local_field(s: Seq<ResolvedFieldRef>, x: ResolvedFieldRef)
    requires
        s.no_duplicates(),
        all_local_fields(s),
        x is BodyLocal,
    ensures
        push_distinct(s, x).no_duplicates(),
        all_local_fields(push_distinct(s, x)),
{
    lemma_push_distinct_no_duplicates(s, x);
    if !s.contains(x) {
        assert forall|i: int| 0 <= i < s.len() + 1 implies (#[trigger] s.push(x)[i]) is BodyLocal by {
            if i < s.len() {
                assert(s.push(x)[i] == s[i]);
            }
        }
    }
}

proof fn lemma_push_semantic_field(s: Seq<ResolvedFieldRef>, x: ResolvedFieldRef)
    requires
        s.no_duplicates(),
        local_fields_first(s),
        !(x is BodyLocal),
    ensures
        push_distinct(s, x).no_duplicates(),
        local_fields_first(push_distinct(s, x)),
{
    lemma_push_distinct_no_duplicates(s, x);
    if !s.contains(x) {
        let p = s.push(x);
        assert forall|i: int, j: int| #![trigger p[i], p[j]] 0 <= i < j < p.len() && p[j] is BodyLocal implies p[i] is BodyLocal by {
            assert(j < s.len());
            assert(p[i] == s[i] && p[j] == s[j]);
        }
    }
}

proof fn lemma_local_methods_of(
    sem: SemanticIndex,
    model: EnvModel,
    body: BodyData,
    body_ref: BodyRef,
    name: Seq<char>,
    acc: (Seq<ResolvedFunctionRef>, Seq<TyModel>),
    functions: Seq<BodyFunctionRef>,
)
    requires
        acc.0.no_duplicates(),
        all_local_functions(acc.0),
    ensures
        local_methods_of(sem, model, body, body_ref, name, acc, functions).0.no_duplicates(),
        all_local_functions(local_methods_of(sem, model, body, body_ref, name, acc, functions).0),
    decreases functions.len(),
{
    if functions.len() > 0 {
        lemma_local_methods_of(sem, model, body, body_ref, name, acc, functions.drop_last());
        let mid = local_methods_of(sem, model, body, body_ref, name, acc, functions.drop_last());
        if local_method_step(sem, model, body, body_ref, name, mid, functions.last()) != mid {
            lemma_push_local_function(mid.0, ResolvedFunctionRef::BodyLocal(functions.last()));
        }
    }
}

proof fn lemma_local_methods_fold(
    sem: SemanticIndex,
    model: EnvModel,
    body: BodyData,
    body_ref: BodyRef,
    name: Seq<char>,
    acc: (Seq<ResolvedFunctionRef>, Seq<TyModel>),
    items: Seq<BodyItemRef>,
)
    requires
        acc.0.no_duplicates(),
        all_local_functions(acc.0),
    ensures
        local_methods_fold(sem, model, body, body_ref, name, acc, items).0.no_duplicates(),
        all_local_functions(local_methods_fold(sem, model, body, body_ref, name, acc, items).0),
    decreases items.len(),
{
    if items.len() > 0 {
        lemma_local_methods_fold(sem, model, body, body_ref, name, acc, items.drop_last());
        let mid = local_methods_fold(sem, model, body, body_ref, name, acc, items.drop_last());
        lemma_local_methods_of(sem, model, body, body_ref, name, mid, local_functions_of(body, body_ref, items.last()));
    }
}

proof fn lemma_semantic_methods_of(
    sem: SemanticIndex,
    model: EnvModel,
    fallback: ModuleRef,
    name: Seq<char>,
    receiver: NominalModel,
    acc: (Seq<ResolvedFunctionRef>, Seq<TyModel>),
    functions: Seq<FunctionRef>,
)
    requires
        acc.0.no_duplicates(),
        local_functions_first(acc.0),
    ensures
        semantic_methods_of(sem, model, fallback, name, receiver, acc, functions).0.no_duplicates(),
        local_functions_first(semantic_methods_of(sem, model, fallback, name, receiver, acc, functions).0),
    decreases functions.len(),
{
    if functions.len() > 0 {
        lemma_semantic_methods_of(sem, model, fallback, name, receiver, acc, functions.drop_last());
        let mid = semantic_methods_of(sem, model, fallback, name, receiver, acc, functions.drop_last());
        if semantic_method_step(sem, model, fallback, name, receiver, mid, functions.last()) != mid {
            lemma_push_semantic_function(mid.0, ResolvedFunctionRef::Semantic(functions.last()));
        }
    }
}

proof fn lemma_semantic_methods_fold(
    sem: SemanticIndex,
    model: EnvModel,
    fallback: ModuleRef,
    name: Seq<char>,
    acc: (Seq<ResolvedFunctionRef>, Seq<TyModel>),
    types: Seq<NominalModel>,
)
    requires
        acc.0.no_duplicates(),
        local_functions_first(acc.0),
    ensures
        semantic_methods_fold(sem, model, fallback, name, acc, types).0.no_duplicates(),
        local_functions_first(semantic_methods_fold(sem, model, fallback, name, acc, types).0),
    decreases types.len(),
{
    if types.len() > 0 {
        lemma_semantic_methods_fold(sem, model, fallback, name, acc, types.drop_last());
        let mid = semantic_methods_fold(sem, model, fallback, name, acc, types.drop_last());
        lemma_semantic_methods_of(
            sem,
            model,
            fallback,
            name,
            types.last(),
            mid,
            crate::body_infer::semantic_functions_of(sem, model, types.last()),
        );
    }
}

/// A method call resolves to each candidate once, and the methods of body-local items come
/// before those of module-level types.
pub proof fn lemma_method_call_candidates(
    sem: SemanticIndex,
    model: EnvModel,
    body: BodyData,
    body_ref: BodyRef,
    receiver_ty: TyModel,
    name: Seq<char>,
)
    ensures
        match method_call(sem, model, body, body_ref, receiver_ty, name).0 {
            ResolutionView::Method(functions) => functions.no_duplicates() && local_functions_first(functions),
            _ => true,
        },
{
    let empty = (Seq::<ResolvedFunctionRef>::empty(), Seq::<TyModel>::empty());
    assert(empty.0.no_duplicates());
    lemma_local_methods_fold(sem, model, body, body_ref, name, empty, model_local_items(receiver_ty));
    let local = local_methods_fold(sem, model, body, body_ref, name, empty, model_local_items(receiver_ty));
    assert(local_functions_first(local.0));
    lemma_semantic_methods_fold(sem, model, body.owner_module, name, local, model_nominals(receiver_ty));
}

proof fn lemma_local_fields_fold(
    sem: SemanticIndex,
    model: EnvModel,
    body: BodyData,
    body_ref: BodyRef,
    key: FieldKeyView,
    acc: (Seq<ResolvedFieldRef>, Seq<TyModel>),
    items: Seq<BodyItemRef>,
)
    requires
        acc.0.no_duplicates(),
        all_local_fields(acc.0),
    ensures
        local_fields_fold(sem, model, body, body_ref, key, acc, items).0.no_duplicates(),
        all_local_fields(local_fields_fold(sem, model, body, body_ref, key, acc, items).0),
    decreases items.len(),
{
    if items.len() > 0 {
        lemma_local_fields_fold(sem, model, body, body_ref, key, acc, items.drop_last());
        let mid = local_fields_fold(sem, model, body, body_ref, key, acc, items.drop_last());
        match crate::body_infer::local_field_spec(body, body_ref, items.last(), key) {
            Some(field) => lemma_push_local_field(mid.0, ResolvedFieldRef::BodyLocal(field)),
            None => {},
        }
    }
}

proof fn lemma_semantic_fields_fold(
    sem: SemanticIndex,
    model: EnvModel,
    key: FieldKeyView,
    acc: (Seq<ResolvedFieldRef>, Seq<TyModel>),
    types: Seq<NominalModel>,
)
    requires
        acc.0.no_duplicates(),
        local_fields_first(acc.0),
    ensures
        semantic_fields_fold(sem, model, key, acc, types).0.no_duplicates(),
        local_fields_first(semantic_fields_fold(sem, model, key, acc, types).0),
    decreases types.len(),
{
    if types.len() > 0 {
        lemma_semantic_fields_fold(sem, model, key, acc, types.drop_last());
        let mid = semantic_fields_fold(sem, model, key, acc, types.drop_last());
        match sem.field_for_type_spec(types.last().def, key) {
            Some(field) => lemma_push_semantic_field(mid.0, ResolvedFieldRef::Semantic(field)),
            None => {},
        }
    }
}

/// A field access resolves to each field once, and the fields of body-local items come before
/// those of module-level types.
pub proof fn lemma_field_access_candidates(
    sem: SemanticIndex,
    model: EnvModel,
    body: BodyData,
    body_ref: BodyRef,
    base_ty: TyModel,
    key: FieldKeyView,
)
    ensures
        match field_access(sem, model, body, body_ref, base_ty, key).0 {
            ResolutionView::Field(fields) => fields.no_duplicates() && local_fields_first(fields),
            _ => true,
        },
{
    let empty = (Seq::<ResolvedFieldRef>::empty(), Seq::<TyModel>::empty());
    assert(empty.0.no_duplicates());
    lemma_local_fields_fold(sem, model, body, body_ref, key, empty, model_local_items(base_ty));
    let local = local_fields_fold(sem, model, body, body_ref, key, empty, model_local_items(base_ty));
    assert(local_fields_first(local.0));
    lemma_semantic_fields_fold(sem, model, key, local, model_nominals(base_ty));
}

} // verus!
