//! Properties of the queries over lowered bodies that hold for every input: which binding a
//! local name refers to, where the completion range of a dot lies, and which inherent methods a
//! dot completion may offer.

use vstd::prelude::*;

use crate::body::{BindingData, BodyData, BodyIrDb, BodyItemData, ExprData, ResolvedFunctionRef, entry_at};
use crate::body_ids::{BindingId, BodyItemId, ScopeId};
use crate::body_infer::{
    ResolutionView, applicable_functions, local_methods_fold, local_methods_of, method_call, model_nominals, semantic_methods_fold,
    semantic_methods_of,
};
use crate::body_resolve::{binding_named, lookup_local_name, lookup_local_type_item, scan_bindings, scan_items};
use crate::body_ty::{NominalModel, TyModel};
use crate::cursor::{dot_span_of, in_dot_expr, member_name_span_of, receiver_of};
use crate::dot_completion::{
    CompletionKind, CompletionTarget, CompletionView, collected_completions, dot_completions, lemma_sort_completions,
    local_item_completions, local_items_completions, nominal_completions, nominals_completions, push_all_new, push_new,
};
use crate::item_tree::FunctionRef;
use crate::receiver::function_applies;
use crate::resolution::EnvModel;
use crate::semantic::{SemanticIndex, push_all_distinct, push_distinct};

verus! {

// ---------------------------------------------------------------------------------------------
// Local names
// ---------------------------------------------------------------------------------------------

/// The binding ids of a scope are listed in declaration order.
pub open spec fn ids_increasing(ids: Seq<BindingId>) -> bool {
    forall|i: int, j: int| 0 <= i < j < ids.len() ==> (#[trigger] ids[i]).0 < (#[trigger] ids[j]).0
}

proof fn lemma_scan_latest(bindings: Seq<BindingData>, ids: Seq<BindingId>, k: int, name: Seq<char>, limit: nat, j: int)
    requires
        0 <= j < k <= ids.len(),
        ids_increasing(ids),
        forall|i: int| 0 <= i < ids.len() ==> (#[trigger] ids[i]).0 < bindings.len(),
        ids[j].0 < limit,
        binding_named(bindings[ids[j].0 as int], name),
    ensures
        scan_bindings(bindings, ids, k, name, limit) matches Some(Some(b)) && ids[j].0 <= b.0 && ids.contains(b),
    decreases k,
{
    let b = ids[k - 1];
    if j < k - 1 {
        if b.0 >= limit || !binding_named(bindings[b.0 as int], name) {
            lemma_scan_latest(bindings, ids, k - 1, name, limit, j);
        } else {
            assert(ids[j].0 < b.0);
            assert(ids.contains(b));
        }
    } else {
        assert(ids.contains(b));
    }
}

/// A name used where its scope lists a binding of that name declared before the use refers to
/// a binding of that scope, and to the latest one: no binding of that name listed in the scope
/// and declared before the use comes after it (`let x = 1; let x = 2; x` refers to the second).
pub proof fn lemma_local_name_latest(body: BodyData, scope: ScopeId, name: Seq<char>, limit: nat, earlier: BindingId)
    requires
        scope.0 < body.scopes@.len(),
        ids_increasing(body.scopes@[scope.0 as int].bindings@),
        forall|i: int|
            0 <= i < body.scopes@[scope.0 as int].bindings@.len() ==> (#[trigger] body.scopes@[scope.0 as int].bindings@[i]).0
                < body.bindings@.len(),
        body.scopes@[scope.0 as int].bindings@.contains(earlier),
        earlier.0 < limit,
        binding_named(body.bindings@[earlier.0 as int], name),
    ensures
        lookup_local_name(body, scope, name, limit) matches Some(b) && earlier.0 <= b.0
            && body.scopes@[scope.0 as int].bindings@.contains(b),
{
    let ids = body.scopes@[scope.0 as int].bindings@;
    let j = choose|j: int| 0 <= j < ids.len() && ids[j] == earlier;
    lemma_scan_latest(body.bindings@, ids, ids.len() as int, name, limit, j);
}

proof fn lemma_scan_none(bindings: Seq<BindingData>, ids: Seq<BindingId>, k: int, name: Seq<char>, limit: nat)
    requires
        0 <= k <= ids.len(),
        forall|i: int| 0 <= i < ids.len() ==> (#[trigger] ids[i]).0 < bindings.len(),
        forall|i: int|
            0 <= i < ids.len() && (#[trigger] ids[i]).0 < limit ==> !binding_named(bindings[ids[i].0 as int], name),
    ensures
        scan_bindings(bindings, ids, k, name, limit) == Some(None::<BindingId>),
    decreases k,
{
    if k > 0 {
        lemma_scan_none(bindings, ids, k - 1, name, limit);
    }
}

/// A name that its scope binds nowhere before the use is looked up in the enclosing scope: the
/// scope is transparent for it.
pub proof fn lemma_local_name_outer(body: BodyData, scope: ScopeId, parent: ScopeId, name: Seq<char>, limit: nat)
    requires
        scope.0 < body.scopes@.len(),
        body.scopes@[scope.0 as int].parent == Some(parent),
        parent.0 < scope.0,
        forall|i: int|
            0 <= i < body.scopes@[scope.0 as int].bindings@.len() ==> (#[trigger] body.scopes@[scope.0 as int].bindings@[i]).0
                < body.bindings@.len(),
        forall|i: int|
            0 <= i < body.scopes@[scope.0 as int].bindings@.len() && (#[trigger] body.scopes@[scope.0 as int].bindings@[i]).0
                < limit ==> !binding_named(body.bindings@[body.scopes@[scope.0 as int].bindings@[i].0 as int], name),
    ensures
        lookup_local_name(body, scope, name, limit) == lookup_local_name(body, parent, name, limit),
{
    let ids = body.scopes@[scope.0 as int].bindings@;
    lemma_scan_none(body.bindings@, ids, ids.len() as int, name, limit);
}

/// The item ids of a scope are listed in declaration order.
pub open spec fn item_ids_increasing(ids: Seq<BodyItemId>) -> bool {
    forall|i: int, j: int| 0 <= i < j < ids.len() ==> (#[trigger] ids[i]).0 < (#[trigger] ids[j]).0
}

proof fn lemma_scan_items_latest(items: Seq<BodyItemData>, ids: Seq<BodyItemId>, k: int, name: Seq<char>, j: int)
    requires
        0 <= j < k <= ids.len(),
        item_ids_increasing(ids),
        forall|i: int| 0 <= i < ids.len() ==> (#[trigger] ids[i]).0 < items.len(),
        items[ids[j].0 as int].name@ == name,
    ensures
        scan_items(items, ids, k, name) matches Some(Some(b)) && ids[j].0 <= b.0 && ids.contains(b)
            && items[b.0 as int].name@ == name,
    decreases k,
{
    let b = ids[k - 1];
    if j < k - 1 && items[b.0 as int].name@ != name {
        lemma_scan_items_latest(items, ids, k - 1, name, j);
    } else {
        assert(ids.contains(b));
        if j < k - 1 {
            assert(ids[j].0 < b.0);
        }
    }
}

proof fn lemma_scan_items_none(items: Seq<BodyItemData>, ids: Seq<BodyItemId>, k: int, name: Seq<char>)
    requires
        0 <= k <= ids.len(),
        forall|i: int| 0 <= i < ids.len() ==> (#[trigger] ids[i]).0 < items.len(),
        forall|i: int| 0 <= i < ids.len() ==> items[(#[trigger] ids[i]).0 as int].name@ != name,
    ensures
        scan_items(items, ids, k, name) == Some(None::<BodyItemId>),
    decreases k,
{
    if k > 0 {
        lemma_scan_items_none(items, ids, k - 1, name);
    }
}

/// A type name used where its scope declares a body-local item of that name refers to an item
/// of that scope with that name, and to the latest one declared there.
pub proof fn lemma_local_type_item_latest(body: BodyData, scope: ScopeId, name: Seq<char>, earlier: BodyItemId)
    requires
        scope.0 < body.scopes@.len(),
        item_ids_increasing(body.scopes@[scope.0 as int].local_items@),
        forall|i: int|
            0 <= i < body.scopes@[scope.0 as int].local_items@.len() ==> (#[trigger] body.scopes@[scope.0 as int].local_items@[i]).0
                < body.local_items@.len(),
        body.scopes@[scope.0 as int].local_items@.contains(earlier),
        body.local_items@[earlier.0 as int].name@ == name,
    ensures
        lookup_local_type_item(body, scope, name) matches Some(b) && earlier.0 <= b.0
            && body.scopes@[scope.0 as int].local_items@.contains(b) && body.local_items@[b.0 as int].name@ == name,
{
    let ids = body.scopes@[scope.0 as int].local_items@;
    let j = choose|j: int| 0 <= j < ids.len() && ids[j] == earlier;
    lemma_scan_items_latest(body.local_items@, ids, ids.len() as int, name, j);
}

/// A type name that its scope declares no item for is looked up in the enclosing scope.
pub proof fn lemma_local_type_item_outer(body: BodyData, scope: ScopeId, parent: ScopeId, name: Seq<char>)
    requires
        scope.0 < body.scopes@.len(),
        body.scopes@[scope.0 as int].parent == Some(parent),
        parent.0 < scope.0,
        forall|i: int|
            0 <= i < body.scopes@[scope.0 as int].local_items@.len() ==> (#[trigger] body.scopes@[scope.0 as int].local_items@[i]).0
                < body.local_items@.len(),
        forall|i: int|
            0 <= i < body.scopes@[scope.0 as int].local_items@.len() ==> body.local_items@[(#[trigger] body.scopes@[scope.0 as int].local_items@[i]).0 as int].name@
                != name,
    ensures
        lookup_local_type_item(body, scope, name) == lookup_local_type_item(body, parent, name),
{
    let ids = body.scopes@[scope.0 as int].local_items@;
    lemma_scan_items_none(body.local_items@, ids, ids.len() as int, name);
}

// ---------------------------------------------------------------------------------------------
// Dot sites
// ---------------------------------------------------------------------------------------------

/// Where the completion range of a dot expression ends: at the end of the member name, or of the
/// expression while no member name is written.
pub open spec fn dot_completion_end(expr: ExprData) -> u32 {
    match member_name_span_of(expr) {
        Some(span) => span.text.end,
        None => expr.source.span.text.end,
    }
}

/// A dot expression whose receiver ends before its dot offers completions at every offset from
/// the end of the dot up to and including the end of the member name (or, without a name yet,
/// of the expression): `u.$0` right after the dot and `u.na$0` at the end of the name are dot
/// sites.
pub proof fn lemma_dot_range_covers(expr: ExprData, body: BodyData, offset: u32)
    requires
        receiver_of(expr) is Some,
        entry_at(body.exprs@, (receiver_of(expr)->0).0) is Some,
        dot_span_of(expr) is Some,
        entry_at(body.exprs@, (receiver_of(expr)->0).0)->0.source.span.text.end <= dot_span_of(expr)->0.text.start,
        dot_span_of(expr)->0.text.end <= offset,
        offset <= dot_completion_end(expr),
    ensures
        in_dot_expr(expr, body, offset),
{
}

/// The completion range of a dot expression lies after the dot, and wherever it holds an
/// offset it also holds the end of the member name (or of the expression).
pub proof fn lemma_dot_range_bounds(expr: ExprData, body: BodyData, offset: u32)
    requires
        in_dot_expr(expr, body, offset),
    ensures
        dot_span_of(expr) is Some,
        dot_span_of(expr)->0.text.end <= offset <= dot_completion_end(expr),
        in_dot_expr(expr, body, dot_completion_end(expr)),
{
}

// ---------------------------------------------------------------------------------------------
// Inherent methods offered after a dot
// ---------------------------------------------------------------------------------------------

/// The module-level function a completion offers as an inherent method, if it offers one.
pub open spec fn offered_inherent(c: CompletionView) -> Option<FunctionRef> {
    if c.kind == CompletionKind::InherentMethod {
        match c.target {
            CompletionTarget::Function(ResolvedFunctionRef::Semantic(f)) => Some(f),
            _ => None,
        }
    } else {
        None
    }
}

/// `f` is a function of an inherent impl of one of `types` that applies to that type.
pub open spec fn inherent_of_some(sem: SemanticIndex, model: EnvModel, types: Seq<NominalModel>, f: FunctionRef) -> bool {
    exists|j: int|
        0 <= j < types.len() && sem.inherent_functions_spec((#[trigger] types[j]).def).contains(f) && function_applies(
            sem,
            model,
            f,
            types[j],
        )
}

/// Every inherent method offered in `s` is one of an applying inherent impl of `types`.
pub open spec fn inherent_offers_apply(sem: SemanticIndex, model: EnvModel, types: Seq<NominalModel>, s: Seq<CompletionView>) -> bool {
    forall|c: CompletionView|
        #[trigger] s.contains(c) && offered_inherent(c) is Some ==> inherent_of_some(sem, model, types, offered_inherent(c)->0)
}

proof fn lemma_push_all_new_origin(s: Seq<CompletionView>, cs: Seq<Option<CompletionView>>, c: CompletionView)
    requires
        push_all_new(s, cs).contains(c),
    ensures
        s.contains(c) || cs.contains(Some(c)),
    decreases cs.len(),
{
    if cs.len() > 0 {
        let before = push_all_new(s, cs.drop_last());
        if before.contains(c) {
            lemma_push_all_new_origin(s, cs.drop_last(), c);
            if cs.drop_last().contains(Some(c)) {
                let k = choose|k: int| 0 <= k < cs.drop_last().len() && cs.drop_last()[k] == Some(c);
                assert(cs[k] == Some(c));
            }
        } else {
            let x = cs.last()->0;
            let pushed = before.push(x);
            assert(push_new(before, cs.last()) == pushed);
            let i = choose|i: int| 0 <= i < pushed.len() && pushed[i] == c;
            if i < before.len() {
                assert(before[i] == c);
            }
            assert(c == x);
            assert(cs[cs.len() - 1] == Some(c));
        }
    }
}

/// Appending completions that offer only applying inherent methods keeps every offered inherent
/// method one of an applying impl.
proof fn lemma_push_all_new_keeps(
    sem: SemanticIndex,
    model: EnvModel,
    types: Seq<NominalModel>,
    s: Seq<CompletionView>,
    cs: Seq<Option<CompletionView>>,
)
    requires
        inherent_offers_apply(sem, model, types, s),
        forall|k: int|
            0 <= k < cs.len() && (#[trigger] cs[k]) is Some && offered_inherent(cs[k]->0) is Some ==> inherent_of_some(
                sem,
                model,
                types,
                offered_inherent(cs[k]->0)->0,
            ),
    ensures
        inherent_offers_apply(sem, model, types, push_all_new(s, cs)),
{
    assert forall|c: CompletionView|
        #[trigger] push_all_new(s, cs).contains(c) && offered_inherent(c) is Some implies inherent_of_some(
            sem,
            model,
            types,
            offered_inherent(c)->0,
        ) by {
        lemma_push_all_new_origin(s, cs, c);
        if !s.contains(c) {
            let k = choose|k: int| 0 <= k < cs.len() && cs[k] == Some(c);
            assert(cs[k]->0 == c);
        }
    }
}

proof fn lemma_inherent_of_some_grows(sem: SemanticIndex, model: EnvModel, types: Seq<NominalModel>, f: FunctionRef)
    requires
        types.len() > 0,
        inherent_of_some(sem, model, types.drop_last(), f),
    ensures
        inherent_of_some(sem, model, types, f),
{
    let j = choose|j: int|
        0 <= j < types.drop_last().len() && sem.inherent_functions_spec((#[trigger] types.drop_last()[j]).def).contains(f)
            && function_applies(sem, model, f, types.drop_last()[j]);
    assert(types[j] == types.drop_last()[j]);
}

proof fn lemma_applicable_sound(sem: SemanticIndex, model: EnvModel, functions: Seq<FunctionRef>, receiver: NominalModel, f: FunctionRef)
    requires
        applicable_functions(sem, model, functions, receiver).contains(f),
    ensures
        functions.contains(f),
        function_applies(sem, model, f, receiver),
    decreases functions.len(),
{
    if functions.len() > 0 {
        let before = applicable_functions(sem, model, functions.drop_last(), receiver);
        if before.contains(f) {
            lemma_applicable_sound(sem, model, functions.drop_last(), receiver, f);
            let k = choose|k: int| 0 <= k < functions.drop_last().len() && functions.drop_last()[k] == f;
            assert(functions[k] == f);
        } else {
            let pushed = before.push(functions.last());
            assert(applicable_functions(sem, model, functions, receiver) == pushed);
            let i = choose|i: int| 0 <= i < pushed.len() && pushed[i] == f;
            if i < before.len() {
                assert(before[i] == f);
            }
            assert(f == functions.last());
            assert(functions[functions.len() - 1] == f);
        }
    }
}

proof fn lemma_local_items_keep(
    sem: SemanticIndex,
    model: EnvModel,
    bodies: BodyIrDb,
    types: Seq<NominalModel>,
    s: Seq<CompletionView>,
    items: Seq<crate::body_ids::BodyItemRef>,
)
    requires
        inherent_offers_apply(sem, model, types, s),
    ensures
        inherent_offers_apply(sem, model, types, local_items_completions(sem, bodies, s, items)),
    decreases items.len(),
{
    if items.len() > 0 {
        lemma_local_items_keep(sem, model, bodies, types, s, items.drop_last());
        let before = local_items_completions(sem, bodies, s, items.drop_last());
        let item = items.last();
        let fields = crate::dot_completion::local_fields_of(bodies, item).map_values(
            |f: crate::body_ids::BodyFieldRef| crate::dot_completion::field_completion(sem, bodies, crate::body::ResolvedFieldRef::BodyLocal(f)),
        );
        let methods = crate::dot_completion::local_inherent_of(bodies, item).map_values(
            |f: crate::body_ids::BodyFunctionRef| crate::dot_completion::function_completion(
                sem,
                bodies,
                ResolvedFunctionRef::BodyLocal(f),
                CompletionKind::InherentMethod,
            ),
        );
        assert(local_item_completions(sem, bodies, before, item) == push_all_new(push_all_new(before, fields), methods));
        lemma_push_all_new_keeps(sem, model, types, before, fields);
        lemma_push_all_new_keeps(sem, model, types, push_all_new(before, fields), methods);
    }
}

proof fn lemma_nominals_keep(
    sem: SemanticIndex,
    model: EnvModel,
    bodies: BodyIrDb,
    s: Seq<CompletionView>,
    types: Seq<NominalModel>,
)
    requires
        inherent_offers_apply(sem, model, Seq::empty(), s),
    ensures
        inherent_offers_apply(sem, model, types, nominals_completions(sem, model, bodies, s, types)),
    decreases types.len(),
{
    if types.len() == 0 {
        assert(types =~= Seq::<NominalModel>::empty());
    } else {
        let rest = types.drop_last();
        lemma_nominals_keep(sem, model, bodies, s, rest);
        let before = nominals_completions(sem, model, bodies, s, rest);
        assert forall|c: CompletionView|
            #[trigger] before.contains(c) && offered_inherent(c) is Some implies inherent_of_some(
                sem,
                model,
                types,
                offered_inherent(c)->0,
            ) by {
            lemma_inherent_of_some_grows(sem, model, types, offered_inherent(c)->0);
        }
        let ty = types.last();
        let fields = sem.fields_for_type_spec(ty.def).map_values(
            |f: crate::item_tree::FieldRef| crate::dot_completion::field_completion(sem, bodies, crate::body::ResolvedFieldRef::Semantic(f)),
        );
        let applying = applicable_functions(sem, model, sem.inherent_functions_spec(ty.def), ty);
        let inherent = applying.map_values(
            |f: FunctionRef| crate::dot_completion::function_completion(
                sem,
                bodies,
                ResolvedFunctionRef::Semantic(f),
                CompletionKind::InherentMethod,
            ),
        );
        let traits = sem.trait_functions_spec(ty.def).map_values(
            |f: FunctionRef| crate::dot_completion::function_completion(
                sem,
                bodies,
                ResolvedFunctionRef::Semantic(f),
                CompletionKind::TraitMethod,
            ),
        );
        assert(nominal_completions(sem, model, bodies, before, ty) == push_all_new(
            push_all_new(push_all_new(before, fields), inherent),
            traits,
        ));
        lemma_push_all_new_keeps(sem, model, types, before, fields);
        assert forall|k: int|
            0 <= k < inherent.len() && (#[trigger] inherent[k]) is Some && offered_inherent(inherent[k]->0) is Some implies inherent_of_some(
                sem,
                model,
                types,
                offered_inherent(inherent[k]->0)->0,
            ) by {
            let f = applying[k];
            assert(offered_inherent(inherent[k]->0) == Some(f));
            assert(applying.contains(f));
            lemma_applicable_sound(sem, model, sem.inherent_functions_spec(ty.def), ty, f);
            assert(types[types.len() - 1] == ty);
        }
        lemma_push_all_new_keeps(sem, model, types, push_all_new(before, fields), inherent);
        lemma_push_all_new_keeps(sem, model, types, push_all_new(push_all_new(before, fields), inherent), traits);
    }
}

/// Every inherent method a dot completion offers on a module-level receiver type is a function
/// of an inherent impl of one of the types the receiver denotes, and that impl applies to the
/// receiver's generic arguments: `impl Wrapper<u32> { fn only_u32(&self) }` offers nothing on a
/// `Wrapper<User>`.
pub proof fn lemma_dot_inherent_methods_apply(
    sem: SemanticIndex,
    model: EnvModel,
    bodies: BodyIrDb,
    ty: TyModel,
    c: CompletionView,
    f: FunctionRef,
)
    requires
        dot_completions(sem, model, bodies, ty).contains(c),
        c.kind == CompletionKind::InherentMethod,
        c.target == CompletionTarget::Function(ResolvedFunctionRef::Semantic(f)),
    ensures
        exists|j: int|
            0 <= j < model_nominals(ty).len() && sem.inherent_functions_spec((#[trigger] model_nominals(ty)[j]).def).contains(f)
                && function_applies(sem, model, f, model_nominals(ty)[j]),
{
    let empty = Seq::<CompletionView>::empty();
    let collected = collected_completions(sem, model, bodies, ty);
    lemma_sort_completions(collected);
    vstd::seq_lib::to_multiset_contains(dot_completions(sem, model, bodies, ty), c);
    vstd::seq_lib::to_multiset_contains(collected, c);
    assert(collected.contains(c));
    lemma_local_items_keep(sem, model, bodies, Seq::empty(), empty, crate::body_infer::model_local_items(ty));
    lemma_nominals_keep(
        sem,
        model,
        bodies,
        local_items_completions(sem, bodies, empty, crate::body_infer::model_local_items(ty)),
        model_nominals(ty),
    );
    assert(offered_inherent(c) == Some(f));
}

/// What a completion offers is what it says: a method offered takes `self`, exists, and is
/// offered under its name, as a method; a field is offered as a field.
pub open spec fn offer_ok(sem: SemanticIndex, bodies: BodyIrDb, c: CompletionView) -> bool {
    match c.target {
        CompletionTarget::Function(ResolvedFunctionRef::Semantic(f)) => c.kind != CompletionKind::Field && (sem.function_spec(
            f,
        ) matches Some(data) && data.declaration.has_self_receiver_spec() && data.name@ == c.label),
        CompletionTarget::Function(ResolvedFunctionRef::BodyLocal(f)) => c.kind == CompletionKind::InherentMethod && (
        bodies.body_spec(f.body) matches Some(body) && entry_at(body.local_functions@, f.function.0) matches Some(data)
            && data.declaration.has_self_receiver_spec() && data.name@ == c.label),
        CompletionTarget::Field(_) => c.kind == CompletionKind::Field,
    }
}

pub open spec fn all_offers_ok(sem: SemanticIndex, bodies: BodyIrDb, s: Seq<CompletionView>) -> bool {
    forall|c: CompletionView| #[trigger] s.contains(c) ==> offer_ok(sem, bodies, c)
}

proof fn lemma_push_all_new_ok(sem: SemanticIndex, bodies: BodyIrDb, s: Seq<CompletionView>, cs: Seq<Option<CompletionView>>)
    requires
        all_offers_ok(sem, bodies, s),
        forall|k: int| 0 <= k < cs.len() && (#[trigger] cs[k]) is Some ==> offer_ok(sem, bodies, cs[k]->0),
    ensures
        all_offers_ok(sem, bodies, push_all_new(s, cs)),
{
    assert forall|c: CompletionView| #[trigger] push_all_new(s, cs).contains(c) implies offer_ok(sem, bodies, c) by {
        lemma_push_all_new_origin(s, cs, c);
        if !s.contains(c) {
            let k = choose|k: int| 0 <= k < cs.len() && cs[k] == Some(c);
            assert(cs[k]->0 == c);
        }
    }
}

proof fn lemma_local_items_ok(sem: SemanticIndex, bodies: BodyIrDb, s: Seq<CompletionView>, items: Seq<crate::body_ids::BodyItemRef>)
    requires
        all_offers_ok(sem, bodies, s),
    ensures
        all_offers_ok(sem, bodies, local_items_completions(sem, bodies, s, items)),
    decreases items.len(),
{
    if items.len() > 0 {
        lemma_local_items_ok(sem, bodies, s, items.drop_last());
        let before = local_items_completions(sem, bodies, s, items.drop_last());
        let item = items.last();
        let fields = crate::dot_completion::local_fields_of(bodies, item).map_values(
            |f: crate::body_ids::BodyFieldRef| crate::dot_completion::field_completion(sem, bodies, crate::body::ResolvedFieldRef::BodyLocal(f)),
        );
        let methods = crate::dot_completion::local_inherent_of(bodies, item).map_values(
            |f: crate::body_ids::BodyFunctionRef| crate::dot_completion::function_completion(
                sem,
                bodies,
                ResolvedFunctionRef::BodyLocal(f),
                CompletionKind::InherentMethod,
            ),
        );
        assert(local_item_completions(sem, bodies, before, item) == push_all_new(push_all_new(before, fields), methods));
        lemma_push_all_new_ok(sem, bodies, before, fields);
        lemma_push_all_new_ok(sem, bodies, push_all_new(before, fields), methods);
    }
}

proof fn lemma_nominals_ok(sem: SemanticIndex, model: EnvModel, bodies: BodyIrDb, s: Seq<CompletionView>, types: Seq<NominalModel>)
    requires
        all_offers_ok(sem, bodies, s),
    ensures
        all_offers_ok(sem, bodies, nominals_completions(sem, model, bodies, s, types)),
    decreases types.len(),
{
    if types.len() > 0 {
        lemma_nominals_ok(sem, model, bodies, s, types.drop_last());
        let before = nominals_completions(sem, model, bodies, s, types.drop_last());
        let ty = types.last();
        let fields = sem.fields_for_type_spec(ty.def).map_values(
            |f: crate::item_tree::FieldRef| crate::dot_completion::field_completion(sem, bodies, crate::body::ResolvedFieldRef::Semantic(f)),
        );
        let inherent = applicable_functions(sem, model, sem.inherent_functions_spec(ty.def), ty).map_values(
            |f: FunctionRef| crate::dot_completion::function_completion(
                sem,
                bodies,
                ResolvedFunctionRef::Semantic(f),
                CompletionKind::InherentMethod,
            ),
        );
        let traits = sem.trait_functions_spec(ty.def).map_values(
            |f: FunctionRef| crate::dot_completion::function_completion(
                sem,
                bodies,
                ResolvedFunctionRef::Semantic(f),
                CompletionKind::TraitMethod,
            ),
        );
        assert(nominal_completions(sem, model, bodies, before, ty) == push_all_new(
            push_all_new(push_all_new(before, fields), inherent),
            traits,
        ));
        lemma_push_all_new_ok(sem, bodies, before, fields);
        lemma_push_all_new_ok(sem, bodies, push_all_new(before, fields), inherent);
        lemma_push_all_new_ok(sem, bodies, push_all_new(push_all_new(before, fields), inherent), traits);
    }
}

/// Every method a dot completion offers takes `self` and is offered under its declared name, as
/// a method; every field is offered as a field (`User::new()` and trait functions without
/// `self` are never offered after a dot).
pub proof fn lemma_dot_offers_methods_taking_self(sem: SemanticIndex, model: EnvModel, bodies: BodyIrDb, ty: TyModel, c: CompletionView)
    requires
        dot_completions(sem, model, bodies, ty).contains(c),
    ensures
        offer_ok(sem, bodies, c),
{
    let empty = Seq::<CompletionView>::empty();
    let collected = collected_completions(sem, model, bodies, ty);
    lemma_sort_completions(collected);
    vstd::seq_lib::to_multiset_contains(dot_completions(sem, model, bodies, ty), c);
    vstd::seq_lib::to_multiset_contains(collected, c);
    lemma_local_items_ok(sem, bodies, empty, crate::body_infer::model_local_items(ty));
    lemma_nominals_ok(sem, model, bodies, local_items_completions(sem, bodies, empty, crate::body_infer::model_local_items(ty)), model_nominals(ty));
}

// ---------------------------------------------------------------------------------------------
// Method calls
// ---------------------------------------------------------------------------------------------

/// `f` is a method that a call on one of `types` may reach: a function of an inherent impl of
/// the type that applies to its arguments, or a function of a trait the type implements.
pub open spec fn method_of_some(sem: SemanticIndex, model: EnvModel, types: Seq<NominalModel>, f: FunctionRef) -> bool {
    exists|j: int|
        0 <= j < types.len() && ((sem.inherent_functions_spec((#[trigger] types[j]).def).contains(f) && function_applies(
            sem,
            model,
            f,
            types[j],
        )) || sem.trait_functions_spec(types[j].def).contains(f))
}

/// Every module-level candidate of `s` is a method a call on one of `types` may reach.
pub open spec fn semantic_candidates_reachable(
    sem: SemanticIndex,
    model: EnvModel,
    types: Seq<NominalModel>,
    s: Seq<ResolvedFunctionRef>,
) -> bool {
    forall|r: ResolvedFunctionRef|
        #[trigger] s.contains(r) && r is Semantic ==> method_of_some(sem, model, types, r->Semantic_0)
}

proof fn lemma_push_distinct_origin<T>(s: Seq<T>, x: T, y: T)
    requires
        push_distinct(s, x).contains(y),
    ensures
        s.contains(y) || y == x,
{
    if !s.contains(x) {
        let p = s.push(x);
        let i = choose|i: int| 0 <= i < p.len() && p[i] == y;
        if i < s.len() {
            assert(s[i] == y);
        }
    }
}

proof fn lemma_push_all_distinct_origin<T>(s: Seq<T>, more: Seq<T>, y: T)
    requires
        push_all_distinct(s, more).contains(y),
    ensures
        s.contains(y) || more.contains(y),
    decreases more.len(),
{
    if more.len() > 0 {
        lemma_push_distinct_origin(push_all_distinct(s, more.drop_last()), more.last(), y);
        if push_all_distinct(s, more.drop_last()).contains(y) {
            lemma_push_all_distinct_origin(s, more.drop_last(), y);
            if more.drop_last().contains(y) {
                let k = choose|k: int| 0 <= k < more.drop_last().len() && more.drop_last()[k] == y;
                assert(more[k] == y);
            }
        } else {
            assert(more[more.len() - 1] == y);
        }
    }
}

proof fn lemma_push_candidate(
    sem: SemanticIndex,
    model: EnvModel,
    types: Seq<NominalModel>,
    s: Seq<ResolvedFunctionRef>,
    x: ResolvedFunctionRef,
)
    requires
        semantic_candidates_reachable(sem, model, types, s),
        x is Semantic ==> method_of_some(sem, model, types, x->Semantic_0),
    ensures
        semantic_candidates_reachable(sem, model, types, push_distinct(s, x)),
{
    assert forall|r: ResolvedFunctionRef|
        #[trigger] push_distinct(s, x).contains(r) && r is Semantic implies method_of_some(sem, model, types, r->Semantic_0) by {
        lemma_push_distinct_origin(s, x, r);
    }
}

proof fn lemma_local_methods_of_reach(
    sem: SemanticIndex,
    model: EnvModel,
    body: BodyData,
    body_ref: crate::body_ids::BodyRef,
    name: Seq<char>,
    types: Seq<NominalModel>,
    acc: (Seq<ResolvedFunctionRef>, Seq<TyModel>),
    functions: Seq<crate::body_ids::BodyFunctionRef>,
)
    requires
        semantic_candidates_reachable(sem, model, types, acc.0),
    ensures
        semantic_candidates_reachable(sem, model, types, local_methods_of(sem, model, body, body_ref, name, acc, functions).0),
    decreases functions.len(),
{
    if functions.len() > 0 {
        lemma_local_methods_of_reach(sem, model, body, body_ref, name, types, acc, functions.drop_last());
        let mid = local_methods_of(sem, model, body, body_ref, name, acc, functions.drop_last());
        lemma_push_candidate(sem, model, types, mid.0, ResolvedFunctionRef::BodyLocal(functions.last()));
    }
}

proof fn lemma_local_methods_fold_reach(
    sem: SemanticIndex,
    model: EnvModel,
    body: BodyData,
    body_ref: crate::body_ids::BodyRef,
    name: Seq<char>,
    types: Seq<NominalModel>,
    acc: (Seq<ResolvedFunctionRef>, Seq<TyModel>),
    items: Seq<crate::body_ids::BodyItemRef>,
)
    requires
        semantic_candidates_reachable(sem, model, types, acc.0),
    ensures
        semantic_candidates_reachable(sem, model, types, local_methods_fold(sem, model, body, body_ref, name, acc, items).0),
    decreases items.len(),
{
    if items.len() > 0 {
        lemma_local_methods_fold_reach(sem, model, body, body_ref, name, types, acc, items.drop_last());
        let mid = local_methods_fold(sem, model, body, body_ref, name, acc, items.drop_last());
        lemma_local_methods_of_reach(
            sem,
            model,
            body,
            body_ref,
            name,
            types,
            mid,
            crate::body_infer::local_functions_of(body, body_ref, items.last()),
        );
    }
}

proof fn lemma_semantic_methods_of_reach(
    sem: SemanticIndex,
    model: EnvModel,
    fallback: crate::ids::ModuleRef,
    name: Seq<char>,
    receiver: NominalModel,
    types: Seq<NominalModel>,
    acc: (Seq<ResolvedFunctionRef>, Seq<TyModel>),
    functions: Seq<FunctionRef>,
)
    requires
        semantic_candidates_reachable(sem, model, types, acc.0),
        forall|k: int| 0 <= k < functions.len() ==> method_of_some(sem, model, types, #[trigger] functions[k]),
    ensures
        semantic_candidates_reachable(sem, model, types, semantic_methods_of(sem, model, fallback, name, receiver, acc, functions).0),
    decreases functions.len(),
{
    if functions.len() > 0 {
        assert forall|k: int| 0 <= k < functions.drop_last().len() implies method_of_some(
            sem,
            model,
            types,
            #[trigger] functions.drop_last()[k],
        ) by {
            assert(functions.drop_last()[k] == functions[k]);
        }
        lemma_semantic_methods_of_reach(sem, model, fallback, name, receiver, types, acc, functions.drop_last());
        let mid = semantic_methods_of(sem, model, fallback, name, receiver, acc, functions.drop_last());
        assert(method_of_some(sem, model, types, functions[functions.len() - 1]));
        lemma_push_candidate(sem, model, types, mid.0, ResolvedFunctionRef::Semantic(functions.last()));
    }
}

proof fn lemma_method_of_some_grows(sem: SemanticIndex, model: EnvModel, types: Seq<NominalModel>, f: FunctionRef)
    requires
        types.len() > 0,
        method_of_some(sem, model, types.drop_last(), f),
    ensures
        method_of_some(sem, model, types, f),
{
    let j = choose|j: int|
        0 <= j < types.drop_last().len() && ((sem.inherent_functions_spec((#[trigger] types.drop_last()[j]).def).contains(f)
            && function_applies(sem, model, f, types.drop_last()[j])) || sem.trait_functions_spec(types.drop_last()[j].def).contains(f));
    assert(types[j] == types.drop_last()[j]);
}

proof fn lemma_semantic_methods_fold_reach(
    sem: SemanticIndex,
    model: EnvModel,
    fallback: crate::ids::ModuleRef,
    name: Seq<char>,
    acc: (Seq<ResolvedFunctionRef>, Seq<TyModel>),
    types: Seq<NominalModel>,
)
    requires
        semantic_candidates_reachable(sem, model, Seq::empty(), acc.0),
    ensures
        semantic_candidates_reachable(sem, model, types, semantic_methods_fold(sem, model, fallback, name, acc, types).0),
    decreases types.len(),
{
    if types.len() == 0 {
        assert(types =~= Seq::<NominalModel>::empty());
    } else {
        lemma_semantic_methods_fold_reach(sem, model, fallback, name, acc, types.drop_last());
        let mid = semantic_methods_fold(sem, model, fallback, name, acc, types.drop_last());
        assert forall|r: ResolvedFunctionRef|
            #[trigger] mid.0.contains(r) && r is Semantic implies method_of_some(sem, model, types, r->Semantic_0) by {
            lemma_method_of_some_grows(sem, model, types, r->Semantic_0);
        }
        let n = types.last();
        let functions = crate::body_infer::semantic_functions_of(sem, model, n);
        let applying = applicable_functions(sem, model, sem.inherent_functions_spec(n.def), n);
        assert forall|k: int| 0 <= k < functions.len() implies method_of_some(sem, model, types, #[trigger] functions[k]) by {
            let f = functions[k];
            assert(functions.contains(f));
            lemma_push_all_distinct_origin(applying, sem.trait_functions_spec(n.def), f);
            if applying.contains(f) {
                lemma_applicable_sound(sem, model, sem.inherent_functions_spec(n.def), n, f);
            }
            assert(types[types.len() - 1] == n);
        }
        lemma_semantic_methods_of_reach(sem, model, fallback, name, n, types, mid, functions);
    }
}

/// A method call resolves only to methods that the receiver's types may reach: a module-level
/// candidate is a function of an inherent impl of one of those types that applies to its
/// arguments, or a function of a trait that type implements.
pub proof fn lemma_method_call_reachable(
    sem: SemanticIndex,
    model: EnvModel,
    body: BodyData,
    body_ref: crate::body_ids::BodyRef,
    receiver_ty: TyModel,
    name: Seq<char>,
    f: FunctionRef,
)
    requires
        method_call(sem, model, body, body_ref, receiver_ty, name).0 matches ResolutionView::Method(candidates)
            && candidates.contains(ResolvedFunctionRef::Semantic(f)),
    ensures
        exists|j: int|
            0 <= j < model_nominals(receiver_ty).len() && ((sem.inherent_functions_spec(
                (#[trigger] model_nominals(receiver_ty)[j]).def,
            ).contains(f) && function_applies(sem, model, f, model_nominals(receiver_ty)[j])) || sem.trait_functions_spec(
                model_nominals(receiver_ty)[j].def,
            ).contains(f)),
{
    let empty = (Seq::<ResolvedFunctionRef>::empty(), Seq::<TyModel>::empty());
    lemma_local_methods_fold_reach(sem, model, body, body_ref, name, Seq::empty(), empty, crate::body_infer::model_local_items(receiver_ty));
    let local = local_methods_fold(sem, model, body, body_ref, name, empty, crate::body_infer::model_local_items(receiver_ty));
    lemma_semantic_methods_fold_reach(sem, model, body.owner_module, name, local, model_nominals(receiver_ty));
    assert(method_of_some(sem, model, model_nominals(receiver_ty), f));
}

} // verus!
