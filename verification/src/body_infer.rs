//! Resolution and small type inference for lowered bodies.
//!
//! The pass answers only cheap questions: whether a path names a local binding, a body-local
//! item or a module-level definition, and which simple types are already present in signatures.
//! Types are compared by their models (see `body_ty`).

use vstd::prelude::*;
use vstd::string::*;

use crate::body::{
    BindingData, BindingKind, BodyData, BodyFunctionOwner, BodyImplData, BodyIrDb, PackageBodies, TargetBodies, ExprData, ExprKind, MatchArmData, inherent_functions, BodyLocalNominalTy, BodyNominalTy, BodyResolution, BodyTy, ResolvedFieldRef, ResolvedFunctionRef, entry_at, field_has_key, peeled,
};
use crate::body_ids::{BindingId, BodyFieldRef, BodyFunctionRef, BodyId, BodyImplId, BodyItemRef, ExprId};
use crate::body_resolve::{
    BodyTypePathResolution, lemma_local_name_found, local_field_for_type, local_item_for_type, resolve_local_impls, lookup_local_name, lookup_local_type_item, resolve_local_name,
    resolve_local_type_item,
};
use crate::body_ty::{
    LocalNominalModel, NominalModel, TyModel, local_nominal_model, local_nominal_models, nominal_model, nominal_models, ty_arg_models,
    lemma_local_nominal_models, lemma_nominal_models, push_unique_ty, ty_model, ty_models, duplicate_ty_args,
};
use crate::body_ids::{BodyRef, ScopeId};
use crate::cursor::{path_from_type_path_prefix, type_path_prefix};
use crate::db::DefMapDb;
use crate::ids::{DefId, ModuleRef, PackageSlot, TargetRef};
use crate::freeze::{normalized_package_slots, slot_available, strictly_increasing};
use crate::text::TargetId;
use crate::item_tree::{FieldItem, FieldKey, FieldKeyView, FieldRef, FunctionRef, TypeDefRef, TypePath, TypeRef, type_model};
use crate::path::{Path, PathView};
use crate::resolution::{EnvModel, resolve_path};
use crate::pattern_types::{model_subst, binding_tys, pats_ordered, propagate, propagate_work, propagation_refs_in_range, propagation_work, same_except_binding_tys};
use crate::receiver::{
    function_applies, generics_subst, impl_self_subst, lemma_model_type_args, semantic_function_applies_to_receiver, semantic_impl_self_subst, subst_from_generics,
    subst_model, subst_ty, type_ref_is_self,
};
use crate::scoped_types::{scope_ty, ty_from_type_ref_for_function_with_subst};
use crate::semantic::{
    SemanticIndex, SemanticTypeDef, TypePathContext, TypePathView, collect_type_defs, push_all_distinct, first_match, lemma_first_match_at, lemma_first_match_none, push_distinct, push_distinct_type_def,
    semantic_type_path,
};

verus! {

/// The path a type path spells.
pub open spec fn type_path_view(path: TypePath) -> PathView {
    type_path_prefix(path, path.segments@.len() as int)
}

/// Nominal types without generic arguments for the type definitions `defs`, in order.
pub open spec fn bare_nominals(defs: Seq<TypeDefRef>) -> Seq<NominalModel> {
    defs.map_values(|d: TypeDefRef| NominalModel { def: d, args: Seq::empty() })
}

/// The type a resolved type path denotes: the named local item or type definitions without
/// generic arguments, else `fallback`.
pub open spec fn ty_for_type_path(res: TypePathView, fallback: TyModel) -> TyModel {
    match res {
        TypePathView::BodyLocal(item) => TyModel::LocalNominal(seq![LocalNominalModel { item, args: Seq::empty() }]),
        TypePathView::SelfType(types) => TyModel::SelfTy(bare_nominals(types)),
        TypePathView::TypeDefs(types) => TyModel::Nominal(bare_nominals(types)),
        TypePathView::Traits(_) => fallback,
        TypePathView::Unknown => fallback,
    }
}

/// The type a written type denotes in `context`: `()` and `!` are built in, paths resolve
/// through the semantic index and are `fallback` when they name no type, `_` and unknown
/// syntax are unknown, and other forms stay as written.
pub open spec fn ty_in_context(sem: SemanticIndex, model: EnvModel, ty: TypeRef, context: TypePathContext, fallback: TyModel) -> TyModel {
    match ty {
        TypeRef::Unit => TyModel::Unit,
        TypeRef::Never => TyModel::Never,
        TypeRef::Path(path) => ty_for_type_path(semantic_type_path(sem, model, context, type_path_view(path)), fallback),
        TypeRef::Unknown(_) => TyModel::Unknown,
        TypeRef::Infer => TyModel::Unknown,
        TypeRef::Tuple(types) => if types@.len() == 0 {
            TyModel::Unit
        } else {
            TyModel::Syntax(type_model(ty))
        },
        _ => TyModel::Syntax(type_model(ty)),
    }
}

/// The context of a function's signature; a function the index does not know is read in
/// `fallback`.
pub open spec fn function_context(sem: SemanticIndex, function: FunctionRef, fallback: ModuleRef) -> TypePathContext {
    match sem.function_context_spec(function) {
        Some(context) => context,
        None => TypePathContext { module: fallback, impl_ref: None },
    }
}

/// What a type path written in `scope` of `body` names: a body-local item of that name in the
/// scope or an enclosing one, else what it names in the context of the body's function.
pub open spec fn type_path_in_scope(
    sem: SemanticIndex,
    model: EnvModel,
    body: BodyData,
    body_ref: BodyRef,
    scope: ScopeId,
    path: PathView,
) -> TypePathView {
    let local = match path.single_name() {
        Some(name) => lookup_local_type_item(body, scope, name),
        None => None,
    };
    match local {
        Some(item) => TypePathView::BodyLocal(BodyItemRef { body: body_ref, item }),
        None => semantic_type_path(sem, model, function_context(sem, body.owner, body.owner_module), path),
    }
}

/// The type a written type denotes in `scope` of `body`: paths see body-local items first;
/// other forms are read in the context of the body's function.
pub open spec fn ty_in_scope(
    sem: SemanticIndex,
    model: EnvModel,
    body: BodyData,
    body_ref: BodyRef,
    ty: TypeRef,
    scope: ScopeId,
) -> TyModel {
    match ty {
        TypeRef::Path(path) => ty_for_type_path(
            type_path_in_scope(sem, model, body, body_ref, scope, type_path_view(path)),
            TyModel::Syntax(type_model(ty)),
        ),
        _ => ty_in_context(sem, model, ty, function_context(sem, body.owner, body.owner_module), TyModel::Syntax(type_model(ty))),
    }
}

/// The type a written type of `function`'s signature denotes.
pub open spec fn ty_for_function(sem: SemanticIndex, model: EnvModel, fallback: ModuleRef, ty: TypeRef, function: FunctionRef) -> TyModel {
    ty_in_context(sem, model, ty, function_context(sem, function, fallback), TyModel::Syntax(type_model(ty)))
}

/// The self types of the impl that owns `function`; none outside an impl.
pub open spec fn self_tys_of_function(sem: SemanticIndex, fallback: ModuleRef, function: FunctionRef) -> Seq<TypeDefRef> {
    match function_context(sem, function, fallback).impl_ref {
        Some(impl_ref) => match sem.impl_spec(impl_ref) {
            Some(data) => data.resolved_self_tys@,
            None => Seq::empty(),
        },
        None => Seq::empty(),
    }
}

proof fn lemma_bare_push(out: Seq<BodyNominalTy>, n: BodyNominalTy)
    requires
        n.args@.len() == 0,
    ensures
        nominal_models(out.push(n)) == nominal_models(out).push(NominalModel { def: n.def, args: Seq::empty() }),
{
    assert(out.push(n).drop_last() =~= out);
    assert(out.push(n).last() == n);
    assert(ty_arg_models(n.args@) =~= Seq::empty());
    assert(nominal_model(n) == NominalModel { def: n.def, args: Seq::empty() });
}

/// Bare nominal types for `defs`, in order.
pub fn bare_nominal_tys(defs: &Vec<TypeDefRef>) -> (r: Vec<BodyNominalTy>)
    ensures
        nominal_models(r@) == bare_nominals(defs@),
{
    let mut out: Vec<BodyNominalTy> = Vec::new();
    let mut i: usize = 0;
    while i < defs.len()
        invariant
            i <= defs@.len(),
            nominal_models(out@) == bare_nominals(defs@.take(i as int)),
        decreases defs.len() - i,
    {
        let n = BodyNominalTy::bare(defs[i]);
        proof {
            lemma_bare_push(out@, n);
            assert(bare_nominals(defs@.take(i + 1)) =~= bare_nominals(defs@.take(i as int)).push(
                NominalModel { def: defs@[i as int], args: Seq::empty() },
            ));
        }
        out.push(n);
        i = i + 1;
    }
    proof {
        assert(defs@.take(defs@.len() as int) =~= defs@);
    }
    out
}

/// The type of a body-local item without generic arguments.
pub fn bare_local_ty(item: BodyItemRef) -> (r: BodyTy)
    ensures
        ty_model(r) == TyModel::LocalNominal(seq![LocalNominalModel { item, args: Seq::empty() }]),
{
    let n = BodyLocalNominalTy::bare(item);
    let mut v: Vec<BodyLocalNominalTy> = Vec::new();
    v.push(n);
    proof {
        assert(v@.drop_last() =~= Seq::<BodyLocalNominalTy>::empty());
        assert(local_nominal_models(v@.drop_last()) =~= Seq::<LocalNominalModel>::empty());
        assert(v@.last() == n);
        assert(ty_arg_models(n.args@) =~= Seq::empty());
        assert(local_nominal_model(n) == LocalNominalModel { item, args: Seq::empty() });
        assert(local_nominal_models(v@) =~= seq![LocalNominalModel { item, args: Seq::empty() }]);
    }
    BodyTy::LocalNominal(v)
}

/// The type a resolved type path denotes, as [`ty_for_type_path`] states.
pub fn ty_from_body_resolution(res: BodyTypePathResolution, fallback: BodyTy) -> (r: BodyTy)
    ensures
        ty_model(r) == ty_for_type_path(res@, ty_model(fallback)),
{
    match res {
        BodyTypePathResolution::BodyLocal(item) => bare_local_ty(item),
        BodyTypePathResolution::SelfType(types) => BodyTy::SelfTy(bare_nominal_tys(&types)),
        BodyTypePathResolution::TypeDefs(types) => BodyTy::Nominal(bare_nominal_tys(&types)),
        BodyTypePathResolution::Traits(_) => fallback,
        BodyTypePathResolution::Unknown => fallback,
    }
}

/// Converts a written type to a Body IR type in `context`, as [`ty_in_context`] states.
pub fn ty_from_type_ref_in_context(
    sem: &SemanticIndex,
    def_map: &DefMapDb,
    ty: &TypeRef,
    context: TypePathContext,
    unresolved_path_fallback: BodyTy,
) -> (r: BodyTy)
    ensures
        ty_model(r) == ty_in_context(*sem, def_map.model(), *ty, context, ty_model(unresolved_path_fallback)),
{
    match ty {
        TypeRef::Unit => BodyTy::Unit,
        TypeRef::Never => BodyTy::Never,
        TypeRef::Path(type_path) => {
            let path = path_from_type_path_prefix(type_path, type_path.segments.len());
            let res = sem.resolve_type_path(def_map, context, &path);
            ty_from_body_resolution(res, unresolved_path_fallback)
        },
        TypeRef::Unknown(_) => BodyTy::Unknown,
        TypeRef::Infer => BodyTy::Unknown,
        TypeRef::Tuple(types) => {
            if types.len() == 0 {
                BodyTy::Unit
            } else {
                BodyTy::Syntax(ty.duplicate())
            }
        },
        _ => BodyTy::Syntax(ty.duplicate()),
    }
}

/// The context of a function's signature, as [`function_context`] states.
pub fn context_for_function(sem: &SemanticIndex, function: FunctionRef, fallback: ModuleRef) -> (r: TypePathContext)
    ensures
        r == function_context(*sem, function, fallback),
{
    match sem.type_path_context_for_function(function) {
        Some(context) => context,
        None => TypePathContext::module(fallback),
    }
}

/// Resolves a type path written in `scope` of `body`, as [`type_path_in_scope`] states.
pub fn resolve_in_scope(
    sem: &SemanticIndex,
    def_map: &DefMapDb,
    body: &BodyData,
    body_ref: BodyRef,
    scope: ScopeId,
    path: &crate::path::Path,
) -> (r: BodyTypePathResolution)
    ensures
        r@ == type_path_in_scope(*sem, def_map.model(), *body, body_ref, scope, path@),
{
    if let Some(name) = path.single_name() {
        if let Some(item) = resolve_local_type_item(body, scope, name) {
            return BodyTypePathResolution::BodyLocal(BodyItemRef { body: body_ref, item });
        }
    }
    let context = context_for_function(sem, body.owner, body.owner_module);
    sem.resolve_type_path(def_map, context, path)
}

/// Converts a type written in `scope` of `body`, as [`ty_in_scope`] states.
pub fn ty_from_type_ref_in_scope(
    sem: &SemanticIndex,
    def_map: &DefMapDb,
    body: &BodyData,
    body_ref: BodyRef,
    ty: &TypeRef,
    scope: ScopeId,
) -> (r: BodyTy)
    ensures
        ty_model(r) == ty_in_scope(*sem, def_map.model(), *body, body_ref, *ty, scope),
{
    match ty {
        TypeRef::Path(type_path) => {
            let path = path_from_type_path_prefix(type_path, type_path.segments.len());
            let res = resolve_in_scope(sem, def_map, body, body_ref, scope, &path);
            ty_from_body_resolution(res, BodyTy::Syntax(ty.duplicate()))
        },
        _ => {
            let context = context_for_function(sem, body.owner, body.owner_module);
            ty_from_type_ref_in_context(sem, def_map, ty, context, BodyTy::Syntax(ty.duplicate()))
        },
    }
}

/// Converts a type of `function`'s signature, as [`ty_for_function`] states.
pub fn ty_from_type_ref_for_function(
    sem: &SemanticIndex,
    def_map: &DefMapDb,
    body: &BodyData,
    ty: &TypeRef,
    function: FunctionRef,
) -> (r: BodyTy)
    ensures
        ty_model(r) == ty_for_function(*sem, def_map.model(), body.owner_module, *ty, function),
{
    let context = context_for_function(sem, function, body.owner_module);
    ty_from_type_ref_in_context(sem, def_map, ty, context, BodyTy::Syntax(ty.duplicate()))
}

/// The self types of the impl that owns `function`, as [`self_tys_of_function`] states.
pub fn self_tys_for_function(sem: &SemanticIndex, body: &BodyData, function: FunctionRef) -> (r: Vec<TypeDefRef>)
    ensures
        r@ == self_tys_of_function(*sem, body.owner_module, function),
{
    let context = context_for_function(sem, function, body.owner_module);
    match context.impl_ref {
        Some(impl_ref) => match sem.impl_data(impl_ref) {
            Some(data) => {
                let mut out: Vec<TypeDefRef> = Vec::new();
                let mut i: usize = 0;
                while i < data.resolved_self_tys.len()
                    invariant
                        i <= data.resolved_self_tys@.len(),
                        out@ == data.resolved_self_tys@.take(i as int),
                    decreases data.resolved_self_tys.len() - i,
                {
                    out.push(data.resolved_self_tys[i]);
                    proof {
                        assert(out@ =~= data.resolved_self_tys@.take(i + 1));
                    }
                    i = i + 1;
                }
                proof {
                    assert(data.resolved_self_tys@.take(data.resolved_self_tys@.len() as int) =~= data.resolved_self_tys@);
                }
                out
            },
            None => Vec::new(),
        },
        None => Vec::new(),
    }
}

/// Model of a body resolution.
pub enum ResolutionView {
    Local(BindingId),
    LocalItem(BodyItemRef),
    Item(Seq<DefId>),
    Field(Seq<ResolvedFieldRef>),
    Method(Seq<ResolvedFunctionRef>),
    Unknown,
}

impl View for BodyResolution {
    type V = ResolutionView;

    open spec fn view(&self) -> ResolutionView {
        match self {
            BodyResolution::Local(b) => ResolutionView::Local(*b),
            BodyResolution::LocalItem(i) => ResolutionView::LocalItem(*i),
            BodyResolution::Item(defs) => ResolutionView::Item(defs@),
            BodyResolution::Field(fields) => ResolutionView::Field(fields@),
            BodyResolution::Method(functions) => ResolutionView::Method(functions@),
            BodyResolution::Unknown => ResolutionView::Unknown,
        }
    }
}

fn same_defs(a: &Vec<DefId>, b: &Vec<DefId>) -> (r: bool)
    ensures
        r == (a@ == b@),
{
    if a.len() != b.len() {
        return false;
    }
    let mut i: usize = 0;
    while i < a.len()
        invariant
            a@.len() == b@.len(),
            i <= a@.len(),
            forall|k: int| 0 <= k < i ==> a@[k] == b@[k],
        decreases a.len() - i,
    {
        if a[i] != b[i] {
            return false;
        }
        i = i + 1;
    }
    proof {
        assert(a@ =~= b@);
    }
    true
}

fn same_fields(a: &Vec<ResolvedFieldRef>, b: &Vec<ResolvedFieldRef>) -> (r: bool)
    ensures
        r == (a@ == b@),
{
    if a.len() != b.len() {
        return false;
    }
    let mut i: usize = 0;
    while i < a.len()
        invariant
            a@.len() == b@.len(),
            i <= a@.len(),
            forall|k: int| 0 <= k < i ==> a@[k] == b@[k],
        decreases a.len() - i,
    {
        if a[i] != b[i] {
            return false;
        }
        i = i + 1;
    }
    proof {
        assert(a@ =~= b@);
    }
    true
}

fn same_functions(a: &Vec<ResolvedFunctionRef>, b: &Vec<ResolvedFunctionRef>) -> (r: bool)
    ensures
        r == (a@ == b@),
{
    if a.len() != b.len() {
        return false;
    }
    let mut i: usize = 0;
    while i < a.len()
        invariant
            a@.len() == b@.len(),
            i <= a@.len(),
            forall|k: int| 0 <= k < i ==> a@[k] == b@[k],
        decreases a.len() - i,
    {
        if a[i] != b[i] {
            return false;
        }
        i = i + 1;
    }
    proof {
        assert(a@ =~= b@);
    }
    true
}

impl BodyResolution {
    /// Whether two resolutions denote the same thing.
    pub fn same_as(&self, other: &BodyResolution) -> (r: bool)
        ensures
            r == (self@ == other@),
    {
        match (self, other) {
            (BodyResolution::Local(a), BodyResolution::Local(b)) => *a == *b,
            (BodyResolution::LocalItem(a), BodyResolution::LocalItem(b)) => *a == *b,
            (BodyResolution::Item(a), BodyResolution::Item(b)) => same_defs(a, b),
            (BodyResolution::Field(a), BodyResolution::Field(b)) => same_fields(a, b),
            (BodyResolution::Method(a), BodyResolution::Method(b)) => same_functions(a, b),
            (BodyResolution::Unknown, BodyResolution::Unknown) => true,
            _ => false,
        }
    }
}

/// A type model under any number of references.
pub open spec fn peeled_model(m: TyModel) -> TyModel
    decreases m,
{
    match m {
        TyModel::Reference(inner) => peeled_model(*inner),
        _ => m,
    }
}

/// The body-local items a type denotes once references are peeled.
pub open spec fn model_local_items(m: TyModel) -> Seq<BodyItemRef> {
    match peeled_model(m) {
        TyModel::LocalNominal(items) => items.map_values(|n: LocalNominalModel| n.item),
        _ => Seq::empty(),
    }
}

/// The type definitions a type denotes once references are peeled; `Self` types count too.
pub open spec fn model_type_defs(m: TyModel) -> Seq<TypeDefRef> {
    match peeled_model(m) {
        TyModel::Nominal(defs) => defs.map_values(|n: NominalModel| n.def),
        TyModel::SelfTy(defs) => defs.map_values(|n: NominalModel| n.def),
        _ => Seq::empty(),
    }
}

/// The module-level types, with their arguments, that a type denotes once references are
/// peeled; `Self` types count too.
pub open spec fn model_nominals(m: TyModel) -> Seq<NominalModel> {
    match peeled_model(m) {
        TyModel::Nominal(types) => types,
        TyModel::SelfTy(types) => types,
        _ => Seq::empty(),
    }
}

/// The substitution a use of a module-level type gives: its type parameters stand for the type
/// arguments of the use.
pub open spec fn type_args_subst(sem: SemanticIndex, ty: NominalModel) -> Seq<(Seq<char>, TyModel)> {
    match sem.type_def_spec(ty.def) {
        Some(t) => model_subst(t.generics, ty.args),
        None => Seq::empty(),
    }
}

proof fn lemma_peeled_model(t: BodyTy)
    ensures
        ty_model(peeled(t)) == peeled_model(ty_model(t)),
    decreases t,
{
    if let BodyTy::Reference(inner) = t {
        lemma_peeled_model(*inner);
    }
}

/// The local items and type definitions of a type agree with those of its model.
pub proof fn lemma_nominals_of_model(t: BodyTy)
    ensures
        t.local_nominals_spec().map_values(|n: BodyLocalNominalTy| n.item) == model_local_items(ty_model(t)),
        t.nominal_tys_spec().map_values(|n: BodyNominalTy| n.def) == model_type_defs(ty_model(t)),
        nominal_models(t.nominal_tys_spec()) == model_nominals(ty_model(t)),
{
    lemma_peeled_model(t);
    match peeled(t) {
        BodyTy::LocalNominal(items) => {
            lemma_local_nominal_models(items@);
            assert(t.local_nominals_spec().map_values(|n: BodyLocalNominalTy| n.item) =~= model_local_items(ty_model(t)));
        },
        BodyTy::Nominal(defs) => {
            lemma_nominal_models(defs@);
            assert(t.nominal_tys_spec().map_values(|n: BodyNominalTy| n.def) =~= model_type_defs(ty_model(t)));
        },
        BodyTy::SelfTy(defs) => {
            lemma_nominal_models(defs@);
            assert(t.nominal_tys_spec().map_values(|n: BodyNominalTy| n.def) =~= model_type_defs(ty_model(t)));
        },
        _ => {
            assert(t.local_nominals_spec().map_values(|n: BodyLocalNominalTy| n.item) =~= model_local_items(ty_model(t)));
            assert(t.nominal_tys_spec().map_values(|n: BodyNominalTy| n.def) =~= model_type_defs(ty_model(t)));
        },
    }
}

/// `tys` holds exactly one type: that one; otherwise unknown.
pub open spec fn single_ty(tys: Seq<TyModel>) -> TyModel {
    if tys.len() == 1 {
        tys[0]
    } else {
        TyModel::Unknown
    }
}

/// The field of a body-local item of this body declared under `key`: the first field with that
/// key. Items of other bodies have no fields here.
pub open spec fn local_field_spec(body: BodyData, body_ref: BodyRef, item: BodyItemRef, key: FieldKeyView) -> Option<BodyFieldRef> {
    if item.body != body_ref {
        None
    } else {
        match entry_at(body.local_items@, item.item.0) {
            None => None,
            Some(data) => match first_match(data.fields.fields@, |f: FieldItem| field_has_key(f, key)) {
                Some(i) => Some(BodyFieldRef { item, index: i as usize }),
                None => None,
            },
        }
    }
}

/// One body-local receiver item of a field access: its field under `key`, and that field's type
/// read in the item's scope.
pub open spec fn local_field_step(
    sem: SemanticIndex,
    model: EnvModel,
    body: BodyData,
    body_ref: BodyRef,
    key: FieldKeyView,
    acc: (Seq<ResolvedFieldRef>, Seq<TyModel>),
    item: BodyItemRef,
) -> (Seq<ResolvedFieldRef>, Seq<TyModel>) {
    match local_field_spec(body, body_ref, item, key) {
        None => acc,
        Some(field) => {
            let data = body.local_items@[item.item.0 as int];
            let declared = data.fields.fields@[field.index as int];
            (
                push_distinct(acc.0, ResolvedFieldRef::BodyLocal(field)),
                push_distinct(acc.1, ty_in_scope(sem, model, body, body_ref, declared.ty, data.scope)),
            )
        },
    }
}

/// [`local_field_step`] over `items` in order, from `acc`.
pub open spec fn local_fields_fold(
    sem: SemanticIndex,
    model: EnvModel,
    body: BodyData,
    body_ref: BodyRef,
    key: FieldKeyView,
    acc: (Seq<ResolvedFieldRef>, Seq<TyModel>),
    items: Seq<BodyItemRef>,
) -> (Seq<ResolvedFieldRef>, Seq<TyModel>)
    decreases items.len(),
{
    if items.len() == 0 {
        acc
    } else {
        local_field_step(sem, model, body, body_ref, key, local_fields_fold(sem, model, body, body_ref, key, acc, items.drop_last()), items.last())
    }
}

/// One module-level receiver type of a field access: its field under `key`, and that field's
/// type read in the module of the type, with the type's parameters standing for the receiver's
/// type arguments.
pub open spec fn semantic_field_step(
    sem: SemanticIndex,
    model: EnvModel,
    key: FieldKeyView,
    acc: (Seq<ResolvedFieldRef>, Seq<TyModel>),
    ty: NominalModel,
) -> (Seq<ResolvedFieldRef>, Seq<TyModel>) {
    match sem.field_for_type_spec(ty.def, key) {
        None => acc,
        Some(field) => {
            let fields = push_distinct(acc.0, ResolvedFieldRef::Semantic(field));
            match sem.field_spec(field) {
                None => (fields, acc.1),
                Some(data) => (
                    fields,
                    push_distinct(
                        acc.1,
                        subst_ty(
                            sem,
                            model,
                            data.0.ty,
                            TypePathContext { module: data.1, impl_ref: None },
                            TyModel::Syntax(type_model(data.0.ty)),
                            type_args_subst(sem, ty),
                        ),
                    ),
                ),
            }
        },
    }
}

/// [`semantic_field_step`] over `types` in order, from `acc`.
pub open spec fn semantic_fields_fold(
    sem: SemanticIndex,
    model: EnvModel,
    key: FieldKeyView,
    acc: (Seq<ResolvedFieldRef>, Seq<TyModel>),
    types: Seq<NominalModel>,
) -> (Seq<ResolvedFieldRef>, Seq<TyModel>)
    decreases types.len(),
{
    if types.len() == 0 {
        acc
    } else {
        semantic_field_step(sem, model, key, semantic_fields_fold(sem, model, key, acc, types.drop_last()), types.last())
    }
}

/// What `base.key` resolves to when `base` has type `base_ty`: every field of that name on the
/// local items and then on the module-level types that `base_ty` denotes, each once, typed with
/// the receiver's type arguments; its type is known when exactly one distinct field type comes
/// out.
pub open spec fn field_access(
    sem: SemanticIndex,
    model: EnvModel,
    body: BodyData,
    body_ref: BodyRef,
    base_ty: TyModel,
    key: FieldKeyView,
) -> (ResolutionView, TyModel) {
    let local = local_fields_fold(sem, model, body, body_ref, key, (Seq::empty(), Seq::empty()), model_local_items(base_ty));
    let all = semantic_fields_fold(sem, model, key, local, model_nominals(base_ty));
    (
        if all.0.len() > 0 {
            ResolutionView::Field(all.0)
        } else {
            ResolutionView::Unknown
        },
        single_ty(all.1),
    )
}

/// Appends `f` unless already present.
fn push_distinct_field(items: &mut Vec<ResolvedFieldRef>, f: ResolvedFieldRef)
    ensures
        final(items)@ == push_distinct(old(items)@, f),
{
    let mut i: usize = 0;
    while i < items.len()
        invariant
            items@ == old(items)@,
            i <= items@.len(),
            forall|j: int| 0 <= j < i ==> items@[j] != f,
        decreases items.len() - i,
    {
        if items[i] == f {
            proof {
                assert(old(items)@.contains(f));
            }
            return;
        }
        i = i + 1;
    }
    items.push(f);
}

/// Appends `f` unless already present.
fn push_distinct_function(items: &mut Vec<ResolvedFunctionRef>, f: ResolvedFunctionRef)
    ensures
        final(items)@ == push_distinct(old(items)@, f),
{
    let mut i: usize = 0;
    while i < items.len()
        invariant
            items@ == old(items)@,
            i <= items@.len(),
            forall|j: int| 0 <= j < i ==> items@[j] != f,
        decreases items.len() - i,
    {
        if items[i] == f {
            proof {
                assert(old(items)@.contains(f));
            }
            return;
        }
        i = i + 1;
    }
    items.push(f);
}

/// The single type of `tys`, else unknown.
fn take_single_ty(tys: Vec<BodyTy>) -> (r: BodyTy)
    ensures
        ty_model(r) == single_ty(ty_models(tys@)),
{
    let mut tys = tys;
    if tys.len() == 1 {
        let ghost before = tys@;
        match tys.pop() {
            Some(t) => {
                proof {
                    assert(t == before.last());
                    assert(ty_models(before)[0] == ty_model(before[0]));
                }
                t
            },
            None => BodyTy::Unknown,
        }
    } else {
        BodyTy::Unknown
    }
}

/// Resolves a field access `base.key` whose base has the type `base_ty`, as [`field_access`]
/// states.
pub fn resolve_field_access(
    sem: &SemanticIndex,
    def_map: &DefMapDb,
    body: &BodyData,
    body_ref: BodyRef,
    base_ty: &BodyTy,
    key: &FieldKey,
) -> (r: (BodyResolution, BodyTy))
    ensures
        (r.0@, ty_model(r.1)) == field_access(*sem, def_map.model(), *body, body_ref, ty_model(*base_ty), key@),
{
    let ghost model = def_map.model();
    let items = base_ty.local_items();
    let nominals = base_ty.nominal_tys();
    proof {
        lemma_nominals_of_model(*base_ty);
        lemma_nominal_models(nominals@);
    }
    let ghost ns = nominal_models(nominals@);
    let mut fields: Vec<ResolvedFieldRef> = Vec::new();
    let mut field_tys: Vec<BodyTy> = Vec::new();
    let ghost empty = (Seq::<ResolvedFieldRef>::empty(), Seq::<TyModel>::empty());
    let mut i: usize = 0;
    while i < items.len()
        invariant
            i <= items@.len(),
            model == def_map.model(),
            (fields@, ty_models(field_tys@)) == local_fields_fold(*sem, model, *body, body_ref, key@, empty, items@.take(i as int)),
        decreases items.len() - i,
    {
        let item = items[i];
        proof {
            assert(items@.take(i + 1).drop_last() =~= items@.take(i as int));
            assert(items@.take(i + 1).last() == item);
        }
        match local_field_for_type(body, body_ref, item, key) {
            None => {
                proof {
                    if item.body == body_ref && item.item.0 < body.local_items@.len() {
                        lemma_first_match_none(
                            body.local_items@[item.item.0 as int].fields.fields@,
                            |f: FieldItem| field_has_key(f, key@),
                        );
                    }
                }
            },
            Some(field) => {
                proof {
                    lemma_first_match_at(
                        body.local_items@[item.item.0 as int].fields.fields@,
                        |f: FieldItem| field_has_key(f, key@),
                        field.index as int,
                    );
                }
                push_distinct_field(&mut fields, ResolvedFieldRef::BodyLocal(field));
                let data = &body.local_items[item.item.0];
                let declared = &data.fields.fields[field.index];
                let t = ty_from_type_ref_in_scope(sem, def_map, body, body_ref, &declared.ty, data.scope);
                proof {
                    assert(ty_models(field_tys@.push(t)) =~= ty_models(field_tys@).push(ty_model(t)));
                }
                push_unique_ty(&mut field_tys, t);
            },
        }
        i = i + 1;
    }
    proof {
        assert(items@.take(items@.len() as int) =~= items@);
    }
    let ghost local = (fields@, ty_models(field_tys@));
    let mut i: usize = 0;
    while i < nominals.len()
        invariant
            i <= nominals@.len(),
            model == def_map.model(),
            ns == nominal_models(nominals@),
            ns.len() == nominals@.len(),
            forall|k: int| 0 <= k < nominals@.len() ==> #[trigger] ns[k] == nominal_model(nominals@[k]),
            (fields@, ty_models(field_tys@)) == semantic_fields_fold(*sem, model, key@, local, ns.take(i as int)),
        decreases nominals.len() - i,
    {
        let ty = &nominals[i];
        proof {
            assert(ns.take(i + 1).drop_last() =~= ns.take(i as int));
            assert(ns.take(i + 1).last() == nominal_model(*ty));
        }
        match sem.field_for_type(ty.def, key) {
            None => {},
            Some(field) => {
                push_distinct_field(&mut fields, ResolvedFieldRef::Semantic(field));
                match sem.field_data(field) {
                    None => {},
                    Some(data) => {
                        let subst = semantic_type_subst(sem, ty);
                        let t = crate::receiver::ty_from_type_ref_in_context(
                            sem,
                            def_map,
                            &data.field.ty,
                            TypePathContext::module(data.owner_module),
                            BodyTy::Syntax(data.field.ty.duplicate()),
                            &subst,
                        );
                        push_unique_ty(&mut field_tys, t);
                    },
                }
            },
        }
        i = i + 1;
    }
    proof {
        assert(ns.take(ns.len() as int) =~= ns);
    }
    let resolution = if fields.len() > 0 {
        BodyResolution::Field(fields)
    } else {
        BodyResolution::Unknown
    };
    (resolution, take_single_ty(field_tys))
}

/// The functions of this body's inherent impls for a local item; an item of another body has
/// none here.
pub open spec fn local_functions_of(body: BodyData, body_ref: BodyRef, item: BodyItemRef) -> Seq<BodyFunctionRef> {
    if item.body != body_ref {
        Seq::empty()
    } else {
        inherent_functions(body.local_impls@, item, body_ref)
    }
}

/// The type a return type of a body-local impl function denotes: `Self` is the impl's local
/// item; other types are read in the impl's scope.
pub open spec fn local_impl_ty(sem: SemanticIndex, model: EnvModel, body: BodyData, body_ref: BodyRef, ty: TypeRef, impl_id: BodyImplId) -> TyModel {
    match entry_at(body.local_impls@, impl_id.0) {
        None => TyModel::Unknown,
        Some(data) => {
            let is_self = match ty {
                TypeRef::Path(path) => type_path_view(path).is_self_type(),
                _ => false,
            };
            if is_self {
                match data.self_item {
                    Some(item) => TyModel::LocalNominal(seq![LocalNominalModel { item, args: Seq::empty() }]),
                    None => TyModel::Unknown,
                }
            } else {
                ty_in_scope(sem, model, body, body_ref, ty, data.scope)
            }
        },
    }
}

/// The return type of a body-local function: `()` when none is written.
pub open spec fn local_return_ty(sem: SemanticIndex, model: EnvModel, body: BodyData, body_ref: BodyRef, function: BodyFunctionRef) -> TyModel {
    match entry_at(body.local_functions@, function.function.0) {
        None => TyModel::Unknown,
        Some(data) => match data.declaration.ret_ty {
            None => TyModel::Unit,
            Some(ret) => match data.owner {
                BodyFunctionOwner::LocalImpl(impl_id) => local_impl_ty(sem, model, body, body_ref, ret, impl_id),
            },
        },
    }
}

/// The return type of a module-level function: `()` when none is written.
pub open spec fn semantic_return_ty(sem: SemanticIndex, model: EnvModel, fallback: ModuleRef, function: FunctionRef) -> TyModel {
    match sem.function_spec(function) {
        None => TyModel::Unknown,
        Some(data) => match data.declaration.ret_ty {
            None => TyModel::Unit,
            Some(ret) => ty_for_function(sem, model, fallback, ret, function),
        },
    }
}

/// One body-local function as a method candidate: kept when it is named `name` and takes
/// `self`.
pub open spec fn local_method_step(
    sem: SemanticIndex,
    model: EnvModel,
    body: BodyData,
    body_ref: BodyRef,
    name: Seq<char>,
    acc: (Seq<ResolvedFunctionRef>, Seq<TyModel>),
    function: BodyFunctionRef,
) -> (Seq<ResolvedFunctionRef>, Seq<TyModel>) {
    match entry_at(body.local_functions@, function.function.0) {
        None => acc,
        Some(data) => if data.name@ == name && data.declaration.has_self_receiver_spec() {
            (
                push_distinct(acc.0, ResolvedFunctionRef::BodyLocal(function)),
                push_distinct(acc.1, local_return_ty(sem, model, body, body_ref, function)),
            )
        } else {
            acc
        },
    }
}

/// [`local_method_step`] over `functions` in order, from `acc`.
pub open spec fn local_methods_of(
    sem: SemanticIndex,
    model: EnvModel,
    body: BodyData,
    body_ref: BodyRef,
    name: Seq<char>,
    acc: (Seq<ResolvedFunctionRef>, Seq<TyModel>),
    functions: Seq<BodyFunctionRef>,
) -> (Seq<ResolvedFunctionRef>, Seq<TyModel>)
    decreases functions.len(),
{
    if functions.len() == 0 {
        acc
    } else {
        local_method_step(sem, model, body, body_ref, name, local_methods_of(sem, model, body, body_ref, name, acc, functions.drop_last()), functions.last())
    }
}

/// The method candidates of every local item of `items` in order, from `acc`.
pub open spec fn local_methods_fold(
    sem: SemanticIndex,
    model: EnvModel,
    body: BodyData,
    body_ref: BodyRef,
    name: Seq<char>,
    acc: (Seq<ResolvedFunctionRef>, Seq<TyModel>),
    items: Seq<BodyItemRef>,
) -> (Seq<ResolvedFunctionRef>, Seq<TyModel>)
    decreases items.len(),
{
    if items.len() == 0 {
        acc
    } else {
        local_methods_of(
            sem,
            model,
            body,
            body_ref,
            name,
            local_methods_fold(sem, model, body, body_ref, name, acc, items.drop_last()),
            local_functions_of(body, body_ref, items.last()),
        )
    }
}

/// The functions of a module-level type: its inherent functions, then the trait functions not
/// already among them.
pub open spec fn semantic_functions_of(sem: SemanticIndex, model: EnvModel, receiver: NominalModel) -> Seq<FunctionRef> {
    push_all_distinct(
        applicable_functions(sem, model, sem.inherent_functions_spec(receiver.def), receiver),
        sem.trait_functions_spec(receiver.def),
    )
}

/// The functions of `functions` that apply to the receiver, in order.
pub open spec fn applicable_functions(sem: SemanticIndex, model: EnvModel, functions: Seq<FunctionRef>, receiver: NominalModel) -> Seq<
    FunctionRef,
>
    decreases functions.len(),
{
    if functions.len() == 0 {
        Seq::empty()
    } else {
        let before = applicable_functions(sem, model, functions.drop_last(), receiver);
        if function_applies(sem, model, functions.last(), receiver) {
            before.push(functions.last())
        } else {
            before
        }
    }
}

/// The substitution for a method's signature on a receiver: the receiver type's parameters
/// stand for its arguments, then the impl header's parameters for the receiver's arguments.
pub open spec fn receiver_subst(sem: SemanticIndex, function: FunctionRef, receiver: NominalModel) -> Seq<(Seq<char>, TyModel)> {
    type_args_subst(sem, receiver) + impl_self_subst(sem, function, receiver)
}

/// The return type of a module-level method called on `receiver`: `()` when none is written,
/// the receiver itself for `Self`, otherwise the written type under [`receiver_subst`] in the
/// function's context.
pub open spec fn method_return_ty(sem: SemanticIndex, model: EnvModel, fallback: ModuleRef, function: FunctionRef, receiver: NominalModel) -> TyModel {
    match sem.function_spec(function) {
        None => TyModel::Unknown,
        Some(data) => match data.declaration.ret_ty {
            None => TyModel::Unit,
            Some(ret) => if (ret matches TypeRef::Path(p) && type_path_view(p).is_self_type()) {
                TyModel::Nominal(seq![receiver])
            } else {
                subst_ty(sem, model, ret, function_context(sem, function, fallback), TyModel::Syntax(type_model(ret)), receiver_subst(sem, function, receiver))
            },
        },
    }
}

/// One module-level function as a method candidate: kept when it is named `name` and takes
/// `self`.
pub open spec fn semantic_method_step(
    sem: SemanticIndex,
    model: EnvModel,
    fallback: ModuleRef,
    name: Seq<char>,
    receiver: NominalModel,
    acc: (Seq<ResolvedFunctionRef>, Seq<TyModel>),
    function: FunctionRef,
) -> (Seq<ResolvedFunctionRef>, Seq<TyModel>) {
    match sem.function_spec(function) {
        None => acc,
        Some(data) => if data.name@ == name && data.declaration.has_self_receiver_spec() {
            (
                push_distinct(acc.0, ResolvedFunctionRef::Semantic(function)),
                push_distinct(acc.1, method_return_ty(sem, model, fallback, function, receiver)),
            )
        } else {
            acc
        },
    }
}

/// [`semantic_method_step`] over `functions` in order, from `acc`.
pub open spec fn semantic_methods_of(
    sem: SemanticIndex,
    model: EnvModel,
    fallback: ModuleRef,
    name: Seq<char>,
    receiver: NominalModel,
    acc: (Seq<ResolvedFunctionRef>, Seq<TyModel>),
    functions: Seq<FunctionRef>,
) -> (Seq<ResolvedFunctionRef>, Seq<TyModel>)
    decreases functions.len(),
{
    if functions.len() == 0 {
        acc
    } else {
        semantic_method_step(
            sem,
            model,
            fallback,
            name,
            receiver,
            semantic_methods_of(sem, model, fallback, name, receiver, acc, functions.drop_last()),
            functions.last(),
        )
    }
}

/// The method candidates of every module-level type of `types` in order, from `acc`.
pub open spec fn semantic_methods_fold(
    sem: SemanticIndex,
    model: EnvModel,
    fallback: ModuleRef,
    name: Seq<char>,
    acc: (Seq<ResolvedFunctionRef>, Seq<TyModel>),
    types: Seq<NominalModel>,
) -> (Seq<ResolvedFunctionRef>, Seq<TyModel>)
    decreases types.len(),
{
    if types.len() == 0 {
        acc
    } else {
        semantic_methods_of(
            sem,
            model,
            fallback,
            name,
            types.last(),
            semantic_methods_fold(sem, model, fallback, name, acc, types.drop_last()),
            semantic_functions_of(sem, model, types.last()),
        )
    }
}

/// What `receiver.name(..)` resolves to when the receiver has type `receiver_ty`: every function
/// named `name` that takes `self`, of the inherent impls of the local items and then, for the
/// module-level types that `receiver_ty` denotes, of their inherent impls that apply to the
/// receiver and of the traits they implement, each once; return types are read with the
/// receiver's type arguments. The type is known when exactly one distinct return type comes out.
pub open spec fn method_call(
    sem: SemanticIndex,
    model: EnvModel,
    body: BodyData,
    body_ref: BodyRef,
    receiver_ty: TyModel,
    name: Seq<char>,
) -> (ResolutionView, TyModel) {
    let local = local_methods_fold(sem, model, body, body_ref, name, (Seq::empty(), Seq::empty()), model_local_items(receiver_ty));
    let all = semantic_methods_fold(sem, model, body.owner_module, name, local, model_nominals(receiver_ty));
    (
        if all.0.len() == 0 {
            ResolutionView::Unknown
        } else {
            ResolutionView::Method(all.0)
        },
        single_ty(all.1),
    )
}

/// Converts a return type of a body-local impl function, as [`local_impl_ty`] states.
pub fn ty_from_type_ref_for_local_impl(
    sem: &SemanticIndex,
    def_map: &DefMapDb,
    body: &BodyData,
    body_ref: BodyRef,
    ty: &TypeRef,
    impl_id: BodyImplId,
) -> (r: BodyTy)
    ensures
        ty_model(r) == local_impl_ty(*sem, def_map.model(), *body, body_ref, *ty, impl_id),
{
    let data = match body.local_impl(impl_id) {
        Some(data) => data,
        None => return BodyTy::Unknown,
    };
    if let TypeRef::Path(type_path) = ty {
        let path = path_from_type_path_prefix(type_path, type_path.segments.len());
        if path.is_self_type() {
            return match data.self_item {
                Some(item) => bare_local_ty(item),
                None => BodyTy::Unknown,
            };
        }
    }
    ty_from_type_ref_in_scope(sem, def_map, body, body_ref, ty, data.scope)
}

/// The return type of a body-local function, as [`local_return_ty`] states.
pub fn local_function_return_ty(sem: &SemanticIndex, def_map: &DefMapDb, body: &BodyData, body_ref: BodyRef, function: BodyFunctionRef) -> (r: BodyTy)
    ensures
        ty_model(r) == local_return_ty(*sem, def_map.model(), *body, body_ref, function),
{
    let data = match body.local_function(function.function) {
        Some(data) => data,
        None => return BodyTy::Unknown,
    };
    match &data.declaration.ret_ty {
        None => BodyTy::Unit,
        Some(ret) => match data.owner {
            BodyFunctionOwner::LocalImpl(impl_id) => ty_from_type_ref_for_local_impl(sem, def_map, body, body_ref, ret, impl_id),
        },
    }
}

/// The return type of a module-level function, as [`semantic_return_ty`] states.
pub fn semantic_function_return_ty(sem: &SemanticIndex, def_map: &DefMapDb, body: &BodyData, function: FunctionRef) -> (r: BodyTy)
    ensures
        ty_model(r) == semantic_return_ty(*sem, def_map.model(), body.owner_module, function),
{
    let data = match sem.function_data(function) {
        Some(data) => data,
        None => return BodyTy::Unknown,
    };
    match &data.declaration.ret_ty {
        None => BodyTy::Unit,
        Some(ret) => ty_from_type_ref_for_function(sem, def_map, body, ret, function),
    }
}

/// The substitution a use of a module-level type gives, as [`type_args_subst`] states.
pub fn semantic_type_subst(sem: &SemanticIndex, ty: &BodyNominalTy) -> (r: Vec<(String, BodyTy)>)
    ensures
        subst_model(r@) == type_args_subst(*sem, nominal_model(*ty)),
{
    match sem.generic_params_for_type_def(ty.def) {
        Some(generics) => {
            let subst = subst_from_generics(generics, &ty.args);
            proof {
                lemma_model_type_args(ty.args@);
                assert(nominal_model(*ty).args == ty_arg_models(ty.args@));
                assert(generics_subst(*generics, ty.args@) =~= model_subst(*generics, ty_arg_models(ty.args@)));
            }
            subst
        },
        None => {
            let subst: Vec<(String, BodyTy)> = Vec::new();
            proof {
                assert(subst_model(subst@) =~= Seq::<(Seq<char>, TyModel)>::empty());
            }
            subst
        },
    }
}

/// The return type of a module-level method called on `receiver`, as [`method_return_ty`]
/// states.
pub fn semantic_method_return_ty(
    sem: &SemanticIndex,
    def_map: &DefMapDb,
    body: &BodyData,
    function: FunctionRef,
    receiver: &BodyNominalTy,
) -> (r: BodyTy)
    ensures
        ty_model(r) == method_return_ty(*sem, def_map.model(), body.owner_module, function, nominal_model(*receiver)),
{
    let data = match sem.function_data(function) {
        Some(data) => data,
        None => return BodyTy::Unknown,
    };
    let ret = match &data.declaration.ret_ty {
        Some(ret) => ret,
        None => return BodyTy::Unit,
    };
    if type_ref_is_self(ret) {
        let mut types: Vec<BodyNominalTy> = Vec::new();
        types.push(BodyNominalTy { def: receiver.def, args: duplicate_ty_args(&receiver.args) });
        proof {
            lemma_nominal_models(types@);
            assert(nominal_models(types@) =~= seq![nominal_model(*receiver)]);
        }
        return BodyTy::Nominal(types);
    }
    let mut subst = semantic_type_subst(sem, receiver);
    let mut more = semantic_impl_self_subst(sem, function, receiver);
    let ghost first = subst@;
    let ghost second = more@;
    subst.append(&mut more);
    proof {
        assert(subst@ == first + second);
        assert(subst_model(subst@) =~= subst_model(first) + subst_model(second));
    }
    ty_from_type_ref_for_function_with_subst(sem, def_map, body, ret, function, &subst)
}

/// The method candidates of a module-level receiver type, as [`semantic_functions_of`] states:
/// the inherent functions that apply to the receiver, then the trait functions.
pub fn semantic_functions_for_type(sem: &SemanticIndex, def_map: &DefMapDb, receiver: &BodyNominalTy) -> (r: Vec<FunctionRef>)
    ensures
        r@ == semantic_functions_of(*sem, def_map.model(), nominal_model(*receiver)),
{
    let ghost model = def_map.model();
    let ghost n = nominal_model(*receiver);
    let inherent = sem.inherent_functions_for_type(receiver.def);
    let mut functions: Vec<FunctionRef> = Vec::new();
    let mut k: usize = 0;
    while k < inherent.len()
        invariant
            k <= inherent@.len(),
            model == def_map.model(),
            n == nominal_model(*receiver),
            functions@ == applicable_functions(*sem, model, inherent@.take(k as int), n),
        decreases inherent.len() - k,
    {
        proof {
            assert(inherent@.take(k + 1).drop_last() =~= inherent@.take(k as int));
            assert(inherent@.take(k + 1).last() == inherent@[k as int]);
        }
        if semantic_function_applies_to_receiver(sem, def_map, inherent[k], receiver) {
            functions.push(inherent[k]);
        }
        k = k + 1;
    }
    proof {
        assert(inherent@.take(inherent@.len() as int) =~= inherent@);
    }
    let traits = sem.trait_functions_for_type(receiver.def);
    let ghost start = functions@;
    let mut i: usize = 0;
    while i < traits.len()
        invariant
            i <= traits@.len(),
            functions@ == push_all_distinct(start, traits@.take(i as int)),
        decreases traits.len() - i,
    {
        proof {
            assert(traits@.take(i + 1).drop_last() =~= traits@.take(i as int));
            assert(traits@.take(i + 1).last() == traits@[i as int]);
        }
        push_distinct_function_ref(&mut functions, traits[i]);
        i = i + 1;
    }
    proof {
        assert(traits@.take(traits@.len() as int) =~= traits@);
    }
    functions
}

/// Appends `f` unless already present.
fn push_distinct_function_ref(items: &mut Vec<FunctionRef>, f: FunctionRef)
    ensures
        final(items)@ == push_distinct(old(items)@, f),
{
    let mut i: usize = 0;
    while i < items.len()
        invariant
            items@ == old(items)@,
            i <= items@.len(),
            forall|j: int| 0 <= j < i ==> items@[j] != f,
        decreases items.len() - i,
    {
        if items[i] == f {
            proof {
                assert(old(items)@.contains(f));
            }
            return;
        }
        i = i + 1;
    }
    items.push(f);
}

/// Resolves a method call on a receiver of type `receiver_ty`, as [`method_call`] states.
pub fn resolve_method_call(
    sem: &SemanticIndex,
    def_map: &DefMapDb,
    body: &BodyData,
    body_ref: BodyRef,
    receiver_ty: &BodyTy,
    method_name: &String,
) -> (r: (BodyResolution, BodyTy))
    ensures
        (r.0@, ty_model(r.1)) == method_call(*sem, def_map.model(), *body, body_ref, ty_model(*receiver_ty), method_name@),
{
    let ghost model = def_map.model();
    let ghost name = method_name@;
    let items = receiver_ty.local_items();
    let nominals = receiver_ty.nominal_tys();
    proof {
        lemma_nominals_of_model(*receiver_ty);
        lemma_nominal_models(nominals@);
    }
    let ghost ns = nominal_models(nominals@);
    let mut functions: Vec<ResolvedFunctionRef> = Vec::new();
    let mut return_tys: Vec<BodyTy> = Vec::new();
    let ghost empty = (Seq::<ResolvedFunctionRef>::empty(), Seq::<TyModel>::empty());
    let mut i: usize = 0;
    while i < items.len()
        invariant
            i <= items@.len(),
            model == def_map.model(),
            name == method_name@,
            (functions@, ty_models(return_tys@)) == local_methods_fold(*sem, model, *body, body_ref, name, empty, items@.take(i as int)),
        decreases items.len() - i,
    {
        let item = items[i];
        proof {
            assert(items@.take(i + 1).drop_last() =~= items@.take(i as int));
            assert(items@.take(i + 1).last() == item);
        }
        let candidates = local_functions_for_type(body, body_ref, item);
        let ghost start = (functions@, ty_models(return_tys@));
        let mut j: usize = 0;
        while j < candidates.len()
            invariant
                j <= candidates@.len(),
                model == def_map.model(),
                name == method_name@,
                (functions@, ty_models(return_tys@)) == local_methods_of(*sem, model, *body, body_ref, name, start, candidates@.take(j as int)),
            decreases candidates.len() - j,
        {
            let function = candidates[j];
            proof {
                assert(candidates@.take(j + 1).drop_last() =~= candidates@.take(j as int));
                assert(candidates@.take(j + 1).last() == function);
            }
            match body.local_function(function.function) {
                None => {},
                Some(data) => {
                    if data.name == *method_name && data.has_self_receiver() {
                        push_distinct_function(&mut functions, ResolvedFunctionRef::BodyLocal(function));
                        let t = local_function_return_ty(sem, def_map, body, body_ref, function);
                        push_unique_ty(&mut return_tys, t);
                    }
                },
            }
            j = j + 1;
        }
        proof {
            assert(candidates@.take(candidates@.len() as int) =~= candidates@);
        }
        i = i + 1;
    }
    proof {
        assert(items@.take(items@.len() as int) =~= items@);
    }
    let ghost local = (functions@, ty_models(return_tys@));
    let mut i: usize = 0;
    while i < nominals.len()
        invariant
            i <= nominals@.len(),
            model == def_map.model(),
            name == method_name@,
            ns == nominal_models(nominals@),
            ns.len() == nominals@.len(),
            forall|k: int| 0 <= k < nominals@.len() ==> #[trigger] ns[k] == nominal_model(nominals@[k]),
            (functions@, ty_models(return_tys@)) == semantic_methods_fold(*sem, model, body.owner_module, name, local, ns.take(i as int)),
        decreases nominals.len() - i,
    {
        let ty = &nominals[i];
        proof {
            assert(ns.take(i + 1).drop_last() =~= ns.take(i as int));
            assert(ns.take(i + 1).last() == nominal_model(*ty));
        }
        let candidates = semantic_functions_for_type(sem, def_map, ty);
        let ghost start = (functions@, ty_models(return_tys@));
        let mut j: usize = 0;
        while j < candidates.len()
            invariant
                j <= candidates@.len(),
                model == def_map.model(),
                name == method_name@,
                (functions@, ty_models(return_tys@)) == semantic_methods_of(
                    *sem,
                    model,
                    body.owner_module,
                    name,
                    nominal_model(*ty),
                    start,
                    candidates@.take(j as int),
                ),
            decreases candidates.len() - j,
        {
            let function = candidates[j];
            proof {
                assert(candidates@.take(j + 1).drop_last() =~= candidates@.take(j as int));
                assert(candidates@.take(j + 1).last() == function);
            }
            match sem.function_data(function) {
                None => {},
                Some(data) => {
                    if data.name == *method_name && data.has_self_receiver() {
                        push_distinct_function(&mut functions, ResolvedFunctionRef::Semantic(function));
                        let t = semantic_method_return_ty(sem, def_map, body, function, ty);
                        push_unique_ty(&mut return_tys, t);
                    }
                },
            }
            j = j + 1;
        }
        proof {
            assert(candidates@.take(candidates@.len() as int) =~= candidates@);
        }
        i = i + 1;
    }
    proof {
        assert(ns.take(ns.len() as int) =~= ns);
    }
    let resolution = if functions.len() == 0 {
        BodyResolution::Unknown
    } else {
        BodyResolution::Method(functions)
    };
    (resolution, take_single_ty(return_tys))
}

/// The module-level types that definitions `defs` declare, without generic arguments; unknown
/// when none is a type.
pub open spec fn nominal_ty_of_defs(sem: SemanticIndex, defs: Seq<DefId>) -> TyModel {
    let types = collect_type_defs(sem, defs);
    if types.len() == 0 {
        TyModel::Unknown
    } else {
        TyModel::Nominal(bare_nominals(types))
    }
}

/// One definition a callee path resolved to: the return type of the function it declares, `()`
/// when none is written.
pub open spec fn call_step(sem: SemanticIndex, model: EnvModel, fallback: ModuleRef, acc: Seq<TyModel>, def: DefId) -> Seq<TyModel> {
    match def {
        DefId::Local(local) => match sem.function_for_local_def_spec(local) {
            None => acc,
            Some(function) => match sem.function_spec(function) {
                None => acc,
                Some(data) => match data.declaration.ret_ty {
                    None => push_distinct(acc, TyModel::Unit),
                    Some(ret) => push_distinct(acc, ty_for_function(sem, model, fallback, ret, function)),
                },
            },
        },
        DefId::Module(_) => acc,
    }
}

/// [`call_step`] over `defs` in order, from `acc`.
pub open spec fn call_fold(sem: SemanticIndex, model: EnvModel, fallback: ModuleRef, acc: Seq<TyModel>, defs: Seq<DefId>) -> Seq<TyModel>
    decreases defs.len(),
{
    if defs.len() == 0 {
        acc
    } else {
        call_step(sem, model, fallback, call_fold(sem, model, fallback, acc, defs.drop_last()), defs.last())
    }
}

/// The type of a call whose callee has resolution `callee_res` and type `callee_ty`: calling a
/// nominal type (a tuple-struct constructor) gives that type; calling functions gives their
/// return type when exactly one distinct one comes out.
pub open spec fn call_result_ty(sem: SemanticIndex, model: EnvModel, fallback: ModuleRef, callee_res: ResolutionView, callee_ty: TyModel) -> TyModel {
    match callee_ty {
        TyModel::Nominal(_) => callee_ty,
        TyModel::SelfTy(_) => callee_ty,
        TyModel::LocalNominal(_) => callee_ty,
        _ => match callee_res {
            ResolutionView::Item(defs) => single_ty(call_fold(sem, model, fallback, Seq::empty(), defs)),
            _ => TyModel::Unknown,
        },
    }
}

/// What a path expression written in `scope` denotes, with `limit` bindings visible: a local
/// binding of that name first, then a body-local item or the impl's self types, else the
/// module-level definitions the path resolves to.
pub open spec fn path_expr(
    sem: SemanticIndex,
    model: EnvModel,
    body: BodyData,
    body_ref: BodyRef,
    scope: ScopeId,
    limit: nat,
    path: PathView,
) -> (ResolutionView, TyModel) {
    let local = match path.single_name() {
        Some(name) => lookup_local_name(body, scope, name, limit),
        None => None,
    };
    match local {
        Some(b) => (ResolutionView::Local(b), ty_model(body.bindings@[b.0 as int].ty)),
        None => match type_path_in_scope(sem, model, body, body_ref, scope, path) {
            TypePathView::BodyLocal(item) => (
                ResolutionView::LocalItem(item),
                TyModel::LocalNominal(seq![LocalNominalModel { item, args: Seq::empty() }]),
            ),
            TypePathView::SelfType(types) => (ResolutionView::Unknown, TyModel::SelfTy(bare_nominals(types))),
            _ => {
                let defs = resolve_path(model, body.owner_module, path.absolute, path.segments, false).resolved;
                (ResolutionView::Item(defs), nominal_ty_of_defs(sem, defs))
            },
        },
    }
}

/// The type of a binding: its annotation read in its scope; for the `self` parameter, the self
/// types of the function's impl; otherwise unknown.
pub open spec fn binding_type(sem: SemanticIndex, model: EnvModel, body: BodyData, body_ref: BodyRef, binding: BindingData) -> TyModel {
    match binding.annotation {
        Some(annotation) => scope_ty(sem, model, body, body_ref, annotation, binding.scope, Seq::empty()),
        None => {
            let is_self = binding.kind == BindingKind::SelfParam && match binding.name {
                Some(name) => name@ == seq!['s', 'e', 'l', 'f'],
                None => false,
            };
            let types = self_tys_of_function(sem, body.owner_module, body.owner);
            if is_self && types.len() > 0 {
                TyModel::SelfTy(bare_nominals(types))
            } else {
                TyModel::Unknown
            }
        },
    }
}

/// The distinct types of the arms of a `match` that have a body, in order.
pub open spec fn arm_tys(arms: Seq<MatchArmData>, tys: Seq<TyModel>) -> Seq<TyModel>
    decreases arms.len(),
{
    if arms.len() == 0 {
        Seq::empty()
    } else {
        let acc = arm_tys(arms.drop_last(), tys);
        match arms.last().expr {
            Some(e) => push_distinct(acc, tys[e.0 as int]),
            None => acc,
        }
    }
}

/// The resolutions of the expressions of `body`, in order.
pub open spec fn expr_resolutions(body: BodyData) -> Seq<ResolutionView> {
    body.exprs@.map_values(|e: ExprData| e.resolution@)
}

/// The types of the expressions of `body`, in order.
pub open spec fn expr_tys(body: BodyData) -> Seq<TyModel> {
    body.exprs@.map_values(|e: ExprData| ty_model(e.ty))
}

/// The expressions that expression `i` reads exist.
pub open spec fn expr_refs_in_range(body: BodyData, i: int) -> bool {
    let n = body.exprs@.len();
    match body.exprs@[i].kind {
        ExprKind::Call { callee: Some(c), .. } => c.0 < n,
        ExprKind::Block { tail: Some(t), .. } => t.0 < n,
        ExprKind::Field { base: Some(b), field: Some(_), .. } => b.0 < n,
        ExprKind::MethodCall { receiver: Some(r), .. } => r.0 < n,
        ExprKind::Match { arms, .. } => forall|k: int|
            0 <= k < arms@.len() ==> match #[trigger] arms@[k].expr {
                Some(e) => e.0 < n,
                None => true,
            },
        _ => true,
    }
}

/// The resolution and type of expression `i` given the current resolutions `ress` and types
/// `tys` of all expressions: paths, field accesses and method calls are resolved anew; calls,
/// blocks and matches keep their resolution and take their type from their parts; literals and
/// unknown expressions keep both.
pub open spec fn expr_result(
    sem: SemanticIndex,
    model: EnvModel,
    body: BodyData,
    body_ref: BodyRef,
    ress: Seq<ResolutionView>,
    tys: Seq<TyModel>,
    i: int,
) -> (ResolutionView, TyModel) {
    let e = body.exprs@[i];
    match e.kind {
        ExprKind::Path { path } => path_expr(sem, model, body, body_ref, e.scope, e.visible_bindings as nat, path@),
        ExprKind::Call { callee, .. } => (
            ress[i],
            match callee {
                Some(c) => call_result_ty(sem, model, body.owner_module, ress[c.0 as int], tys[c.0 as int]),
                None => TyModel::Unknown,
            },
        ),
        ExprKind::Match { arms, .. } => (ress[i], single_ty(arm_tys(arms@, tys))),
        ExprKind::Block { tail, .. } => (
            ress[i],
            match tail {
                Some(t) => tys[t.0 as int],
                None => TyModel::Unit,
            },
        ),
        ExprKind::Field { base, field, .. } => match base {
            Some(b) => match field {
                Some(key) => field_access(sem, model, body, body_ref, tys[b.0 as int], key@),
                None => (ResolutionView::Unknown, TyModel::Unknown),
            },
            None => (ResolutionView::Unknown, TyModel::Unknown),
        },
        ExprKind::MethodCall { receiver, method_name, .. } => match receiver {
            Some(r) => method_call(sem, model, body, body_ref, tys[r.0 as int], method_name@),
            None => (ResolutionView::Unknown, TyModel::Unknown),
        },
        ExprKind::Literal { .. } => (ress[i], tys[i]),
        ExprKind::Unknown { .. } => (ress[i], tys[i]),
    }
}

/// `a` and `b` differ at most in their expressions.
pub open spec fn same_except_exprs(a: BodyData, b: BodyData) -> bool {
    &&& a.owner == b.owner
    &&& a.owner_module == b.owner_module
    &&& a.source == b.source
    &&& a.param_scope == b.param_scope
    &&& a.root_expr == b.root_expr
    &&& a.params == b.params
    &&& a.scopes == b.scopes
    &&& a.local_items == b.local_items
    &&& a.local_impls == b.local_impls
    &&& a.local_functions == b.local_functions
    &&& a.bindings == b.bindings
    &&& a.pats == b.pats
    &&& a.statements == b.statements
}

/// The module-level types that definitions declare, as [`nominal_ty_of_defs`] states.
pub fn nominal_ty_from_defs(sem: &SemanticIndex, defs: &Vec<DefId>) -> (r: BodyTy)
    ensures
        ty_model(r) == nominal_ty_of_defs(*sem, defs@),
{
    let mut types: Vec<TypeDefRef> = Vec::new();
    let mut i: usize = 0;
    while i < defs.len()
        invariant
            i <= defs@.len(),
            types@ == collect_type_defs(*sem, defs@.take(i as int)),
        decreases defs.len() - i,
    {
        proof {
            assert(defs@.take(i + 1).drop_last() =~= defs@.take(i as int));
        }
        if let DefId::Local(local) = defs[i] {
            if let Some(t) = sem.type_def_for_local_def(local) {
                push_distinct_type_def(&mut types, t);
            }
        }
        i = i + 1;
    }
    proof {
        assert(defs@.take(defs@.len() as int) =~= defs@);
    }
    if types.len() == 0 {
        BodyTy::Unknown
    } else {
        BodyTy::Nominal(bare_nominal_tys(&types))
    }
}

/// The function a definition declares, if any.
pub fn function_ref_for_def(sem: &SemanticIndex, def: DefId) -> (r: Option<FunctionRef>)
    ensures
        r == match def {
            DefId::Local(local) => sem.function_for_local_def_spec(local),
            DefId::Module(_) => None,
        },
{
    match def {
        DefId::Local(local) => sem.function_for_local_def(local),
        DefId::Module(_) => None,
    }
}

/// The type of a call, as [`call_result_ty`] states for the callee's current resolution and
/// type.
pub fn call_ty(sem: &SemanticIndex, def_map: &DefMapDb, body: &BodyData, callee: Option<ExprId>) -> (r: BodyTy)
    requires
        match callee {
            Some(c) => c.0 < body.exprs@.len(),
            None => true,
        },
    ensures
        ty_model(r) == match callee {
            Some(c) => call_result_ty(*sem, def_map.model(), body.owner_module, body.exprs@[c.0 as int].resolution@, ty_model(body.exprs@[c.0 as int].ty)),
            None => TyModel::Unknown,
        },
{
    let ghost model = def_map.model();
    let callee = match callee {
        Some(c) => c,
        None => return BodyTy::Unknown,
    };
    let data = &body.exprs[callee.0];
    match &data.ty {
        BodyTy::Nominal(_) => return data.ty.duplicate(),
        BodyTy::SelfTy(_) => return data.ty.duplicate(),
        BodyTy::LocalNominal(_) => return data.ty.duplicate(),
        _ => {},
    }
    let defs = match &data.resolution {
        BodyResolution::Item(defs) => defs,
        _ => return BodyTy::Unknown,
    };
    let mut return_tys: Vec<BodyTy> = Vec::new();
    let mut i: usize = 0;
    while i < defs.len()
        invariant
            i <= defs@.len(),
            model == def_map.model(),
            ty_models(return_tys@) == call_fold(*sem, model, body.owner_module, Seq::empty(), defs@.take(i as int)),
        decreases defs.len() - i,
    {
        proof {
            assert(defs@.take(i + 1).drop_last() =~= defs@.take(i as int));
            assert(defs@.take(i + 1).last() == defs@[i as int]);
        }
        if let Some(function) = function_ref_for_def(sem, defs[i]) {
            if let Some(function_data) = sem.function_data(function) {
                match &function_data.declaration.ret_ty {
                    None => push_unique_ty(&mut return_tys, BodyTy::Unit),
                    Some(ret) => {
                        let t = ty_from_type_ref_for_function(sem, def_map, body, ret, function);
                        push_unique_ty(&mut return_tys, t);
                    },
                }
            }
        }
        i = i + 1;
    }
    proof {
        assert(defs@.take(defs@.len() as int) =~= defs@);
    }
    take_single_ty(return_tys)
}

/// Resolves a path expression, as [`path_expr`] states for the expression's scope and
/// visible bindings.
pub fn resolve_path_expr(
    sem: &SemanticIndex,
    def_map: &DefMapDb,
    body: &BodyData,
    body_ref: BodyRef,
    expr: ExprId,
    path: &Path,
) -> (r: (BodyResolution, BodyTy))
    requires
        expr.0 < body.exprs@.len(),
    ensures
        (r.0@, ty_model(r.1)) == path_expr(
            *sem,
            def_map.model(),
            *body,
            body_ref,
            body.exprs@[expr.0 as int].scope,
            body.exprs@[expr.0 as int].visible_bindings as nat,
            path@,
        ),
{
    let scope = body.exprs[expr.0].scope;
    if let Some(name) = path.single_name() {
        if let Some(binding) = resolve_local_name(body, scope, name, expr) {
            proof {
                lemma_local_name_found(*body, scope, name@, body.exprs@[expr.0 as int].visible_bindings as nat);
            }
            let ty = body.bindings[binding.0].ty.duplicate();
            return (BodyResolution::Local(binding), ty);
        }
    }
    match resolve_in_scope(sem, def_map, body, body_ref, scope, path) {
        BodyTypePathResolution::BodyLocal(item) => {
            return (BodyResolution::LocalItem(item), bare_local_ty(item));
        },
        BodyTypePathResolution::SelfType(types) => {
            return (BodyResolution::Unknown, BodyTy::SelfTy(bare_nominal_tys(&types)));
        },
        _ => {},
    }
    let result = def_map.resolve_path(body.owner_module, path);
    let ty = nominal_ty_from_defs(sem, &result.resolved);
    (BodyResolution::Item(result.resolved), ty)
}

/// The type of a binding, as [`binding_type`] states.
pub fn binding_ty(sem: &SemanticIndex, def_map: &DefMapDb, body: &BodyData, body_ref: BodyRef, binding: BindingId) -> (r: BodyTy)
    requires
        binding.0 < body.bindings@.len(),
    ensures
        ty_model(r) == binding_type(*sem, def_map.model(), *body, body_ref, body.bindings@[binding.0 as int]),
{
    let data = &body.bindings[binding.0];
    if let Some(annotation) = &data.annotation {
        return crate::scoped_types::ty_from_type_ref_in_scope(sem, def_map, body, body_ref, annotation, data.scope);
    }
    let is_self = match data.kind {
        BindingKind::SelfParam => match &data.name {
            Some(name) => {
                let self_name = String::from_str("self");
                proof {
                    reveal_strlit("self");
                    assert("self"@ =~= seq!['s', 'e', 'l', 'f']);
                }
                *name == self_name
            },
            None => false,
        },
        _ => false,
    };
    if is_self {
        let types = self_tys_for_function(sem, body, body.owner);
        if types.len() > 0 {
            return BodyTy::SelfTy(bare_nominal_tys(&types));
        }
    }
    BodyTy::Unknown
}

/// The type of a `match`: the type of its arms when they all have the same one.
fn match_ty(body: &BodyData, arms: &Vec<MatchArmData>) -> (r: BodyTy)
    requires
        forall|k: int|
            0 <= k < arms@.len() ==> match #[trigger] arms@[k].expr {
                Some(e) => e.0 < body.exprs@.len(),
                None => true,
            },
    ensures
        ty_model(r) == single_ty(arm_tys(arms@, expr_tys(*body))),
{
    let mut tys: Vec<BodyTy> = Vec::new();
    let mut i: usize = 0;
    while i < arms.len()
        invariant
            i <= arms@.len(),
            forall|k: int|
                0 <= k < arms@.len() ==> match #[trigger] arms@[k].expr {
                    Some(e) => e.0 < body.exprs@.len(),
                    None => true,
                },
            ty_models(tys@) == arm_tys(arms@.take(i as int), expr_tys(*body)),
        decreases arms.len() - i,
    {
        proof {
            assert(arms@.take(i + 1).drop_last() =~= arms@.take(i as int));
            assert(arms@.take(i + 1).last() == arms@[i as int]);
        }
        if let Some(e) = arms[i].expr {
            proof {
                assert(arms@[i as int].expr == Some(e));
            }
            let t = body.exprs[e.0].ty.duplicate();
            push_unique_ty(&mut tys, t);
        }
        i = i + 1;
    }
    proof {
        assert(arms@.take(arms@.len() as int) =~= arms@);
    }
    take_single_ty(tys)
}

/// Resolves a field access whose base is expression `base`, as [`field_access`] states for the
/// base's current type; without a base or a field name nothing is known.
pub fn resolve_field_expr(
    sem: &SemanticIndex,
    def_map: &DefMapDb,
    body: &BodyData,
    body_ref: BodyRef,
    base: Option<ExprId>,
    field: Option<&FieldKey>,
) -> (r: (BodyResolution, BodyTy))
    requires
        match (base, field) {
            (Some(b), Some(_)) => b.0 < body.exprs@.len(),
            _ => true,
        },
    ensures
        (r.0@, ty_model(r.1)) == match (base, field) {
            (Some(b), Some(key)) => field_access(*sem, def_map.model(), *body, body_ref, ty_model(body.exprs@[b.0 as int].ty), key@),
            _ => (ResolutionView::Unknown, TyModel::Unknown),
        },
{
    match base {
        Some(b) => match field {
            Some(key) => resolve_field_access(sem, def_map, body, body_ref, &body.exprs[b.0].ty, key),
            None => (BodyResolution::Unknown, BodyTy::Unknown),
        },
        None => (BodyResolution::Unknown, BodyTy::Unknown),
    }
}

/// Resolves a method call on expression `receiver`, as [`method_call`] states for the
/// receiver's current type; without a receiver nothing is known.
pub fn resolve_method_call_expr(
    sem: &SemanticIndex,
    def_map: &DefMapDb,
    body: &BodyData,
    body_ref: BodyRef,
    receiver: Option<ExprId>,
    method_name: &String,
) -> (r: (BodyResolution, BodyTy))
    requires
        match receiver {
            Some(rcv) => rcv.0 < body.exprs@.len(),
            None => true,
        },
    ensures
        (r.0@, ty_model(r.1)) == match receiver {
            Some(rcv) => method_call(*sem, def_map.model(), *body, body_ref, ty_model(body.exprs@[rcv.0 as int].ty), method_name@),
            None => (ResolutionView::Unknown, TyModel::Unknown),
        },
{
    match receiver {
        Some(rcv) => resolve_method_call(sem, def_map, body, body_ref, &body.exprs[rcv.0].ty, method_name),
        None => (BodyResolution::Unknown, BodyTy::Unknown),
    }
}

/// The functions of this body's inherent impls for a local item, as [`local_functions_of`]
/// states.
pub fn local_functions_for_type(body: &BodyData, body_ref: BodyRef, item: BodyItemRef) -> (r: Vec<BodyFunctionRef>)
    ensures
        r@ == local_functions_of(*body, body_ref, item),
{
    body.inherent_functions_for_local_type(body_ref, item)
}

/// What resolving expression `expr` produces: a new resolution and a new type, `None` where
/// the expression keeps its current one.
fn expr_outcome(sem: &SemanticIndex, def_map: &DefMapDb, body: &BodyData, body_ref: BodyRef, expr: ExprId) -> (r: (
    Option<BodyResolution>,
    Option<BodyTy>,
))
    requires
        expr.0 < body.exprs@.len(),
        expr_refs_in_range(*body, expr.0 as int),
    ensures
        (
            match r.0 {
                Some(res) => res@,
                None => body.exprs@[expr.0 as int].resolution@,
            },
            match r.1 {
                Some(t) => ty_model(t),
                None => ty_model(body.exprs@[expr.0 as int].ty),
            },
        ) == expr_result(*sem, def_map.model(), *body, body_ref, expr_resolutions(*body), expr_tys(*body), expr.0 as int),
{
    let data = &body.exprs[expr.0];
    match &data.kind {
        ExprKind::Path { path } => {
            let (res, ty) = resolve_path_expr(sem, def_map, body, body_ref, expr, path);
            (Some(res), Some(ty))
        },
        ExprKind::Call { callee, .. } => (None, Some(call_ty(sem, def_map, body, *callee))),
        ExprKind::Match { arms, .. } => (None, Some(match_ty(body, arms))),
        ExprKind::Block { tail, .. } => {
            let ty = match tail {
                Some(t) => body.exprs[t.0].ty.duplicate(),
                None => BodyTy::Unit,
            };
            (None, Some(ty))
        },
        ExprKind::Field { base, field, .. } => {
            let key = match field {
                Some(key) => Some(key),
                None => None,
            };
            let (res, ty) = resolve_field_expr(sem, def_map, body, body_ref, *base, key);
            (Some(res), Some(ty))
        },
        ExprKind::MethodCall { receiver, method_name, .. } => {
            let (res, ty) = resolve_method_call_expr(sem, def_map, body, body_ref, *receiver, method_name);
            (Some(res), Some(ty))
        },
        ExprKind::Literal { .. } => (None, None),
        ExprKind::Unknown { .. } => (None, None),
    }
}

/// Resolves expression `expr` in place, as [`expr_result`] states for the current resolutions
/// and types of the body's expressions; nothing else of the body changes. Says whether the
/// expression's resolution or type changed.
pub fn resolve_expr(sem: &SemanticIndex, def_map: &DefMapDb, body: &mut BodyData, body_ref: BodyRef, expr: ExprId) -> (r: bool)
    requires
        expr.0 < old(body).exprs@.len(),
        expr_refs_in_range(*old(body), expr.0 as int),
    ensures
        same_except_exprs(*final(body), *old(body)),
        final(body).exprs@.len() == old(body).exprs@.len(),
        forall|j: int|
            0 <= j < old(body).exprs@.len() && j != expr.0 ==> #[trigger] final(body).exprs@[j] == old(body).exprs@[j],
        final(body).exprs@[expr.0 as int] == (ExprData {
            resolution: final(body).exprs@[expr.0 as int].resolution,
            ty: final(body).exprs@[expr.0 as int].ty,
            ..old(body).exprs@[expr.0 as int]
        }),
        (final(body).exprs@[expr.0 as int].resolution@, ty_model(final(body).exprs@[expr.0 as int].ty)) == expr_result(
            *sem,
            def_map.model(),
            *old(body),
            body_ref,
            expr_resolutions(*old(body)),
            expr_tys(*old(body)),
            expr.0 as int,
        ),
        r == (final(body).exprs@[expr.0 as int].resolution@ != old(body).exprs@[expr.0 as int].resolution@ || ty_model(
            final(body).exprs@[expr.0 as int].ty,
        ) != ty_model(old(body).exprs@[expr.0 as int].ty)),
{
    let outcome = expr_outcome(sem, def_map, body, body_ref, expr);
    let (res, ty) = outcome;
    let mut changed = false;
    match res {
        Some(r) => {
            if !r.same_as(&body.exprs[expr.0].resolution) {
                changed = true;
            }
            body.exprs[expr.0].resolution = r;
        },
        None => {},
    }
    match ty {
        Some(t) => {
            if !t.same_as(&body.exprs[expr.0].ty) {
                changed = true;
            }
            body.exprs[expr.0].ty = t;
        },
        None => {},
    }
    changed
}

proof fn lemma_lookup_local_name_frame(b1: BodyData, b2: BodyData, scope: ScopeId, name: Seq<char>, limit: nat)
    requires
        b1.scopes == b2.scopes,
        b1.bindings == b2.bindings,
    ensures
        lookup_local_name(b1, scope, name, limit) == lookup_local_name(b2, scope, name, limit),
    decreases scope.0,
{
    match entry_at(b1.scopes@, scope.0) {
        None => {},
        Some(data) => match data.parent {
            Some(parent) => if parent.0 < scope.0 {
                lemma_lookup_local_name_frame(b1, b2, parent, name, limit);
            },
            None => {},
        },
    }
}

proof fn lemma_lookup_local_type_item_frame(b1: BodyData, b2: BodyData, scope: ScopeId, name: Seq<char>)
    requires
        b1.scopes == b2.scopes,
        b1.local_items == b2.local_items,
    ensures
        lookup_local_type_item(b1, scope, name) == lookup_local_type_item(b2, scope, name),
    decreases scope.0,
{
    match entry_at(b1.scopes@, scope.0) {
        None => {},
        Some(data) => match data.parent {
            Some(parent) => if parent.0 < scope.0 {
                lemma_lookup_local_type_item_frame(b1, b2, parent, name);
            },
            None => {},
        },
    }
}

/// Lookups by name read only a body's scopes, bindings and local items.
proof fn lemma_lookups_frame(b1: BodyData, b2: BodyData)
    requires
        same_except_exprs(b1, b2),
    ensures
        forall|scope: ScopeId, name: Seq<char>, limit: nat|
            #[trigger] lookup_local_name(b1, scope, name, limit) == lookup_local_name(b2, scope, name, limit),
        forall|scope: ScopeId, name: Seq<char>|
            #[trigger] lookup_local_type_item(b1, scope, name) == lookup_local_type_item(b2, scope, name),
{
    assert forall|scope: ScopeId, name: Seq<char>, limit: nat|
        #[trigger] lookup_local_name(b1, scope, name, limit) == lookup_local_name(b2, scope, name, limit) by {
        lemma_lookup_local_name_frame(b1, b2, scope, name, limit);
    }
    assert forall|scope: ScopeId, name: Seq<char>|
        #[trigger] lookup_local_type_item(b1, scope, name) == lookup_local_type_item(b2, scope, name) by {
        lemma_lookup_local_type_item_frame(b1, b2, scope, name);
    }
}

proof fn lemma_local_fields_frame(
    sem: SemanticIndex,
    model: EnvModel,
    b1: BodyData,
    b2: BodyData,
    body_ref: BodyRef,
    key: FieldKeyView,
    acc: (Seq<ResolvedFieldRef>, Seq<TyModel>),
    items: Seq<BodyItemRef>,
)
    requires
        same_except_exprs(b1, b2),
    ensures
        local_fields_fold(sem, model, b1, body_ref, key, acc, items) == local_fields_fold(sem, model, b2, body_ref, key, acc, items),
    decreases items.len(),
{
    lemma_lookups_frame(b1, b2);
    if items.len() > 0 {
        lemma_local_fields_frame(sem, model, b1, b2, body_ref, key, acc, items.drop_last());
    }
}

proof fn lemma_local_methods_of_frame(
    sem: SemanticIndex,
    model: EnvModel,
    b1: BodyData,
    b2: BodyData,
    body_ref: BodyRef,
    name: Seq<char>,
    acc: (Seq<ResolvedFunctionRef>, Seq<TyModel>),
    functions: Seq<BodyFunctionRef>,
)
    requires
        same_except_exprs(b1, b2),
    ensures
        local_methods_of(sem, model, b1, body_ref, name, acc, functions) == local_methods_of(sem, model, b2, body_ref, name, acc, functions),
    decreases functions.len(),
{
    lemma_lookups_frame(b1, b2);
    if functions.len() > 0 {
        lemma_local_methods_of_frame(sem, model, b1, b2, body_ref, name, acc, functions.drop_last());
    }
}

proof fn lemma_local_methods_frame(
    sem: SemanticIndex,
    model: EnvModel,
    b1: BodyData,
    b2: BodyData,
    body_ref: BodyRef,
    name: Seq<char>,
    acc: (Seq<ResolvedFunctionRef>, Seq<TyModel>),
    items: Seq<BodyItemRef>,
)
    requires
        same_except_exprs(b1, b2),
    ensures
        local_methods_fold(sem, model, b1, body_ref, name, acc, items) == local_methods_fold(sem, model, b2, body_ref, name, acc, items),
    decreases items.len(),
{
    if items.len() > 0 {
        lemma_local_methods_frame(sem, model, b1, b2, body_ref, name, acc, items.drop_last());
        let mid = local_methods_fold(sem, model, b1, body_ref, name, acc, items.drop_last());
        lemma_local_methods_of_frame(sem, model, b1, b2, body_ref, name, mid, local_functions_of(b1, body_ref, items.last()));
    }
}

/// The result of resolving one expression reads, of the body, only what resolving the other
/// expressions leaves alone.
proof fn lemma_expr_result_frame(
    sem: SemanticIndex,
    model: EnvModel,
    b1: BodyData,
    b2: BodyData,
    body_ref: BodyRef,
    ress: Seq<ResolutionView>,
    tys: Seq<TyModel>,
    i: int,
)
    requires
        same_except_exprs(b1, b2),
        0 <= i < b1.exprs@.len(),
        0 <= i < b2.exprs@.len(),
        b1.exprs@[i].kind == b2.exprs@[i].kind,
        b1.exprs@[i].scope == b2.exprs@[i].scope,
        b1.exprs@[i].visible_bindings == b2.exprs@[i].visible_bindings,
    ensures
        expr_result(sem, model, b1, body_ref, ress, tys, i) == expr_result(sem, model, b2, body_ref, ress, tys, i),
{
    lemma_lookups_frame(b1, b2);
    match b1.exprs@[i].kind {
        ExprKind::Field { base, field, .. } => match base {
            Some(b) => match field {
                Some(key) => {
                    let empty = (Seq::<ResolvedFieldRef>::empty(), Seq::<TyModel>::empty());
                    lemma_local_fields_frame(sem, model, b1, b2, body_ref, key@, empty, model_local_items(tys[b.0 as int]));
                },
                None => {},
            },
            None => {},
        },
        ExprKind::MethodCall { receiver, method_name, .. } => match receiver {
            Some(r) => {
                let empty = (Seq::<ResolvedFunctionRef>::empty(), Seq::<TyModel>::empty());
                lemma_local_methods_frame(sem, model, b1, b2, body_ref, method_name@, empty, model_local_items(tys[r.0 as int]));
            },
            None => {},
        },
        _ => {},
    }
}

/// `current` before position `i` and `initial` from `i` on: what the expressions look like when
/// a pass in order reaches expression `i`.
pub open spec fn resolved_before<T>(current: Seq<T>, initial: Seq<T>, i: int) -> Seq<T> {
    Seq::new(current.len(), |j: int| if j < i { current[j] } else { initial[j] })
}

/// Sets the type of every binding, as [`binding_type`] states; nothing else of the body changes.
pub fn resolve_bindings(sem: &SemanticIndex, def_map: &DefMapDb, body: &mut BodyData, body_ref: BodyRef)
    ensures
        final(body).exprs == old(body).exprs,
        final(body).owner == old(body).owner,
        final(body).owner_module == old(body).owner_module,
        final(body).source == old(body).source,
        final(body).param_scope == old(body).param_scope,
        final(body).root_expr == old(body).root_expr,
        final(body).params == old(body).params,
        final(body).scopes == old(body).scopes,
        final(body).local_items == old(body).local_items,
        final(body).local_impls == old(body).local_impls,
        final(body).local_functions == old(body).local_functions,
        final(body).pats == old(body).pats,
        final(body).statements == old(body).statements,
        final(body).bindings@.len() == old(body).bindings@.len(),
        forall|i: int|
            0 <= i < old(body).bindings@.len() ==> #[trigger] final(body).bindings@[i] == (BindingData {
                ty: final(body).bindings@[i].ty,
                ..old(body).bindings@[i]
            }) && ty_model(final(body).bindings@[i].ty) == binding_type(
                *sem,
                def_map.model(),
                *old(body),
                body_ref,
                old(body).bindings@[i],
            ),
{
    let ghost b0 = *body;
    let ghost model = def_map.model();
    let n = body.bindings.len();
    let mut tys: Vec<BodyTy> = Vec::new();
    let mut i: usize = 0;
    while i < n
        invariant
            *body == b0,
            n == b0.bindings@.len(),
            i <= n,
            model == def_map.model(),
            tys@.len() == i,
            forall|j: int| 0 <= j < i ==> ty_model(#[trigger] tys@[j]) == binding_type(*sem, model, b0, body_ref, b0.bindings@[j]),
        decreases n - i,
    {
        let t = binding_ty(sem, def_map, body, body_ref, BindingId(i));
        tys.push(t);
        i = i + 1;
    }
    let ghost computed = tys@;
    let mut i: usize = n;
    while i > 0
        invariant
            i <= n,
            n == b0.bindings@.len(),
            model == def_map.model(),
            tys@ == computed.take(i as int),
            computed.len() == n,
            forall|j: int| 0 <= j < n ==> ty_model(#[trigger] computed[j]) == binding_type(*sem, model, b0, body_ref, b0.bindings@[j]),
            body.bindings@.len() == n,
            body.exprs == b0.exprs,
            body.owner == b0.owner,
            body.owner_module == b0.owner_module,
            body.source == b0.source,
            body.param_scope == b0.param_scope,
            body.root_expr == b0.root_expr,
            body.params == b0.params,
            body.scopes == b0.scopes,
            body.local_items == b0.local_items,
            body.local_impls == b0.local_impls,
            body.local_functions == b0.local_functions,
            body.pats == b0.pats,
            body.statements == b0.statements,
            forall|j: int| 0 <= j < i ==> #[trigger] body.bindings@[j] == b0.bindings@[j],
            forall|j: int|
                i <= j < n ==> #[trigger] body.bindings@[j] == (BindingData { ty: computed[j], ..b0.bindings@[j] }),
        decreases i,
    {
        i = i - 1;
        let ghost before = tys@;
        let t = match tys.pop() {
            Some(t) => t,
            None => BodyTy::Unknown,
        };
        proof {
            assert(before == computed.take(i + 1));
            assert(t == computed[i as int]);
            assert(tys@ =~= computed.take(i as int));
        }
        body.bindings[i].ty = t;
    }
}

/// `new` differs from `old` at most in the types of bindings, the local items that local impls
/// are for, and the resolutions and types of expressions.
pub open spec fn resolution_frame(old: BodyData, new: BodyData) -> bool {
    &&& new.owner == old.owner
    &&& new.owner_module == old.owner_module
    &&& new.source == old.source
    &&& new.param_scope == old.param_scope
    &&& new.root_expr == old.root_expr
    &&& new.params == old.params
    &&& new.scopes == old.scopes
    &&& new.local_items == old.local_items
    &&& new.local_functions == old.local_functions
    &&& new.pats == old.pats
    &&& new.statements == old.statements
    &&& new.bindings@.len() == old.bindings@.len()
    &&& forall|i: int|
        0 <= i < old.bindings@.len() ==> #[trigger] new.bindings@[i] == (BindingData { ty: new.bindings@[i].ty, ..old.bindings@[i] })
    &&& new.local_impls@.len() == old.local_impls@.len()
    &&& forall|i: int|
        0 <= i < old.local_impls@.len() ==> #[trigger] new.local_impls@[i] == (BodyImplData {
            self_item: new.local_impls@[i].self_item,
            ..old.local_impls@[i]
        })
    &&& new.exprs@.len() == old.exprs@.len()
    &&& forall|i: int|
        0 <= i < old.exprs@.len() ==> #[trigger] new.exprs@[i] == (ExprData {
            resolution: new.exprs@[i].resolution,
            ty: new.exprs@[i].ty,
            ..old.exprs@[i]
        })
}

proof fn lemma_resolution_frame_trans(a: BodyData, b: BodyData, c: BodyData)
    requires
        resolution_frame(a, b),
        resolution_frame(b, c),
    ensures
        resolution_frame(a, c),
{
    assert forall|i: int| 0 <= i < a.bindings@.len() implies #[trigger] c.bindings@[i] == (BindingData {
        ty: c.bindings@[i].ty,
        ..a.bindings@[i]
    }) by {
        assert(b.bindings@[i] == (BindingData { ty: b.bindings@[i].ty, ..a.bindings@[i] }));
        assert(c.bindings@[i] == (BindingData { ty: c.bindings@[i].ty, ..b.bindings@[i] }));
    }
    assert forall|i: int| 0 <= i < a.local_impls@.len() implies #[trigger] c.local_impls@[i] == (BodyImplData {
        self_item: c.local_impls@[i].self_item,
        ..a.local_impls@[i]
    }) by {
        assert(b.local_impls@[i] == (BodyImplData { self_item: b.local_impls@[i].self_item, ..a.local_impls@[i] }));
        assert(c.local_impls@[i] == (BodyImplData { self_item: c.local_impls@[i].self_item, ..b.local_impls@[i] }));
    }
    assert forall|i: int| 0 <= i < a.exprs@.len() implies #[trigger] c.exprs@[i] == (ExprData {
        resolution: c.exprs@[i].resolution,
        ty: c.exprs@[i].ty,
        ..a.exprs@[i]
    }) by {
        assert(b.exprs@[i] == (ExprData { resolution: b.exprs@[i].resolution, ty: b.exprs@[i].ty, ..a.exprs@[i] }));
        assert(c.exprs@[i] == (ExprData { resolution: c.exprs@[i].resolution, ty: c.exprs@[i].ty, ..b.exprs@[i] }));
    }
}

/// `new` is `old` prepared for the rounds: each binding has the type [`binding_type`] gives it,
/// each local impl is linked to the local item its self type names, and nothing else changes.
pub open spec fn prepared_body(sem: SemanticIndex, model: EnvModel, old: BodyData, new: BodyData, body_ref: BodyRef) -> bool {
    &&& resolution_frame(old, new)
    &&& new.exprs == old.exprs
    &&& forall|i: int|
        0 <= i < old.bindings@.len() ==> ty_model(#[trigger] new.bindings@[i].ty) == binding_type(sem, model, old, body_ref, old.bindings@[i])
    &&& forall|i: int|
        0 <= i < old.local_impls@.len() ==> (#[trigger] new.local_impls@[i]).self_item == local_item_for_type(
            old,
            body_ref,
            old.local_impls@[i].scope,
            old.local_impls@[i].self_ty,
        )
}

/// `new` is `old` with every expression resolved once, in order: each has the resolution and
/// type [`expr_result`] gives it from what the earlier expressions were given in this round and
/// the later ones still had; nothing else changes.
pub open spec fn exprs_resolved(sem: SemanticIndex, model: EnvModel, old: BodyData, new: BodyData, body_ref: BodyRef) -> bool {
    &&& same_except_exprs(new, old)
    &&& new.exprs@.len() == old.exprs@.len()
    &&& forall|i: int|
        0 <= i < old.exprs@.len() ==> #[trigger] new.exprs@[i] == (ExprData {
            resolution: new.exprs@[i].resolution,
            ty: new.exprs@[i].ty,
            ..old.exprs@[i]
        })
    &&& forall|i: int|
        0 <= i < old.exprs@.len() ==> (#[trigger] expr_resolutions(new)[i], expr_tys(new)[i]) == expr_result(
            sem,
            model,
            new,
            body_ref,
            resolved_before(expr_resolutions(new), expr_resolutions(old), i),
            resolved_before(expr_tys(new), expr_tys(old), i),
            i,
        )
}

/// Some expression's resolution or type differs between `old` and `new`.
pub open spec fn exprs_changed(old: BodyData, new: BodyData) -> bool {
    expr_resolutions(new) != expr_resolutions(old) || expr_tys(new) != expr_tys(old)
}

/// `new` is `old` with the expected types of patterns pushed into their bindings, as
/// [`propagate`] does.
pub open spec fn patterns_propagated(sem: SemanticIndex, model: EnvModel, old: BodyData, new: BodyData, body_ref: BodyRef) -> bool {
    &&& same_except_binding_tys(new, old)
    &&& binding_tys(new) == propagate_work(sem, model, old.pats@, binding_tys(old), propagation_work(sem, model, old, body_ref)).0
}

/// Propagating pattern types into `body` gives some binding a type.
pub open spec fn patterns_changed(sem: SemanticIndex, model: EnvModel, body: BodyData, body_ref: BodyRef) -> bool {
    propagate_work(sem, model, body.pats@, binding_tys(body), propagation_work(sem, model, body, body_ref)).1
}

/// The most rounds resolution runs on `body`: each round that changes something settles at
/// least one expression or binding.
pub open spec fn max_rounds(body: BodyData) -> int {
    (body.exprs@.len() + body.bindings@.len() + 1) as int
}

/// The body a round starts from: the prepared body, then what each round ends with.
pub open spec fn round_start(prep: BodyData, ends: Seq<BodyData>, j: int) -> BodyData {
    if j == 0 {
        prep
    } else {
        ends[j - 1]
    }
}

/// Round `j` resolved every expression of its start into `mids[j]` and then propagated pattern
/// types into `ends[j]`.
pub open spec fn round_ran(sem: SemanticIndex, model: EnvModel, prep: BodyData, mids: Seq<BodyData>, ends: Seq<BodyData>, body_ref: BodyRef, j: int) -> bool {
    &&& exprs_resolved(sem, model, round_start(prep, ends, j), mids[j], body_ref)
    &&& patterns_propagated(sem, model, mids[j], ends[j], body_ref)
}

/// Round `j` changed some expression or binding.
pub open spec fn round_changed(sem: SemanticIndex, model: EnvModel, prep: BodyData, mids: Seq<BodyData>, ends: Seq<BodyData>, body_ref: BodyRef, j: int) -> bool {
    exprs_changed(round_start(prep, ends, j), mids[j]) || patterns_changed(sem, model, mids[j], body_ref)
}

/// The rounds recorded in `mids` and `ends` ran one after the other from `prep`, and each but
/// the last changed something.
pub open spec fn resolution_rounds(sem: SemanticIndex, model: EnvModel, prep: BodyData, mids: Seq<BodyData>, ends: Seq<BodyData>, body_ref: BodyRef) -> bool {
    &&& mids.len() == ends.len()
    &&& forall|j: int| 0 <= j < ends.len() ==> #[trigger] round_ran(sem, model, prep, mids, ends, body_ref, j)
    &&& forall|j: int| 0 <= j < ends.len() - 1 ==> #[trigger] round_changed(sem, model, prep, mids, ends, body_ref, j)
}

/// `new` is `old` resolved: it is prepared (binding types, local impl links), then resolved in
/// rounds, each resolving every expression in order and then propagating pattern types into
/// bindings, until a round changes nothing or [`max_rounds`] rounds have run. Only the types of
/// bindings, the links of local impls and the resolutions and types of expressions change.
pub open spec fn resolved_body(sem: SemanticIndex, model: EnvModel, old: BodyData, new: BodyData, body_ref: BodyRef) -> bool {
    &&& resolution_frame(old, new)
    &&& exists|prep: BodyData, mids: Seq<BodyData>, ends: Seq<BodyData>|
        #![trigger prepared_body(sem, model, old, prep, body_ref), resolution_rounds(sem, model, prep, mids, ends, body_ref)]
        prepared_body(sem, model, old, prep, body_ref) && resolution_rounds(sem, model, prep, mids, ends, body_ref) && 1
            <= ends.len() <= max_rounds(old) && new == ends.last() && (ends.len() == max_rounds(old) || !round_changed(
            sem,
            model,
            prep,
            mids,
            ends,
            body_ref,
            ends.len() - 1,
        ))
}

/// What resolution reads of a body exists: the expressions that each expression reads, the
/// initializers and scrutinees that patterns take their types from, and the subpatterns of
/// each pattern, which come before it; and the round bound fits in `usize`.
pub open spec fn body_refs_in_range(body: BodyData) -> bool {
    &&& forall|i: int| 0 <= i < body.exprs@.len() ==> #[trigger] expr_refs_in_range(body, i)
    &&& pats_ordered(body.pats@)
    &&& propagation_refs_in_range(body)
    &&& body.exprs@.len() + body.bindings@.len() + 1 <= usize::MAX
}

proof fn lemma_refs_in_range_frame(a: BodyData, b: BodyData)
    requires
        body_refs_in_range(a),
        resolution_frame(a, b),
    ensures
        body_refs_in_range(b),
{
    assert forall|i: int| 0 <= i < b.exprs@.len() implies #[trigger] expr_refs_in_range(b, i) by {
        assert(expr_refs_in_range(a, i));
        assert(b.exprs@[i].kind == a.exprs@[i].kind);
    }
    assert forall|i: int| 0 <= i < b.exprs@.len() implies match (#[trigger] b.exprs@[i]).kind {
        ExprKind::Match { scrutinee: Some(s), .. } => s.0 < b.exprs@.len(),
        _ => true,
    } by {
        assert(b.exprs@[i].kind == a.exprs@[i].kind);
        assert(match (a.exprs@[i]).kind {
            ExprKind::Match { scrutinee: Some(s), .. } => s.0 < a.exprs@.len(),
            _ => true,
        });
    }
}

/// Expression `j` has another resolution or type in `a` than in `b`.
pub open spec fn expr_differs(a: BodyData, b: BodyData, j: int) -> bool {
    a.exprs@[j].resolution@ != b.exprs@[j].resolution@ || ty_model(a.exprs@[j].ty) != ty_model(b.exprs@[j].ty)
}

/// Resolves every expression of `body` once, in order, as [`exprs_resolved`] states; says
/// whether any expression's resolution or type changed.
pub fn resolve_exprs(sem: &SemanticIndex, def_map: &DefMapDb, body: &mut BodyData, body_ref: BodyRef) -> (r: bool)
    requires
        forall|j: int| 0 <= j < old(body).exprs@.len() ==> #[trigger] expr_refs_in_range(*old(body), j),
    ensures
        exprs_resolved(*sem, def_map.model(), *old(body), *final(body), body_ref),
        r == exprs_changed(*old(body), *final(body)),
{
    let ghost b1 = *body;
    let ghost model = def_map.model();
    let ghost init_res = expr_resolutions(b1);
    let ghost init_tys = expr_tys(b1);
    let n = body.exprs.len();
    let mut changed = false;
    let mut i: usize = 0;
    while i < n
        invariant
            i <= n,
            n == b1.exprs@.len(),
            model == def_map.model(),
            forall|j: int| 0 <= j < n ==> #[trigger] expr_refs_in_range(b1, j),
            init_res == expr_resolutions(b1),
            init_tys == expr_tys(b1),
            same_except_exprs(*body, b1),
            body.exprs@.len() == n,
            forall|j: int|
                0 <= j < n ==> #[trigger] body.exprs@[j] == (ExprData {
                    resolution: body.exprs@[j].resolution,
                    ty: body.exprs@[j].ty,
                    ..b1.exprs@[j]
                }),
            forall|j: int| i <= j < n ==> #[trigger] body.exprs@[j] == b1.exprs@[j],
            forall|j: int|
                0 <= j < i ==> (#[trigger] expr_resolutions(*body)[j], expr_tys(*body)[j]) == expr_result(
                    *sem,
                    model,
                    *body,
                    body_ref,
                    resolved_before(expr_resolutions(*body), init_res, j),
                    resolved_before(expr_tys(*body), init_tys, j),
                    j,
                ),
            changed == exists|j: int| 0 <= j < i && #[trigger] expr_differs(*body, b1, j),
        decreases n - i,
    {
        let ghost bi = *body;
        proof {
            assert(expr_refs_in_range(b1, i as int));
            assert(bi.exprs@[i as int] == b1.exprs@[i as int]);
        }
        let c = resolve_expr(sem, def_map, body, body_ref, ExprId(i));
        proof {
            let bn = *body;
            assert(expr_resolutions(bi) =~= resolved_before(expr_resolutions(bn), init_res, i as int));
            assert(expr_tys(bi) =~= resolved_before(expr_tys(bn), init_tys, i as int));
            lemma_expr_result_frame(
                *sem,
                model,
                bi,
                bn,
                body_ref,
                expr_resolutions(bi),
                expr_tys(bi),
                i as int,
            );
            assert forall|j: int| 0 <= j < i + 1 implies (#[trigger] expr_resolutions(bn)[j], expr_tys(bn)[j]) == expr_result(
                *sem,
                model,
                bn,
                body_ref,
                resolved_before(expr_resolutions(bn), init_res, j),
                resolved_before(expr_tys(bn), init_tys, j),
                j,
            ) by {
                if j < i {
                    assert(resolved_before(expr_resolutions(bn), init_res, j) =~= resolved_before(expr_resolutions(bi), init_res, j));
                    assert(resolved_before(expr_tys(bn), init_tys, j) =~= resolved_before(expr_tys(bi), init_tys, j));
                    assert(expr_resolutions(bi)[j] == expr_resolutions(bn)[j]);
                    assert(expr_tys(bi)[j] == expr_tys(bn)[j]);
                    lemma_expr_result_frame(
                        *sem,
                        model,
                        bi,
                        bn,
                        body_ref,
                        resolved_before(expr_resolutions(bi), init_res, j),
                        resolved_before(expr_tys(bi), init_tys, j),
                        j,
                    );
                }
            }
            assert(init_res[i as int] == bi.exprs@[i as int].resolution@);
            assert(init_tys[i as int] == ty_model(bi.exprs@[i as int].ty));
            assert(expr_resolutions(bn)[i as int] == bn.exprs@[i as int].resolution@);
            assert(expr_tys(bn)[i as int] == ty_model(bn.exprs@[i as int].ty));
            assert forall|j: int| 0 <= j < i implies #[trigger] expr_resolutions(bn)[j] == expr_resolutions(bi)[j] && expr_tys(bn)[j]
                == expr_tys(bi)[j] by {}
            assert(bi.exprs@[i as int] == b1.exprs@[i as int]);
            if c {
                assert(expr_differs(bn, b1, i as int));
            }
            if changed {
                let w = choose|j: int| 0 <= j < i && #[trigger] expr_differs(bi, b1, j);
                assert(bn.exprs@[w] == bi.exprs@[w]);
                assert(expr_differs(bn, b1, w));
            }
            if !changed && !c {
                assert forall|j: int| 0 <= j < i + 1 implies !#[trigger] expr_differs(bn, b1, j) by {
                    if j < i {
                        assert(bn.exprs@[j] == bi.exprs@[j]);
                        assert(!expr_differs(bi, b1, j));
                    }
                }
            }
        }
        changed = changed || c;
        i = i + 1;
    }
    proof {
        let bn = *body;
        if changed {
            let w = choose|j: int| 0 <= j < n && #[trigger] expr_differs(bn, b1, j);
            assert(expr_resolutions(bn)[w] == bn.exprs@[w].resolution@);
            assert(expr_tys(bn)[w] == ty_model(bn.exprs@[w].ty));
            assert(init_res[w] == b1.exprs@[w].resolution@);
            assert(init_tys[w] == ty_model(b1.exprs@[w].ty));
        } else {
            assert forall|j: int| 0 <= j < n implies #[trigger] expr_resolutions(bn)[j] == init_res[j] by {
                assert(!expr_differs(bn, b1, j));
            }
            assert forall|j: int| 0 <= j < n implies #[trigger] expr_tys(bn)[j] == init_tys[j] by {
                assert(!expr_differs(bn, b1, j));
            }
            assert(expr_tys(bn).len() == init_tys.len());
            assert(expr_resolutions(bn) =~= init_res);
            assert(expr_tys(bn) =~= init_tys);
        }
    }
    changed
}

/// Resolves a whole body, as [`resolved_body`] states: binding types and local impl links
/// first, then rounds of expression resolution and pattern-type propagation until a round
/// changes nothing, at most [`max_rounds`] of them. Pattern types can give later expressions
/// their types, and those expressions can in turn give types to more patterns.
pub fn resolve_body(sem: &SemanticIndex, def_map: &DefMapDb, body: &mut BodyData, body_ref: BodyRef)
    requires
        body_refs_in_range(*old(body)),
    ensures
        resolved_body(*sem, def_map.model(), *old(body), *final(body), body_ref),
{
    let ghost b0 = *body;
    let ghost model = def_map.model();
    resolve_bindings(sem, def_map, body, body_ref);
    let ghost b_bound = *body;
    resolve_local_impls(body, body_ref);
    let ghost prep = *body;
    proof {
        assert forall|i: int| 0 <= i < b0.local_impls@.len() implies #[trigger] local_item_for_type(
            b_bound,
            body_ref,
            b0.local_impls@[i].scope,
            b0.local_impls@[i].self_ty,
        ) == local_item_for_type(b0, body_ref, b0.local_impls@[i].scope, b0.local_impls@[i].self_ty) by {
            let ty = b0.local_impls@[i].self_ty;
            if let TypeRef::Path(path) = ty {
                if let Some(name) = type_path_prefix(path, path.segments@.len() as int).single_name() {
                    lemma_lookup_local_type_item_frame(b_bound, b0, b0.local_impls@[i].scope, name);
                }
            }
        }
        assert forall|i: int| 0 <= i < b0.local_impls@.len() implies (#[trigger] prep.local_impls@[i]).self_item == local_item_for_type(
            b0,
            body_ref,
            b0.local_impls@[i].scope,
            b0.local_impls@[i].self_ty,
        ) by {
            assert(b_bound.local_impls@[i] == b0.local_impls@[i]);
        }
        assert forall|i: int| 0 <= i < b0.exprs@.len() implies #[trigger] prep.exprs@[i] == (ExprData {
            resolution: prep.exprs@[i].resolution,
            ty: prep.exprs@[i].ty,
            ..b0.exprs@[i]
        }) by {}
        assert(prepared_body(*sem, model, b0, prep, body_ref));
        lemma_refs_in_range_frame(b0, prep);
    }
    let max = body.exprs.len() + body.bindings.len() + 1;
    let ghost mut mids: Seq<BodyData> = Seq::empty();
    let ghost mut ends: Seq<BodyData> = Seq::empty();
    let mut rounds: usize = 0;
    let mut settled = false;
    while rounds < max && !settled
        invariant
            model == def_map.model(),
            max == max_rounds(b0),
            rounds <= max,
            rounds == ends.len(),
            prepared_body(*sem, model, b0, prep, body_ref),
            resolution_rounds(*sem, model, prep, mids, ends, body_ref),
            *body == round_start(prep, ends, ends.len() as int),
            resolution_frame(b0, *body),
            body_refs_in_range(*body),
            settled ==> rounds >= 1 && !round_changed(*sem, model, prep, mids, ends, body_ref, ends.len() - 1),
            !settled && rounds >= 1 ==> round_changed(*sem, model, prep, mids, ends, body_ref, ends.len() - 1),
        decreases max - rounds,
    {
        let ghost start = *body;
        let c_exprs = resolve_exprs(sem, def_map, body, body_ref);
        let ghost mid = *body;
        proof {
            assert(resolution_frame(start, mid));
            lemma_resolution_frame_trans(b0, start, mid);
            lemma_refs_in_range_frame(start, mid);
        }
        let c_pats = propagate(sem, def_map, body, body_ref);
        proof {
            let end = *body;
            assert(resolution_frame(mid, end)) by {
                assert forall|i: int| 0 <= i < mid.exprs@.len() implies #[trigger] end.exprs@[i] == (ExprData {
                    resolution: end.exprs@[i].resolution,
                    ty: end.exprs@[i].ty,
                    ..mid.exprs@[i]
                }) by {}
                assert forall|i: int| 0 <= i < mid.local_impls@.len() implies #[trigger] end.local_impls@[i] == (BodyImplData {
                    self_item: end.local_impls@[i].self_item,
                    ..mid.local_impls@[i]
                }) by {}
            }
            lemma_resolution_frame_trans(b0, mid, end);
            lemma_refs_in_range_frame(mid, end);
            let old_mids = mids;
            let old_ends = ends;
            mids = mids.push(mid);
            ends = ends.push(end);
            assert forall|j: int| 0 <= j < old_ends.len() implies round_start(prep, ends, j) == round_start(prep, old_ends, j)
                && #[trigger] mids[j] == old_mids[j] && ends[j] == old_ends[j] by {}
            assert(round_start(prep, ends, old_ends.len() as int) == start);
            assert forall|j: int| 0 <= j < ends.len() implies #[trigger] round_ran(*sem, model, prep, mids, ends, body_ref, j) by {
                if j < old_ends.len() {
                    assert(round_ran(*sem, model, prep, old_mids, old_ends, body_ref, j));
                    assert(round_start(prep, ends, j) == round_start(prep, old_ends, j));
                }
            }
            assert forall|j: int| 0 <= j < ends.len() - 1 implies #[trigger] round_changed(*sem, model, prep, mids, ends, body_ref, j) by {
                assert(round_start(prep, ends, j) == round_start(prep, old_ends, j));
                if j < old_ends.len() - 1 {
                    assert(round_changed(*sem, model, prep, old_mids, old_ends, body_ref, j));
                } else {
                    assert(round_changed(*sem, model, prep, old_mids, old_ends, body_ref, old_ends.len() - 1));
                }
            }
            assert(round_changed(*sem, model, prep, mids, ends, body_ref, ends.len() - 1) == (c_exprs || c_pats));
            assert(*body == round_start(prep, ends, ends.len() as int));
        }
        rounds = rounds + 1;
        if !(c_exprs || c_pats) {
            settled = true;
        }
    }
    proof {
        assert(ends.len() >= 1);
        assert(*body == ends.last());
        assert(prepared_body(*sem, model, b0, prep, body_ref) && resolution_rounds(*sem, model, prep, mids, ends, body_ref));
    }
}

/// Every body of `target` can be resolved.
pub open spec fn target_refs_in_range(target: TargetBodies) -> bool {
    forall|b: int| 0 <= b < target.bodies@.len() ==> body_refs_in_range(#[trigger] target.bodies@[b])
}

/// `new` is `old` with every body resolved as [`resolved_body`] states.
pub open spec fn resolved_target(sem: SemanticIndex, model: EnvModel, old: TargetBodies, new: TargetBodies, target: TargetRef) -> bool {
    &&& new.status == old.status
    &&& new.function_bodies == old.function_bodies
    &&& new.bodies@.len() == old.bodies@.len()
    &&& forall|b: int|
        0 <= b < old.bodies@.len() ==> resolved_body(
            sem,
            model,
            old.bodies@[b],
            #[trigger] new.bodies@[b],
            BodyRef { target, body: BodyId(b as usize) },
        )
}

/// Resolves every body of one target.
pub fn resolve_target(sem: &SemanticIndex, def_map: &DefMapDb, target: &mut TargetBodies, target_ref: TargetRef)
    requires
        target_refs_in_range(*old(target)),
    ensures
        resolved_target(*sem, def_map.model(), *old(target), *final(target), target_ref),
{
    let ghost t0 = *target;
    let n = target.bodies.len();
    let mut i: usize = 0;
    while i < n
        invariant
            i <= n,
            n == t0.bodies@.len(),
            target.status == t0.status,
            target.function_bodies == t0.function_bodies,
            target.bodies@.len() == n,
            forall|b: int| i <= b < n ==> #[trigger] target.bodies@[b] == t0.bodies@[b],
            forall|b: int| 0 <= b < n ==> body_refs_in_range(#[trigger] t0.bodies@[b]),
            forall|b: int|
                0 <= b < i ==> resolved_body(
                    *sem,
                    def_map.model(),
                    t0.bodies@[b],
                    #[trigger] target.bodies@[b],
                    BodyRef { target: target_ref, body: BodyId(b as usize) },
                ),
        decreases n - i,
    {
        proof {
            assert(body_refs_in_range(t0.bodies@[i as int]));
        }
        resolve_body(sem, def_map, &mut target.bodies[i], BodyRef { target: target_ref, body: BodyId(i) });
        i = i + 1;
    }
}

/// Every body of every target of `packages` can be resolved.
pub open spec fn packages_refs_in_range(packages: Seq<PackageBodies>) -> bool {
    forall|p: int, t: int|
        0 <= p < packages.len() && 0 <= t < packages[p].targets@.len() ==> target_refs_in_range(
            #[trigger] packages[p].targets@[t],
        )
}

/// `new` is `old` with every body of every target resolved, each as [`resolved_body`] states.
pub open spec fn resolved_packages(sem: SemanticIndex, model: EnvModel, old: Seq<PackageBodies>, new: Seq<PackageBodies>) -> bool {
    &&& new.len() == old.len()
    &&& forall|p: int| 0 <= p < old.len() ==> (#[trigger] new[p]).targets@.len() == old[p].targets@.len()
    &&& forall|p: int, t: int|
        0 <= p < old.len() && 0 <= t < old[p].targets@.len() ==> resolved_target(
            sem,
            model,
            old[p].targets@[t],
            #[trigger] new[p].targets@[t],
            TargetRef { package: PackageSlot(p as usize), target: TargetId(t as usize) },
        )
}

/// Resolves every body of the database, as [`resolved_packages`] states.
pub fn resolve_bodies(db: &mut BodyIrDb, def_map: &DefMapDb, sem: &SemanticIndex)
    requires
        packages_refs_in_range(old(db).package_list()),
    ensures
        resolved_packages(*sem, def_map.model(), old(db).package_list(), final(db).package_list()),
        final(db).offloaded_slots() == old(db).offloaded_slots(),
{
    let mut taken = BodyIrDb::new(Vec::new());
    std::mem::swap(db, &mut taken);
    let (mut packages, offloaded) = taken.into_parts();
    let ghost p0 = packages@;
    let n = packages.len();
    let mut p: usize = 0;
    while p < n
        invariant
            p <= n,
            n == p0.len(),
            packages@.len() == n,
            packages_refs_in_range(p0),
            forall|q: int| p <= q < n ==> #[trigger] packages@[q] == p0[q],
            forall|q: int| 0 <= q < n ==> (#[trigger] packages@[q]).targets@.len() == p0[q].targets@.len(),
            forall|q: int, t: int|
                0 <= q < p && 0 <= t < p0[q].targets@.len() ==> resolved_target(
                    *sem,
                    def_map.model(),
                    p0[q].targets@[t],
                    #[trigger] packages@[q].targets@[t],
                    TargetRef { package: PackageSlot(q as usize), target: TargetId(t as usize) },
                ),
        decreases n - p,
    {
        let m = packages[p].targets.len();
        let mut t: usize = 0;
        while t < m
            invariant
                p < n,
                t <= m,
                n == p0.len(),
                m == p0[p as int].targets@.len(),
                packages@.len() == n,
                packages_refs_in_range(p0),
                forall|q: int| p < q < n ==> #[trigger] packages@[q] == p0[q],
                forall|q: int| 0 <= q < n ==> (#[trigger] packages@[q]).targets@.len() == p0[q].targets@.len(),
                forall|u: int| t <= u < m ==> #[trigger] packages@[p as int].targets@[u] == p0[p as int].targets@[u],
                forall|q: int, u: int|
                    0 <= q < p && 0 <= u < p0[q].targets@.len() ==> resolved_target(
                        *sem,
                        def_map.model(),
                        p0[q].targets@[u],
                        #[trigger] packages@[q].targets@[u],
                        TargetRef { package: PackageSlot(q as usize), target: TargetId(u as usize) },
                    ),
                forall|u: int|
                    0 <= u < t ==> resolved_target(
                        *sem,
                        def_map.model(),
                        p0[p as int].targets@[u],
                        #[trigger] packages@[p as int].targets@[u],
                        TargetRef { package: PackageSlot(p), target: TargetId(u as usize) },
                    ),
            decreases m - t,
        {
            proof {
                assert(target_refs_in_range(p0[p as int].targets@[t as int]));
            }
            resolve_target(sem, def_map, &mut packages[p].targets[t], TargetRef { package: PackageSlot(p), target: TargetId(t) });
            t = t + 1;
        }
        p = p + 1;
    }
    *db = BodyIrDb::from_parts(packages, offloaded);
}

/// Why a Body IR rebuild could not run.
#[derive(Debug, Clone, Copy, PartialEq, Eq, Structural)]
pub enum BodyRebuildError {
    /// No freshly lowered package was supplied for this slot.
    MissingLoweredPackage(PackageSlot),
    /// The previous snapshot has no such package slot.
    UnknownPackageSlot(PackageSlot),
}

/// `new` is the freshly lowered package `lowered`, in slot `p`, with every body of every target
/// resolved.
pub open spec fn package_rebuilt(sem: SemanticIndex, model: EnvModel, lowered: PackageBodies, new: PackageBodies, p: int) -> bool {
    &&& new.targets@.len() == lowered.targets@.len()
    &&& forall|t: int|
        0 <= t < lowered.targets@.len() ==> resolved_target(
            sem,
            model,
            lowered.targets@[t],
            #[trigger] new.targets@[t],
            TargetRef { package: PackageSlot(p as usize), target: TargetId(t as usize) },
        )
}

/// Every listed slot before `s` has a lowered package and an old one.
pub open spec fn slots_available_before(packages: Seq<PackageSlot>, s: PackageSlot, lowered_len: nat, old_len: nat) -> bool {
    forall|x: PackageSlot| packages.contains(x) && x.0 < s.0 ==> slot_available(x, lowered_len, old_len)
}

/// Rebuilds the Body IR of the listed package slots against the previous snapshot: each listed
/// slot takes its freshly lowered package from `lowered` (by slot) and has every body resolved
/// against the current def maps and semantic index; the other packages stay as they were.
///
/// The first listed slot, in slot order, with no lowered package or no old package is reported,
/// and the snapshot is then left as it was.
pub fn rebuild_bodies(
    db: &mut BodyIrDb,
    def_map: &DefMapDb,
    sem: &SemanticIndex,
    packages: &Vec<PackageSlot>,
    lowered: Vec<PackageBodies>,
) -> (r: Result<(), BodyRebuildError>)
    requires
        forall|p: int, t: int|
            #![trigger lowered@[p].targets@[t]]
            0 <= p < lowered@.len() && packages@.contains(PackageSlot(p as usize)) && 0 <= t < lowered@[p].targets@.len()
                ==> target_refs_in_range(lowered@[p].targets@[t]),
    ensures
        r matches Err(BodyRebuildError::MissingLoweredPackage(s)) ==> {
            &&& packages@.contains(s)
            &&& s.0 >= lowered@.len()
            &&& slots_available_before(packages@, s, lowered@.len(), old(db).package_list().len())
        },
        r matches Err(BodyRebuildError::UnknownPackageSlot(s)) ==> {
            &&& packages@.contains(s)
            &&& s.0 < lowered@.len()
            &&& s.0 >= old(db).package_list().len()
            &&& slots_available_before(packages@, s, lowered@.len(), old(db).package_list().len())
        },
        r is Err ==> final(db).package_list() == old(db).package_list(),
        r is Ok <==> forall|x: PackageSlot| #[trigger] packages@.contains(x) ==> slot_available(x, lowered@.len(), old(db).package_list().len()),
        r is Ok ==> {
            &&& final(db).package_list().len() == old(db).package_list().len()
            &&& forall|p: int|
                0 <= p < old(db).package_list().len() ==> #[trigger] final(db).is_resident(PackageSlot(p as usize)) == (
                packages@.contains(PackageSlot(p as usize)) || old(db).is_resident(PackageSlot(p as usize)))
            &&& forall|p: int|
                0 <= p < old(db).package_list().len() ==> if packages@.contains(PackageSlot(p as usize)) {
                    package_rebuilt(*sem, def_map.model(), lowered@[p], #[trigger] final(db).package_list()[p], p)
                } else {
                    final(db).package_list()[p] == old(db).package_list()[p]
                }
        },
{
    let ghost model = def_map.model();
    let ghost olds = db.package_list();
    let ghost fresh = lowered@;
    let slots = normalized_package_slots(packages);
    proof {
        assert forall|x: PackageSlot| #[trigger] packages@.contains(x) == slots@.contains(x) by {
            assert(packages@.to_set().contains(x) == slots@.to_set().contains(x));
        }
    }
    let old_len = db.packages().len();
    let mut i: usize = 0;
    while i < slots.len()
        invariant
            strictly_increasing(slots@),
            forall|x: PackageSlot| #[trigger] packages@.contains(x) == slots@.contains(x),
            i <= slots@.len(),
            old_len == olds.len(),
            fresh == lowered@,
            olds == db.package_list(),
            olds == old(db).package_list(),
            forall|j: int| 0 <= j < i ==> slot_available(#[trigger] slots@[j], fresh.len(), olds.len()),
        decreases slots.len() - i,
    {
        let slot = slots[i];
        proof {
            assert(slots@[i as int] == slot);
            assert(packages@.contains(slot));
            assert forall|x: PackageSlot| packages@.contains(x) && x.0 < slot.0 implies slot_available(x, fresh.len(), olds.len()) by {
                assert(slots@.contains(x));
                let j = choose|j: int| 0 <= j < slots@.len() && slots@[j] == x;
                if j >= i {
                    assert(slots@[i as int].0 <= slots@[j].0);
                }
            }
        }
        if slot.0 >= lowered.len() {
            proof {
                assert(!slot_available(slot, fresh.len(), olds.len()));
            }
            return Err(BodyRebuildError::MissingLoweredPackage(slot));
        }
        if slot.0 >= old_len {
            proof {
                assert(!slot_available(slot, fresh.len(), olds.len()));
            }
            return Err(BodyRebuildError::UnknownPackageSlot(slot));
        }
        i = i + 1;
    }
    proof {
        assert forall|x: PackageSlot| #[trigger] packages@.contains(x) implies slot_available(x, fresh.len(), olds.len()) by {
            assert(slots@.contains(x));
            let j = choose|j: int| 0 <= j < slots@.len() && slots@[j] == x;
            assert(slot_available(slots@[j], fresh.len(), olds.len()));
        }
    }
    let ghost marks0 = db.offloaded_slots();
    let mut taken = BodyIrDb::new(Vec::new());
    std::mem::swap(db, &mut taken);
    let (mut out, mut marks) = taken.into_parts();
    let mut pending = lowered;
    let mut i: usize = 0;
    while i < slots.len()
        invariant
            strictly_increasing(slots@),
            forall|x: PackageSlot| #[trigger] packages@.contains(x) == slots@.contains(x),
            forall|j: int| 0 <= j < slots@.len() ==> slot_available(#[trigger] slots@[j], fresh.len(), olds.len()),
            i <= slots@.len(),
            model == def_map.model(),
            out@.len() == olds.len(),
            pending@.len() == fresh.len(),
            forall|p: int, t: int|
                #![trigger fresh[p].targets@[t]]
                0 <= p < fresh.len() && packages@.contains(PackageSlot(p as usize)) && 0 <= t < fresh[p].targets@.len()
                    ==> target_refs_in_range(fresh[p].targets@[t]),
            forall|j: int| i <= j < slots@.len() ==> #[trigger] pending@[slots@[j].0 as int] == fresh[slots@[j].0 as int],
            marks@.len() == marks0.len(),
            forall|p: int|
                0 <= p < marks0.len() ==> #[trigger] marks@[p] == (marks0[p] && !exists|j: int| 0 <= j < i && slots@[j].0 == p),
            forall|p: int|
                0 <= p < olds.len() ==> if exists|j: int| 0 <= j < i && slots@[j].0 == p {
                    package_rebuilt(*sem, model, fresh[p], #[trigger] out@[p], p)
                } else {
                    out@[p] == olds[p]
                },
        decreases slots.len() - i,
    {
        let slot = slots[i];
        proof {
            assert(slot_available(slots@[i as int], fresh.len(), olds.len()));
            assert(packages@.contains(slot));
        }
        let mut package = PackageBodies { targets: Vec::new() };
        std::mem::swap(&mut package, &mut pending[slot.0]);
        let ghost source = package;
        proof {
            assert(source == fresh[slot.0 as int]);
        }
        let n = package.targets.len();
        let mut t: usize = 0;
        while t < n
            invariant
                t <= n,
                n == source.targets@.len(),
                model == def_map.model(),
                package.targets@.len() == n,
                forall|u: int| t <= u < n ==> #[trigger] package.targets@[u] == source.targets@[u],
                forall|u: int| 0 <= u < n ==> target_refs_in_range(#[trigger] source.targets@[u]),
                forall|u: int|
                    0 <= u < t ==> resolved_target(
                        *sem,
                        model,
                        source.targets@[u],
                        #[trigger] package.targets@[u],
                        TargetRef { package: slot, target: TargetId(u as usize) },
                    ),
            decreases n - t,
        {
            resolve_target(sem, def_map, &mut package.targets[t], TargetRef { package: slot, target: TargetId(t) });
            t = t + 1;
        }
        proof {
            assert(PackageSlot(slot.0) == slot);
            assert(package_rebuilt(*sem, model, source, package, slot.0 as int));
        }
        out.set(slot.0, package);
        if slot.0 < marks.len() {
            marks.set(slot.0, false);
        }
        proof {
            assert forall|p: int| 0 <= p < marks0.len() implies #[trigger] marks@[p] == (marks0[p] && !exists|j: int| 0 <= j < i + 1 && slots@[j].0 == p) by {
                if p == slot.0 {
                    assert(slots@[i as int].0 == p);
                } else if exists|j: int| 0 <= j < i + 1 && slots@[j].0 == p {
                    let j = choose|j: int| 0 <= j < i + 1 && slots@[j].0 == p;
                    assert(j < i);
                }
            }
            assert forall|j: int| i + 1 <= j < slots@.len() implies #[trigger] pending@[slots@[j].0 as int] == fresh[slots@[j].0 as int] by {
                assert(slots@[i as int].0 < slots@[j].0);
            }
            assert forall|p: int| 0 <= p < olds.len() implies if exists|j: int| 0 <= j < i + 1 && slots@[j].0 == p {
                package_rebuilt(*sem, model, fresh[p], #[trigger] out@[p], p)
            } else {
                out@[p] == olds[p]
            } by {
                if p == slot.0 {
                    assert(slots@[i as int].0 == p);
                } else {
                    if exists|j: int| 0 <= j < i + 1 && slots@[j].0 == p {
                        let j = choose|j: int| 0 <= j < i + 1 && slots@[j].0 == p;
                        assert(j < i);
                    }
                }
            }
        }
        i = i + 1;
    }
    proof {
        assert forall|p: int| 0 <= p < olds.len() implies if packages@.contains(PackageSlot(p as usize)) {
            package_rebuilt(*sem, model, fresh[p], #[trigger] out@[p], p)
        } else {
            out@[p] == olds[p]
        } by {
            if packages@.contains(PackageSlot(p as usize)) {
                assert(slots@.contains(PackageSlot(p as usize)));
                let j = choose|j: int| 0 <= j < slots@.len() && slots@[j] == PackageSlot(p as usize);
                assert(slots@[j].0 == p);
            } else {
                if exists|j: int| 0 <= j < slots@.len() && slots@[j].0 == p {
                    let j = choose|j: int| 0 <= j < slots@.len() && slots@[j].0 == p;
                    assert(slots@[j] == PackageSlot(p as usize));
                    assert(slots@.contains(PackageSlot(p as usize)));
                }
            }
        }
    }
    let marks_len = marks.len();
    proof {
        assert forall|p: int| 0 <= p < marks0.len() implies #[trigger] marks@[p] == (marks0[p] && !packages@.contains(PackageSlot(p as usize))) by {
            assert(p < marks_len);
            if packages@.contains(PackageSlot(p as usize)) {
                assert(slots@.contains(PackageSlot(p as usize)));
                let j = choose|j: int| 0 <= j < slots@.len() && slots@[j] == PackageSlot(p as usize);
                assert(slots@[j].0 == p);
            } else if exists|j: int| 0 <= j < slots@.len() && slots@[j].0 == p {
                let j = choose|j: int| 0 <= j < slots@.len() && slots@[j].0 == p;
                assert(slots@[j] == PackageSlot(p as usize));
                assert(slots@.contains(PackageSlot(p as usize)));
            }
        }
    }
    *db = BodyIrDb::from_parts(out, marks);
    Ok(())
}

/// The type of a module-level field read in its type's module; a path that names no type is
/// unknown.
pub open spec fn field_ty(sem: SemanticIndex, model: EnvModel, field: FieldRef) -> Option<TyModel> {
    match sem.field_spec(field) {
        Some(data) => Some(ty_in_context(sem, model, data.0.ty, TypePathContext { module: data.1, impl_ref: None }, TyModel::Unknown)),
        None => None,
    }
}

/// The type of a module-level field, as [`field_ty`] states.
pub fn ty_for_field(def_map: &DefMapDb, sem: &SemanticIndex, field: FieldRef) -> (r: Option<BodyTy>)
    ensures
        match r {
            Some(t) => field_ty(*sem, def_map.model(), field) == Some(ty_model(t)),
            None => field_ty(*sem, def_map.model(), field) is None,
        },
{
    match sem.field_data(field) {
        Some(data) => Some(ty_from_type_ref_in_context(sem, def_map, &data.field.ty, TypePathContext::module(data.owner_module), BodyTy::Unknown)),
        None => None,
    }
}

/// What a type path written in `scope` of a body names; nothing for a body that does not exist.
pub open spec fn db_type_path_in_scope(
    db: BodyIrDb,
    sem: SemanticIndex,
    model: EnvModel,
    body_ref: BodyRef,
    scope: ScopeId,
    path: PathView,
) -> TypePathView {
    match db.body_spec(body_ref) {
        Some(body) => type_path_in_scope(sem, model, body, body_ref, scope, path),
        None => TypePathView::Unknown,
    }
}

impl BodyIrDb {
    /// Resolves a type path from a body-local lexical scope: body-local items shadow module
    /// items inside their scope; other paths resolve in the context of the body's function.
    pub fn resolve_type_path_in_scope(
        &self,
        def_map: &DefMapDb,
        semantic_ir: &SemanticIndex,
        body_ref: BodyRef,
        scope: ScopeId,
        path: &Path,
    ) -> (r: BodyTypePathResolution)
        ensures
            r@ == db_type_path_in_scope(*self, *semantic_ir, def_map.model(), body_ref, scope, path@),
    {
        match self.body_data(body_ref) {
            Some(body) => resolve_in_scope(semantic_ir, def_map, body, body_ref, scope, path),
            None => BodyTypePathResolution::Unknown,
        }
    }

    /// The type of a module-level field, as [`field_ty`] states.
    pub fn ty_for_field(&self, def_map: &DefMapDb, semantic_ir: &SemanticIndex, field_ref: FieldRef) -> (r: Option<BodyTy>)
        ensures
            match r {
                Some(t) => field_ty(*semantic_ir, def_map.model(), field_ref) == Some(ty_model(t)),
                None => field_ty(*semantic_ir, def_map.model(), field_ref) is None,
            },
    {
        ty_for_field(def_map, semantic_ir, field_ref)
    }
}

/// Appending an entry that satisfies `p` to a sequence whose entries all do keeps them all
/// satisfying it.
proof fn lemma_push_distinct_all<T>(s: Seq<T>, x: T, p: spec_fn(T) -> bool)
    requires
        forall|i: int| 0 <= i < s.len() ==> p(#[trigger] s[i]),
        p(x),
    ensures
        forall|i: int| 0 <= i < push_distinct(s, x).len() ==> p(#[trigger] push_distinct(s, x)[i]),
{
    if !s.contains(x) {
        assert forall|i: int| 0 <= i < s.push(x).len() implies p(#[trigger] s.push(x)[i]) by {
            if i < s.len() {
                assert(s.push(x)[i] == s[i]);
            }
        }
    }
}

/// A first match is a matching position.
proof fn lemma_first_match_some<T>(s: Seq<T>, p: spec_fn(T) -> bool)
    ensures
        first_match(s, p) matches Some(i) ==> 0 <= i < s.len() && p(s[i]),
    decreases s.len(),
{
    if s.len() > 0 {
        lemma_first_match_some(s.drop_last(), p);
    }
}

/// `field` is a field declared under `key`: on a local item of this body, or on a module-level
/// type of the index.
pub open spec fn field_declared(sem: SemanticIndex, body: BodyData, body_ref: BodyRef, field: ResolvedFieldRef, key: FieldKeyView) -> bool {
    match field {
        ResolvedFieldRef::BodyLocal(f) => {
            &&& f.item.body == body_ref
            &&& f.item.item.0 < body.local_items@.len()
            &&& f.index < body.local_items@[f.item.item.0 as int].fields.fields@.len()
            &&& field_has_key(body.local_items@[f.item.item.0 as int].fields.fields@[f.index as int], key)
        },
        ResolvedFieldRef::Semantic(f) => match sem.type_def_spec(f.owner) {
            Some(t) => f.index < t.fields.fields@.len() && field_has_key(t.fields.fields@[f.index as int], key),
            None => false,
        },
    }
}

proof fn lemma_local_fields_declared(
    sem: SemanticIndex,
    model: EnvModel,
    body: BodyData,
    body_ref: BodyRef,
    key: FieldKeyView,
    acc: (Seq<ResolvedFieldRef>, Seq<TyModel>),
    items: Seq<BodyItemRef>,
)
    requires
        forall|i: int| 0 <= i < acc.0.len() ==> field_declared(sem, body, body_ref, #[trigger] acc.0[i], key),
    ensures
        forall|i: int|
            0 <= i < local_fields_fold(sem, model, body, body_ref, key, acc, items).0.len() ==> field_declared(
                sem,
                body,
                body_ref,
                #[trigger] local_fields_fold(sem, model, body, body_ref, key, acc, items).0[i],
                key,
            ),
    decreases items.len(),
{
    if items.len() > 0 {
        lemma_local_fields_declared(sem, model, body, body_ref, key, acc, items.drop_last());
        let prev = local_fields_fold(sem, model, body, body_ref, key, acc, items.drop_last());
        let item = items.last();
        if item.body == body_ref && item.item.0 < body.local_items@.len() {
            lemma_first_match_some(body.local_items@[item.item.0 as int].fields.fields@, |f: FieldItem| field_has_key(f, key));
        }
        match local_field_spec(body, body_ref, item, key) {
            None => {},
            Some(field) => {
                let fields = body.local_items@[item.item.0 as int].fields.fields;
                assert(fields.len() as int == fields@.len());
                lemma_push_distinct_all(prev.0, ResolvedFieldRef::BodyLocal(field), |f: ResolvedFieldRef| field_declared(sem, body, body_ref, f, key));
            },
        }
    }
}

proof fn lemma_semantic_fields_declared(
    sem: SemanticIndex,
    model: EnvModel,
    body: BodyData,
    body_ref: BodyRef,
    key: FieldKeyView,
    acc: (Seq<ResolvedFieldRef>, Seq<TyModel>),
    types: Seq<NominalModel>,
)
    requires
        forall|i: int| 0 <= i < acc.0.len() ==> field_declared(sem, body, body_ref, #[trigger] acc.0[i], key),
    ensures
        forall|i: int|
            0 <= i < semantic_fields_fold(sem, model, key, acc, types).0.len() ==> field_declared(
                sem,
                body,
                body_ref,
                #[trigger] semantic_fields_fold(sem, model, key, acc, types).0[i],
                key,
            ),
    decreases types.len(),
{
    if types.len() > 0 {
        lemma_semantic_fields_declared(sem, model, body, body_ref, key, acc, types.drop_last());
        let prev = semantic_fields_fold(sem, model, key, acc, types.drop_last());
        let ty = types.last().def;
        match sem.type_def_spec(ty) {
            Some(t) => {
                lemma_first_match_some(t.fields.fields@, |f: FieldItem| field_has_key(f, key));
                lemma_first_match_some(sem.type_defs@, |d: SemanticTypeDef| d.def == ty);
            },
            None => {},
        }
        match sem.field_for_type_spec(ty, key) {
            None => {},
            Some(field) => {
                let t = sem.type_def_spec(ty).unwrap();
                assert(t.fields.fields.len() as int == t.fields.fields@.len());
                lemma_push_distinct_all(prev.0, ResolvedFieldRef::Semantic(field), |f: ResolvedFieldRef| field_declared(sem, body, body_ref, f, key));
            },
        }
    }
}

/// A field access resolves only to fields declared under the accessed name.
pub proof fn lemma_field_access_sound(
    sem: SemanticIndex,
    model: EnvModel,
    body: BodyData,
    body_ref: BodyRef,
    base_ty: TyModel,
    key: FieldKeyView,
)
    ensures
        match field_access(sem, model, body, body_ref, base_ty, key).0 {
            ResolutionView::Field(fields) => forall|i: int|
                0 <= i < fields.len() ==> field_declared(sem, body, body_ref, #[trigger] fields[i], key),
            _ => true,
        },
{
    let empty = (Seq::<ResolvedFieldRef>::empty(), Seq::<TyModel>::empty());
    lemma_local_fields_declared(sem, model, body, body_ref, key, empty, model_local_items(base_ty));
    let local = local_fields_fold(sem, model, body, body_ref, key, empty, model_local_items(base_ty));
    lemma_semantic_fields_declared(sem, model, body, body_ref, key, local, model_nominals(base_ty));
}

/// `function` is a function named `name` that takes `self`: a local function of this body, or
/// a module-level function of the index.
pub open spec fn method_named(sem: SemanticIndex, body: BodyData, body_ref: BodyRef, function: ResolvedFunctionRef, name: Seq<char>) -> bool {
    match function {
        ResolvedFunctionRef::BodyLocal(f) => {
            &&& f.function.0 < body.local_functions@.len()
            &&& body.local_functions@[f.function.0 as int].name@ == name
            &&& body.local_functions@[f.function.0 as int].declaration.has_self_receiver_spec()
        },
        ResolvedFunctionRef::Semantic(f) => match sem.function_spec(f) {
            Some(data) => data.name@ == name && data.declaration.has_self_receiver_spec(),
            None => false,
        },
    }
}

proof fn lemma_local_methods_of_named(
    sem: SemanticIndex,
    model: EnvModel,
    body: BodyData,
    body_ref: BodyRef,
    name: Seq<char>,
    acc: (Seq<ResolvedFunctionRef>, Seq<TyModel>),
    functions: Seq<BodyFunctionRef>,
)
    requires
        forall|i: int| 0 <= i < acc.0.len() ==> method_named(sem, body, body_ref, #[trigger] acc.0[i], name),
    ensures
        forall|i: int|
            0 <= i < local_methods_of(sem, model, body, body_ref, name, acc, functions).0.len() ==> method_named(
                sem,
                body,
                body_ref,
                #[trigger] local_methods_of(sem, model, body, body_ref, name, acc, functions).0[i],
                name,
            ),
    decreases functions.len(),
{
    if functions.len() > 0 {
        lemma_local_methods_of_named(sem, model, body, body_ref, name, acc, functions.drop_last());
        let prev = local_methods_of(sem, model, body, body_ref, name, acc, functions.drop_last());
        let f = functions.last();
        if let Some(data) = entry_at(body.local_functions@, f.function.0) {
            if data.name@ == name && data.declaration.has_self_receiver_spec() {
                lemma_push_distinct_all(prev.0, ResolvedFunctionRef::BodyLocal(f), |g: ResolvedFunctionRef| method_named(sem, body, body_ref, g, name));
            }
        }
    }
}

proof fn lemma_local_methods_named(
    sem: SemanticIndex,
    model: EnvModel,
    body: BodyData,
    body_ref: BodyRef,
    name: Seq<char>,
    acc: (Seq<ResolvedFunctionRef>, Seq<TyModel>),
    items: Seq<BodyItemRef>,
)
    requires
        forall|i: int| 0 <= i < acc.0.len() ==> method_named(sem, body, body_ref, #[trigger] acc.0[i], name),
    ensures
        forall|i: int|
            0 <= i < local_methods_fold(sem, model, body, body_ref, name, acc, items).0.len() ==> method_named(
                sem,
                body,
                body_ref,
                #[trigger] local_methods_fold(sem, model, body, body_ref, name, acc, items).0[i],
                name,
            ),
    decreases items.len(),
{
    if items.len() > 0 {
        lemma_local_methods_named(sem, model, body, body_ref, name, acc, items.drop_last());
        let mid = local_methods_fold(sem, model, body, body_ref, name, acc, items.drop_last());
        lemma_local_methods_of_named(sem, model, body, body_ref, name, mid, local_functions_of(body, body_ref, items.last()));
    }
}

proof fn lemma_semantic_methods_of_named(
    sem: SemanticIndex,
    model: EnvModel,
    body: BodyData,
    body_ref: BodyRef,
    name: Seq<char>,
    receiver: NominalModel,
    acc: (Seq<ResolvedFunctionRef>, Seq<TyModel>),
    functions: Seq<FunctionRef>,
)
    requires
        forall|i: int| 0 <= i < acc.0.len() ==> method_named(sem, body, body_ref, #[trigger] acc.0[i], name),
    ensures
        forall|i: int|
            0 <= i < semantic_methods_of(sem, model, body.owner_module, name, receiver, acc, functions).0.len() ==> method_named(
                sem,
                body,
                body_ref,
                #[trigger] semantic_methods_of(sem, model, body.owner_module, name, receiver, acc, functions).0[i],
                name,
            ),
    decreases functions.len(),
{
    if functions.len() > 0 {
        lemma_semantic_methods_of_named(sem, model, body, body_ref, name, receiver, acc, functions.drop_last());
        let prev = semantic_methods_of(sem, model, body.owner_module, name, receiver, acc, functions.drop_last());
        let f = functions.last();
        if let Some(data) = sem.function_spec(f) {
            if data.name@ == name && data.declaration.has_self_receiver_spec() {
                lemma_push_distinct_all(prev.0, ResolvedFunctionRef::Semantic(f), |g: ResolvedFunctionRef| method_named(sem, body, body_ref, g, name));
            }
        }
    }
}

proof fn lemma_semantic_methods_named(
    sem: SemanticIndex,
    model: EnvModel,
    body: BodyData,
    body_ref: BodyRef,
    name: Seq<char>,
    acc: (Seq<ResolvedFunctionRef>, Seq<TyModel>),
    types: Seq<NominalModel>,
)
    requires
        forall|i: int| 0 <= i < acc.0.len() ==> method_named(sem, body, body_ref, #[trigger] acc.0[i], name),
    ensures
        forall|i: int|
            0 <= i < semantic_methods_fold(sem, model, body.owner_module, name, acc, types).0.len() ==> method_named(
                sem,
                body,
                body_ref,
                #[trigger] semantic_methods_fold(sem, model, body.owner_module, name, acc, types).0[i],
                name,
            ),
    decreases types.len(),
{
    if types.len() > 0 {
        lemma_semantic_methods_named(sem, model, body, body_ref, name, acc, types.drop_last());
        let mid = semantic_methods_fold(sem, model, body.owner_module, name, acc, types.drop_last());
        lemma_semantic_methods_of_named(sem, model, body, body_ref, name, types.last(), mid, semantic_functions_of(sem, model, types.last()));
    }
}

/// A method call resolves only to functions named as called that take `self`.
pub proof fn lemma_method_call_sound(
    sem: SemanticIndex,
    model: EnvModel,
    body: BodyData,
    body_ref: BodyRef,
    receiver_ty: TyModel,
    name: Seq<char>,
)
    ensures
        match method_call(sem, model, body, body_ref, receiver_ty, name).0 {
            ResolutionView::Method(functions) => forall|i: int|
                0 <= i < functions.len() ==> method_named(sem, body, body_ref, #[trigger] functions[i], name),
            _ => true,
        },
{
    let empty = (Seq::<ResolvedFunctionRef>::empty(), Seq::<TyModel>::empty());
    lemma_local_methods_named(sem, model, body, body_ref, name, empty, model_local_items(receiver_ty));
    let local = local_methods_fold(sem, model, body, body_ref, name, empty, model_local_items(receiver_ty));
    lemma_semantic_methods_named(sem, model, body, body_ref, name, local, model_nominals(receiver_ty));
}

} // verus!
