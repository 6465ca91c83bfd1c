//! Pattern-directed binding types.
//!
//! The pass only pushes already-known expected types into pattern bindings. Enum variants are
//! matched against a known enum type of the scrutinee or annotation; patterns do not infer the
//! scrutinee type by themselves.

use vstd::prelude::*;

use crate::body::{
    BindingData, BodyData, BodyNominalTy, BodyTy, ExprData, ExprKind, MatchArmData, PatData, PatKind, RecordPatField, StmtData, StmtKind,
    field_has_key,
};
use crate::body_ids::{BindingId, BodyRef, ExprId, PatId, ScopeId};
use crate::body_ty::{
    NominalModel, TyArgModel, TyModel, lemma_nominal_models, nominal_model, nominal_models, ty_arg_model, ty_arg_models, ty_model,
    ty_models,
};
use crate::db::DefMapDb;
use crate::item_tree::{FieldItem, FieldKey, FieldKeyView, GenericParams, TypeRef};
use crate::path::{Path, PathSegment, PathView, SegmentView};
use crate::receiver::{generics_subst, lemma_model_type_args, model_type_args, receiver_type_args, subst_from_generics, subst_ty, type_param_names};
use crate::resolution::EnvModel;
use crate::scoped_types::{scope_ty, ty_from_type_ref_in_scope};
use crate::semantic::{SemanticIndex, TypePathContext, first_match, lemma_first_match_at, lemma_first_match_none, push_distinct};

verus! {

/// The name of the variant a pattern path names: its last segment, when that is a name.
pub open spec fn variant_name_of(path: Option<PathView>) -> Option<Seq<char>> {
    match path {
        Some(p) => if p.segments.len() == 0 {
            None
        } else {
            match p.segments[p.segments.len() - 1] {
                SegmentView::Name(name) => Some(name),
                _ => None,
            }
        },
        None => None,
    }
}

/// The field of a variant a pattern field names: a named field by its name, a positional one
/// by its position when the field there has that position as its key.
pub open spec fn variant_field_of(fields: Seq<FieldItem>, key: FieldKeyView) -> Option<FieldItem> {
    match key {
        FieldKeyView::Named(_) => match first_match(fields, |f: FieldItem| field_has_key(f, key)) {
            Some(i) => Some(fields[i]),
            None => None,
        },
        FieldKeyView::Tuple(i) => if i < fields.len() && field_has_key(fields[i as int], key) {
            Some(fields[i as int])
        } else {
            None
        },
    }
}

/// The substitution a use of a generic type gives, on models: its type parameters, in order,
/// stand for the type arguments of the use, as far as both go.
pub open spec fn model_subst(generics: GenericParams, args: Seq<TyArgModel>) -> Seq<(Seq<char>, TyModel)> {
    let names = type_param_names(generics);
    let tys = model_type_args(args);
    let n = if names.len() < tys.len() {
        names.len()
    } else {
        tys.len()
    };
    Seq::new(n, |i: int| (names[i], tys[i]))
}

/// The type of the field `key` of variant `variant` of the enum `enum_ty`: its declared type
/// read in the enum's module, with the enum's type parameters standing for the arguments of
/// `enum_ty`; a path that names no type is unknown.
pub open spec fn enum_variant_field_ty(
    sem: SemanticIndex,
    model: EnvModel,
    enum_ty: NominalModel,
    variant: Seq<char>,
    key: FieldKeyView,
) -> Option<TyModel> {
    if !sem.is_enum_spec(enum_ty.def) {
        None
    } else {
        match sem.type_def_spec(enum_ty.def) {
            None => None,
            Some(t) => match sem.enum_variant_spec(enum_ty.def, variant) {
                None => None,
                Some(v) => match variant_field_of(v.fields.fields@, key) {
                    None => None,
                    Some(f) => Some(subst_ty(
                        sem,
                        model,
                        f.ty,
                        TypePathContext { module: t.owner_module, impl_ref: None },
                        TyModel::Unknown,
                        model_subst(t.generics, enum_ty.args),
                    )),
                },
            },
        }
    }
}

/// The enums among the nominal types `types`, in order.
pub open spec fn enums_among(sem: SemanticIndex, types: Seq<NominalModel>) -> Seq<NominalModel>
    decreases types.len(),
{
    if types.len() == 0 {
        Seq::empty()
    } else {
        let before = enums_among(sem, types.drop_last());
        if sem.is_enum_spec(types.last().def) {
            before.push(types.last())
        } else {
            before
        }
    }
}

/// The enum types an expected type can be: the enums among its nominal or `Self` types.
pub open spec fn enum_candidates(sem: SemanticIndex, ty: TyModel) -> Seq<NominalModel> {
    match ty {
        TyModel::Nominal(types) => enums_among(sem, types),
        TyModel::SelfTy(types) => enums_among(sem, types),
        _ => Seq::empty(),
    }
}

/// The distinct types of field `key` of variant `variant` over the enums `enums`, in order.
pub open spec fn variant_field_tys(
    sem: SemanticIndex,
    model: EnvModel,
    enums: Seq<NominalModel>,
    variant: Seq<char>,
    key: FieldKeyView,
) -> Seq<TyModel>
    decreases enums.len(),
{
    if enums.len() == 0 {
        Seq::empty()
    } else {
        let before = variant_field_tys(sem, model, enums.drop_last(), variant, key);
        match enum_variant_field_ty(sem, model, enums.last(), variant, key) {
            Some(t) => push_distinct(before, t),
            None => before,
        }
    }
}

/// The type of field `key` of variant `variant` when a value of type `expected` matches the
/// variant: known when every enum `expected` can be gives the same one.
pub open spec fn variant_field_type(sem: SemanticIndex, model: EnvModel, expected: TyModel, variant: Seq<char>, key: FieldKeyView) -> Option<TyModel> {
    let tys = variant_field_tys(sem, model, enum_candidates(sem, expected), variant, key);
    if tys.len() == 1 {
        Some(tys[0])
    } else {
        None
    }
}

/// The variant a pattern path names, as [`variant_name_of`] states.
pub fn variant_name(path: Option<&Path>) -> (r: Option<&String>)
    ensures
        match r {
            Some(name) => variant_name_of(
                match path {
                    Some(p) => Some(p@),
                    None => None,
                },
            ) == Some(name@),
            None => variant_name_of(
                match path {
                    Some(p) => Some(p@),
                    None => None,
                },
            ) is None,
        },
{
    let path = match path {
        Some(p) => p,
        None => return None,
    };
    let n = path.segments.len();
    if n == 0 {
        return None;
    }
    match &path.segments[n - 1] {
        PathSegment::Name(name) => Some(name),
        _ => None,
    }
}

/// The field of a variant a pattern field names, as [`variant_field_of`] states.
pub fn variant_field<'a>(fields: &'a crate::item_tree::FieldList, key: &FieldKey) -> (r: Option<&'a FieldItem>)
    ensures
        match r {
            Some(f) => variant_field_of(fields.fields@, key@) == Some(*f),
            None => variant_field_of(fields.fields@, key@) is None,
        },
{
    match key {
        FieldKey::Named(_) => {
            let ghost p = |f: FieldItem| field_has_key(f, key@);
            let mut i: usize = 0;
            while i < fields.fields.len()
                invariant
                    i <= fields.fields@.len(),
                    p == (|f: FieldItem| field_has_key(f, key@)),
                    key@ is Named,
                    forall|j: int| 0 <= j < i ==> !p(#[trigger] fields.fields@[j]),
                decreases fields.fields.len() - i,
            {
                let matches = match &fields.fields[i].key {
                    Some(k) => k.same_as(key),
                    None => false,
                };
                if matches {
                    proof {
                        lemma_first_match_at(fields.fields@, p, i as int);
                    }
                    return Some(&fields.fields[i]);
                }
                i = i + 1;
            }
            proof {
                lemma_first_match_none(fields.fields@, p);
            }
            None
        },
        FieldKey::Tuple(index) => {
            if *index < fields.fields.len() {
                let field = &fields.fields[*index];
                let matches = match &field.key {
                    Some(k) => k.same_as(key),
                    None => false,
                };
                if matches {
                    Some(field)
                } else {
                    None
                }
            } else {
                None
            }
        },
    }
}

/// The type of field `key` of variant `variant` of an enum type, as [`enum_variant_field_ty`]
/// states.
pub fn variant_field_ty_for_enum(
    sem: &SemanticIndex,
    def_map: &DefMapDb,
    enum_ty: &BodyNominalTy,
    variant: &String,
    field_key: &FieldKey,
) -> (r: Option<BodyTy>)
    ensures
        match r {
            Some(t) => enum_variant_field_ty(*sem, def_map.model(), nominal_model(*enum_ty), variant@, field_key@) == Some(ty_model(t)),
            None => enum_variant_field_ty(*sem, def_map.model(), nominal_model(*enum_ty), variant@, field_key@) is None,
        },
{
    if !sem.is_enum(enum_ty.def) {
        return None;
    }
    let data = match sem.type_def_data(enum_ty.def) {
        Some(data) => data,
        None => return None,
    };
    let variant_data = match sem.enum_variant_for_type_def(enum_ty.def, variant) {
        Some(v) => v,
        None => return None,
    };
    let field = match variant_field(&variant_data.fields, field_key) {
        Some(f) => f,
        None => return None,
    };
    let subst = subst_from_generics(&data.generics, &enum_ty.args);
    proof {
        lemma_model_type_args(enum_ty.args@);
        assert(generics_subst(data.generics, enum_ty.args@) =~= model_subst(data.generics, ty_arg_models(enum_ty.args@)));
    }
    Some(crate::receiver::ty_from_type_ref_in_context(
        sem,
        def_map,
        &field.ty,
        TypePathContext::module(data.owner_module),
        BodyTy::Unknown,
        &subst,
    ))
}

/// The enum types an expected type can be, as [`enum_candidates`] states.
pub fn enum_ty_candidates<'a>(sem: &SemanticIndex, ty: &'a BodyTy) -> (r: Vec<&'a BodyNominalTy>)
    ensures
        r@.len() == enum_candidates(*sem, ty_model(*ty)).len(),
        forall|k: int| 0 <= k < r@.len() ==> nominal_model(*#[trigger] r@[k]) == enum_candidates(*sem, ty_model(*ty))[k],
{
    let types = match ty {
        BodyTy::Nominal(types) => types,
        BodyTy::SelfTy(types) => types,
        _ => return Vec::new(),
    };
    proof {
        lemma_nominal_models(types@);
    }
    let ghost models = nominal_models(types@);
    let mut out: Vec<&BodyNominalTy> = Vec::new();
    let mut i: usize = 0;
    while i < types.len()
        invariant
            i <= types@.len(),
            models == nominal_models(types@),
            models.len() == types@.len(),
            forall|k: int| 0 <= k < types@.len() ==> #[trigger] models[k] == nominal_model(types@[k]),
            out@.len() == enums_among(*sem, models.take(i as int)).len(),
            forall|k: int| 0 <= k < out@.len() ==> nominal_model(*#[trigger] out@[k]) == enums_among(*sem, models.take(i as int))[k],
        decreases types.len() - i,
    {
        proof {
            assert(models.take(i + 1).drop_last() =~= models.take(i as int));
            assert(models.take(i + 1).last() == models[i as int]);
        }
        if sem.is_enum(types[i].def) {
            out.push(&types[i]);
        }
        i = i + 1;
    }
    proof {
        assert(models.take(models.len() as int) =~= models);
    }
    out
}

/// The type of field `key` of variant `variant` for a value of type `expected`, as
/// [`variant_field_type`] states.
pub fn variant_field_ty(
    sem: &SemanticIndex,
    def_map: &DefMapDb,
    expected_ty: &BodyTy,
    variant: &String,
    field_key: &FieldKey,
) -> (r: Option<BodyTy>)
    ensures
        match r {
            Some(t) => variant_field_type(*sem, def_map.model(), ty_model(*expected_ty), variant@, field_key@) == Some(ty_model(t)),
            None => variant_field_type(*sem, def_map.model(), ty_model(*expected_ty), variant@, field_key@) is None,
        },
{
    let ghost model = def_map.model();
    let enums = enum_ty_candidates(sem, expected_ty);
    let ghost cands = enum_candidates(*sem, ty_model(*expected_ty));
    let mut candidates: Vec<BodyTy> = Vec::new();
    let mut i: usize = 0;
    while i < enums.len()
        invariant
            i <= enums@.len(),
            model == def_map.model(),
            enums@.len() == cands.len(),
            forall|k: int| 0 <= k < enums@.len() ==> nominal_model(*#[trigger] enums@[k]) == cands[k],
            ty_models(candidates@) == variant_field_tys(*sem, model, cands.take(i as int), variant@, field_key@),
        decreases enums.len() - i,
    {
        proof {
            assert(cands.take(i + 1).drop_last() =~= cands.take(i as int));
            assert(cands.take(i + 1).last() == cands[i as int]);
            assert(nominal_model(*enums@[i as int]) == cands[i as int]);
        }
        if let Some(t) = variant_field_ty_for_enum(sem, def_map, enums[i], variant, field_key) {
            crate::body_ty::push_unique_ty(&mut candidates, t);
        }
        i = i + 1;
    }
    proof {
        assert(cands.take(cands.len() as int) =~= cands);
    }
    if candidates.len() == 1 {
        let ghost before = candidates@;
        match candidates.pop() {
            Some(t) => {
                proof {
                    assert(t == before[0]);
                    assert(ty_models(before)[0] == ty_model(before[0]));
                }
                Some(t)
            },
            None => None,
        }
    } else {
        None
    }
}

/// The sub-patterns that a walk from pattern `i` visits come before it.
pub open spec fn subpats_before(kind: PatKind, i: int) -> bool {
    match kind {
        PatKind::Binding { subpat, .. } => match subpat {
            Some(s) => s.0 < i,
            None => true,
        },
        PatKind::TupleStruct { fields, .. } => forall|k: int| 0 <= k < fields@.len() ==> (#[trigger] fields@[k]).0 < i,
        PatKind::Record { fields, .. } => forall|k: int| 0 <= k < fields@.len() ==> (#[trigger] fields@[k]).pat.0 < i,
        PatKind::Or { pats } => forall|k: int| 0 <= k < pats@.len() ==> (#[trigger] pats@[k]).0 < i,
        PatKind::Ref { pat } => pat.0 < i,
        PatKind::Box { pat } => pat.0 < i,
        _ => true,
    }
}

/// Every pattern's sub-patterns come before it, so walks over patterns end.
pub open spec fn pats_ordered(pats: Seq<PatData>) -> bool {
    forall|i: int| 0 <= i < pats.len() ==> #[trigger] subpats_before(pats[i].kind, i)
}

/// The types of the bindings of `body`, in order.
pub open spec fn binding_tys(body: BodyData) -> Seq<TyModel> {
    body.bindings@.map_values(|b: BindingData| ty_model(b.ty))
}

/// Gives binding `binding` the type `ty` when it has none yet and `ty` is known; says whether
/// it did.
pub open spec fn set_binding(tys: Seq<TyModel>, binding: BindingId, ty: TyModel) -> (Seq<TyModel>, bool) {
    if ty is Unknown || binding.0 >= tys.len() || !(tys[binding.0 as int] is Unknown) {
        (tys, false)
    } else {
        (tys.update(binding.0 as int, ty), true)
    }
}

/// The path of a pattern, by its model.
pub open spec fn path_view_of(path: Option<Path>) -> Option<PathView> {
    match path {
        Some(p) => Some(p@),
        None => None,
    }
}

/// Pushes the known type `expected` into pattern `pat`: a binding takes it when it has no type
/// yet, and so does its sub-pattern; the fields of an enum variant pattern take the types of the
/// variant's fields; the first alternative of an or-pattern that changes anything stops the
/// walk; references and boxes pass the type on. Says whether any binding changed.
pub open spec fn propagate_pat_spec(
    sem: SemanticIndex,
    model: EnvModel,
    pats: Seq<PatData>,
    tys: Seq<TyModel>,
    pat: PatId,
    expected: TyModel,
) -> (Seq<TyModel>, bool)
    decreases pat.0, 1int, 0int,
{
    if expected is Unknown || pat.0 >= pats.len() {
        (tys, false)
    } else {
        match pats[pat.0 as int].kind {
            PatKind::Binding { binding, subpat } => {
                let first = match binding {
                    Some(b) => set_binding(tys, b, expected),
                    None => (tys, false),
                };
                match subpat {
                    Some(s) => if s.0 < pat.0 {
                        let rest = propagate_pat_spec(sem, model, pats, first.0, s, expected);
                        (rest.0, first.1 || rest.1)
                    } else {
                        first
                    },
                    None => first,
                }
            },
            PatKind::TupleStruct { path, fields } => match variant_name_of(path_view_of(path)) {
                Some(name) => tuple_fields_spec(sem, model, pats, tys, pat, fields@, name, expected),
                None => (tys, false),
            },
            PatKind::Record { path, fields } => match variant_name_of(path_view_of(path)) {
                Some(name) => record_fields_spec(sem, model, pats, tys, pat, record_field_views(fields@), name, expected),
                None => (tys, false),
            },
            PatKind::Or { pats: alts } => or_spec(sem, model, pats, tys, pat, alts@, expected),
            PatKind::Ref { pat: inner } => if inner.0 < pat.0 {
                propagate_pat_spec(sem, model, pats, tys, inner, expected)
            } else {
                (tys, false)
            },
            PatKind::Box { pat: inner } => if inner.0 < pat.0 {
                propagate_pat_spec(sem, model, pats, tys, inner, expected)
            } else {
                (tys, false)
            },
            _ => (tys, false),
        }
    }
}

/// The positional fields `fields` of a tuple-variant pattern inside `parent`, in order, each
/// given the type of the variant field at its position.
pub open spec fn tuple_fields_spec(
    sem: SemanticIndex,
    model: EnvModel,
    pats: Seq<PatData>,
    tys: Seq<TyModel>,
    parent: PatId,
    fields: Seq<PatId>,
    variant: Seq<char>,
    expected: TyModel,
) -> (Seq<TyModel>, bool)
    decreases parent.0, 0int, fields.len(),
{
    if fields.len() == 0 {
        (tys, false)
    } else {
        let before = tuple_fields_spec(sem, model, pats, tys, parent, fields.drop_last(), variant, expected);
        let field = fields[fields.len() - 1];
        match variant_field_type(sem, model, expected, variant, FieldKeyView::Tuple((fields.len() - 1) as nat)) {
            Some(field_ty) => if field.0 < parent.0 {
                let r = propagate_pat_spec(sem, model, pats, before.0, field, field_ty);
                (r.0, before.1 || r.1)
            } else {
                before
            },
            None => before,
        }
    }
}

/// The keys and patterns of the fields of a record pattern, in order.
pub open spec fn record_field_views(fields: Seq<RecordPatField>) -> Seq<(FieldKeyView, PatId)> {
    fields.map_values(|f: RecordPatField| (f.key@, f.pat))
}

/// The named fields `fields` of a record-variant pattern inside `parent`, in order, each given
/// the type of the variant field of that name.
pub open spec fn record_fields_spec(
    sem: SemanticIndex,
    model: EnvModel,
    pats: Seq<PatData>,
    tys: Seq<TyModel>,
    parent: PatId,
    fields: Seq<(FieldKeyView, PatId)>,
    variant: Seq<char>,
    expected: TyModel,
) -> (Seq<TyModel>, bool)
    decreases parent.0, 0int, fields.len(),
{
    if fields.len() == 0 {
        (tys, false)
    } else {
        let before = record_fields_spec(sem, model, pats, tys, parent, fields.drop_last(), variant, expected);
        let field = fields[fields.len() - 1];
        match variant_field_type(sem, model, expected, variant, field.0) {
            Some(field_ty) => if field.1.0 < parent.0 {
                let r = propagate_pat_spec(sem, model, pats, before.0, field.1, field_ty);
                (r.0, before.1 || r.1)
            } else {
                before
            },
            None => before,
        }
    }
}

/// The alternatives `alts` of an or-pattern inside `parent`, in order, until one changes a
/// binding.
pub open spec fn or_spec(
    sem: SemanticIndex,
    model: EnvModel,
    pats: Seq<PatData>,
    tys: Seq<TyModel>,
    parent: PatId,
    alts: Seq<PatId>,
    expected: TyModel,
) -> (Seq<TyModel>, bool)
    decreases parent.0, 0int, alts.len(),
{
    if alts.len() == 0 {
        (tys, false)
    } else if alts[0].0 < parent.0 {
        let r = propagate_pat_spec(sem, model, pats, tys, alts[0], expected);
        if r.1 {
            (r.0, true)
        } else {
            or_spec(sem, model, pats, r.0, parent, alts.skip(1), expected)
        }
    } else {
        or_spec(sem, model, pats, tys, parent, alts.skip(1), expected)
    }
}

/// `a` and `b` differ at most in the types of their bindings.
pub open spec fn same_except_binding_tys(a: BodyData, b: BodyData) -> bool {
    &&& a.owner == b.owner
    &&& a.owner_module == b.owner_module
    &&& a.source == b.source
    &&& a.param_scope == b.param_scope
    &&& a.root_expr == b.root_expr
    &&& a.params == b.params
    &&& a.scopes == b.scopes
    &&& a.local_items == b.local_items
    &&& a.local_impls == b.local_impls
    &&& a.local_functions == b.local_functions
    &&& a.pats == b.pats
    &&& a.statements == b.statements
    &&& a.exprs == b.exprs
    &&& a.bindings@.len() == b.bindings@.len()
    &&& forall|i: int| 0 <= i < a.bindings@.len() ==> #[trigger] a.bindings@[i] == (BindingData { ty: a.bindings@[i].ty, ..b.bindings@[i] })
}

proof fn lemma_same_except_binding_tys_trans(a: BodyData, b: BodyData, c: BodyData)
    requires
        same_except_binding_tys(a, b),
        same_except_binding_tys(b, c),
    ensures
        same_except_binding_tys(a, c),
{
    assert forall|i: int| 0 <= i < a.bindings@.len() implies #[trigger] a.bindings@[i] == (BindingData {
        ty: a.bindings@[i].ty,
        ..c.bindings@[i]
    }) by {
        assert(a.bindings@[i] == (BindingData { ty: a.bindings@[i].ty, ..b.bindings@[i] }));
        assert(b.bindings@[i] == (BindingData { ty: b.bindings@[i].ty, ..c.bindings@[i] }));
    }
}

/// Gives binding `binding` the type `ty` when it has none yet and `ty` is known, as
/// [`set_binding`] states.
pub fn set_binding_ty(body: &mut BodyData, binding: BindingId, ty: BodyTy) -> (r: bool)
    ensures
        same_except_binding_tys(*final(body), *old(body)),
        (binding_tys(*final(body)), r) == set_binding(binding_tys(*old(body)), binding, ty_model(ty)),
{
    proof {
        assert(binding_tys(*old(body)).len() == old(body).bindings@.len());
    }
    if let BodyTy::Unknown = ty {
        return false;
    }
    if binding.0 >= body.bindings.len() {
        return false;
    }
    let unknown = match body.bindings[binding.0].ty {
        BodyTy::Unknown => true,
        _ => false,
    };
    if !unknown {
        return false;
    }
    body.bindings[binding.0].ty = ty;
    proof {
        assert(binding_tys(*body) =~= binding_tys(*old(body)).update(binding.0 as int, ty_model(body.bindings@[binding.0 as int].ty)));
    }
    true
}

/// A copy of a list of pattern ids.
fn copy_pat_ids(ids: &Vec<PatId>) -> (r: Vec<PatId>)
    ensures
        r@ == ids@,
{
    let mut out: Vec<PatId> = Vec::new();
    let mut i: usize = 0;
    while i < ids.len()
        invariant
            i <= ids@.len(),
            out@ == ids@.take(i as int),
        decreases ids.len() - i,
    {
        out.push(ids[i]);
        proof {
            assert(out@ =~= ids@.take(i + 1));
        }
        i = i + 1;
    }
    proof {
        assert(ids@.take(ids@.len() as int) =~= ids@);
    }
    out
}

/// Pushes the known type `expected` into pattern `pat`, as [`propagate_pat_spec`] states; only
/// the types of bindings change.
pub fn propagate_pat(sem: &SemanticIndex, def_map: &DefMapDb, body: &mut BodyData, pat: PatId, expected_ty: &BodyTy) -> (r: bool)
    requires
        pats_ordered(old(body).pats@),
    ensures
        same_except_binding_tys(*final(body), *old(body)),
        (binding_tys(*final(body)), r) == propagate_pat_spec(
            *sem,
            def_map.model(),
            old(body).pats@,
            binding_tys(*old(body)),
            pat,
            ty_model(*expected_ty),
        ),
    decreases pat.0,
{
    let ghost b0 = *body;
    let ghost model = def_map.model();
    if let BodyTy::Unknown = expected_ty {
        return false;
    }
    if pat.0 >= body.pats.len() {
        return false;
    }
    proof {
        assert(subpats_before(b0.pats@[pat.0 as int].kind, pat.0 as int));
    }
    match &body.pats[pat.0].kind {
        PatKind::Binding { binding, subpat } => {
            let binding = *binding;
            let subpat = *subpat;
            let mut changed = match binding {
                Some(b) => set_binding_ty(body, b, expected_ty.duplicate()),
                None => false,
            };
            if let Some(s) = subpat {
                let c = propagate_pat(sem, def_map, body, s, expected_ty);
                changed = changed || c;
            }
            changed
        },
        PatKind::TupleStruct { path, fields } => {
            let name = match variant_name(match path {
                Some(p) => Some(p),
                None => None,
            }) {
                Some(name) => name.clone(),
                None => return false,
            };
            let fields = copy_pat_ids(fields);
            propagate_tuple_variant(sem, def_map, body, pat, &name, &fields, expected_ty)
        },
        PatKind::Record { path, fields } => {
            let name = match variant_name(match path {
                Some(p) => Some(p),
                None => None,
            }) {
                Some(name) => name.clone(),
                None => return false,
            };
            let ghost originals = fields@;
            proof {
                assert(b0.pats@[pat.0 as int].kind == PatKind::Record { path: *path, fields: *fields });
                assert(forall|k: int| 0 <= k < originals.len() ==> (#[trigger] originals[k]).pat.0 < pat.0);
            }
            let fields = copy_record_fields(fields);
            proof {
                assert(fields@.map_values(|f: (FieldKey, PatId)| (f.0@, f.1)).len() == fields@.len());
                assert(record_field_views(originals).len() == originals.len());
                assert forall|k: int| 0 <= k < fields@.len() implies (#[trigger] fields@[k]).1.0 < pat.0 by {
                    assert(fields@.map_values(|f: (FieldKey, PatId)| (f.0@, f.1))[k] == record_field_views(originals)[k]);
                    assert(originals[k].pat.0 < pat.0);
                }
            }
            propagate_record_variant(sem, def_map, body, pat, &name, &fields, expected_ty)
        },
        PatKind::Or { pats } => {
            let alts = copy_pat_ids(pats);
            propagate_or(sem, def_map, body, pat, &alts, expected_ty)
        },
        PatKind::Ref { pat: inner } => {
            let inner = *inner;
            propagate_pat(sem, def_map, body, inner, expected_ty)
        },
        PatKind::Box { pat: inner } => {
            let inner = *inner;
            propagate_pat(sem, def_map, body, inner, expected_ty)
        },
        _ => false,
    }
}

/// A copy of the keys and patterns of the fields of a record pattern.
fn copy_record_fields(fields: &Vec<RecordPatField>) -> (r: Vec<(FieldKey, PatId)>)
    ensures
        r@.map_values(|f: (FieldKey, PatId)| (f.0@, f.1)) == record_field_views(fields@),
{
    let mut out: Vec<(FieldKey, PatId)> = Vec::new();
    let mut i: usize = 0;
    while i < fields.len()
        invariant
            i <= fields@.len(),
            out@.map_values(|f: (FieldKey, PatId)| (f.0@, f.1)) == record_field_views(fields@.take(i as int)),
        decreases fields.len() - i,
    {
        let copy = (fields[i].key.duplicate(), fields[i].pat);
        let ghost before = out@;
        out.push(copy);
        proof {
            assert(out@.map_values(|f: (FieldKey, PatId)| (f.0@, f.1)) =~= before.map_values(|f: (FieldKey, PatId)| (f.0@, f.1)).push(
                (copy.0@, copy.1),
            ));
            assert(record_field_views(fields@.take(i + 1)) =~= record_field_views(fields@.take(i as int)).push(
                (fields@[i as int].key@, fields@[i as int].pat),
            ));
        }
        i = i + 1;
    }
    proof {
        assert(fields@.take(fields@.len() as int) =~= fields@);
    }
    out
}

/// The positional fields of a tuple-variant pattern, as [`tuple_fields_spec`] states.
fn propagate_tuple_variant(
    sem: &SemanticIndex,
    def_map: &DefMapDb,
    body: &mut BodyData,
    pat: PatId,
    variant: &String,
    fields: &Vec<PatId>,
    expected_ty: &BodyTy,
) -> (r: bool)
    requires
        pats_ordered(old(body).pats@),
        forall|k: int| 0 <= k < fields@.len() ==> (#[trigger] fields@[k]).0 < pat.0,
    ensures
        same_except_binding_tys(*final(body), *old(body)),
        (binding_tys(*final(body)), r) == tuple_fields_spec(
            *sem,
            def_map.model(),
            old(body).pats@,
            binding_tys(*old(body)),
            pat,
            fields@,
            variant@,
            ty_model(*expected_ty),
        ),
    decreases pat.0, 0int,
{
    let ghost b0 = *body;
    let ghost model = def_map.model();
    let mut changed = false;
    let mut k: usize = 0;
    while k < fields.len()
        invariant
            k <= fields@.len(),
            model == def_map.model(),
            forall|j: int| 0 <= j < fields@.len() ==> (#[trigger] fields@[j]).0 < pat.0,
            pats_ordered(b0.pats@),
            same_except_binding_tys(*body, b0),
            (binding_tys(*body), changed) == tuple_fields_spec(
                *sem,
                model,
                b0.pats@,
                binding_tys(b0),
                pat,
                fields@.take(k as int),
                variant@,
                ty_model(*expected_ty),
            ),
        decreases fields.len() - k,
    {
        proof {
            assert(fields@.take(k + 1).drop_last() =~= fields@.take(k as int));
            assert(fields@.take(k + 1)[k as int] == fields@[k as int]);
        }
        let key = FieldKey::Tuple(k);
        if let Some(field_ty) = variant_field_ty(sem, def_map, expected_ty, variant, &key) {
            let c = propagate_pat(sem, def_map, body, fields[k], &field_ty);
            changed = changed || c;
        }
        k = k + 1;
    }
    proof {
        assert(fields@.take(fields@.len() as int) =~= fields@);
    }
    changed
}

/// The named fields of a record-variant pattern, as [`record_fields_spec`] states.
fn propagate_record_variant(
    sem: &SemanticIndex,
    def_map: &DefMapDb,
    body: &mut BodyData,
    pat: PatId,
    variant: &String,
    fields: &Vec<(FieldKey, PatId)>,
    expected_ty: &BodyTy,
) -> (r: bool)
    requires
        pats_ordered(old(body).pats@),
        forall|k: int| 0 <= k < fields@.len() ==> (#[trigger] fields@[k]).1.0 < pat.0,
    ensures
        same_except_binding_tys(*final(body), *old(body)),
        (binding_tys(*final(body)), r) == record_fields_spec(
            *sem,
            def_map.model(),
            old(body).pats@,
            binding_tys(*old(body)),
            pat,
            fields@.map_values(|f: (FieldKey, PatId)| (f.0@, f.1)),
            variant@,
            ty_model(*expected_ty),
        ),
    decreases pat.0, 0int,
{
    let ghost b0 = *body;
    let ghost model = def_map.model();
    let ghost views = fields@.map_values(|f: (FieldKey, PatId)| (f.0@, f.1));
    let mut changed = false;
    let mut k: usize = 0;
    while k < fields.len()
        invariant
            k <= fields@.len(),
            model == def_map.model(),
            views == fields@.map_values(|f: (FieldKey, PatId)| (f.0@, f.1)),
            forall|j: int| 0 <= j < fields@.len() ==> (#[trigger] fields@[j]).1.0 < pat.0,
            pats_ordered(b0.pats@),
            same_except_binding_tys(*body, b0),
            (binding_tys(*body), changed) == record_fields_spec(
                *sem,
                model,
                b0.pats@,
                binding_tys(b0),
                pat,
                views.take(k as int),
                variant@,
                ty_model(*expected_ty),
            ),
        decreases fields.len() - k,
    {
        proof {
            assert(views.take(k + 1).drop_last() =~= views.take(k as int));
            assert(views.take(k + 1)[k as int] == (fields@[k as int].0@, fields@[k as int].1));
        }
        if let Some(field_ty) = variant_field_ty(sem, def_map, expected_ty, variant, &fields[k].0) {
            let c = propagate_pat(sem, def_map, body, fields[k].1, &field_ty);
            changed = changed || c;
        }
        k = k + 1;
    }
    proof {
        assert(views.take(views.len() as int) =~= views);
    }
    changed
}

/// The alternatives of an or-pattern until one changes a binding, as [`or_spec`] states.
fn propagate_or(
    sem: &SemanticIndex,
    def_map: &DefMapDb,
    body: &mut BodyData,
    pat: PatId,
    alts: &Vec<PatId>,
    expected_ty: &BodyTy,
) -> (r: bool)
    requires
        pats_ordered(old(body).pats@),
        forall|k: int| 0 <= k < alts@.len() ==> (#[trigger] alts@[k]).0 < pat.0,
    ensures
        same_except_binding_tys(*final(body), *old(body)),
        (binding_tys(*final(body)), r) == or_spec(
            *sem,
            def_map.model(),
            old(body).pats@,
            binding_tys(*old(body)),
            pat,
            alts@,
            ty_model(*expected_ty),
        ),
    decreases pat.0, 0int,
{
    let ghost b0 = *body;
    let ghost model = def_map.model();
    let ghost target = or_spec(*sem, model, b0.pats@, binding_tys(b0), pat, alts@, ty_model(*expected_ty));
    proof {
        assert(alts@.skip(0) =~= alts@);
    }
    let mut k: usize = 0;
    while k < alts.len()
        invariant
            k <= alts@.len(),
            model == def_map.model(),
            forall|j: int| 0 <= j < alts@.len() ==> (#[trigger] alts@[j]).0 < pat.0,
            pats_ordered(b0.pats@),
            same_except_binding_tys(*body, b0),
            b0 == *old(body),
            target == or_spec(*sem, model, b0.pats@, binding_tys(b0), pat, alts@, ty_model(*expected_ty)),
            target == or_spec(*sem, model, b0.pats@, binding_tys(*body), pat, alts@.skip(k as int), ty_model(*expected_ty)),
        decreases alts.len() - k,
    {
        proof {
            assert(alts@.skip(k as int)[0] == alts@[k as int]);
            assert(alts@.skip(k as int).skip(1) =~= alts@.skip(k + 1));
        }
        let ghost bk = *body;
        let c = propagate_pat(sem, def_map, body, alts[k], expected_ty);
        proof {
            let r = propagate_pat_spec(*sem, model, b0.pats@, binding_tys(bk), alts@[k as int], ty_model(*expected_ty));
            assert(bk.pats == b0.pats);
            assert((binding_tys(*body), c) == r);
            assert(alts@[k as int].0 < pat.0);
            assert(or_spec(*sem, model, b0.pats@, binding_tys(bk), pat, alts@.skip(k as int), ty_model(*expected_ty)) == if r.1 {
                (r.0, true)
            } else {
                or_spec(*sem, model, b0.pats@, r.0, pat, alts@.skip(k as int).skip(1), ty_model(*expected_ty))
            });
        }
        if c {
            proof {
                assert(target == (binding_tys(*body), true));
                lemma_same_except_binding_tys_trans(*body, bk, b0);
            }
            return true;
        }
        proof {
            lemma_same_except_binding_tys_trans(*body, bk, b0);
        }
        k = k + 1;
    }
    false
}

/// The type a `let` pattern is expected to have: its annotation read in the statement's scope
/// when that is known, else the type of its initializer.
pub open spec fn let_expected_ty(
    sem: SemanticIndex,
    model: EnvModel,
    body: BodyData,
    body_ref: BodyRef,
    scope: ScopeId,
    annotation: Option<TypeRef>,
    initializer: Option<ExprId>,
) -> TyModel {
    let from_annotation = match annotation {
        Some(a) => scope_ty(sem, model, body, body_ref, a, scope, Seq::empty()),
        None => TyModel::Unknown,
    };
    if !(from_annotation is Unknown) {
        from_annotation
    } else {
        match initializer {
            Some(e) => ty_model(body.exprs@[e.0 as int].ty),
            None => TyModel::Unknown,
        }
    }
}

/// The patterns of the `let` statements among `statements`, in order, with their expected types.
pub open spec fn let_work(sem: SemanticIndex, model: EnvModel, body: BodyData, body_ref: BodyRef, statements: Seq<StmtData>) -> Seq<
    (PatId, TyModel),
>
    decreases statements.len(),
{
    if statements.len() == 0 {
        Seq::empty()
    } else {
        let before = let_work(sem, model, body, body_ref, statements.drop_last());
        match statements.last().kind {
            StmtKind::Let { scope, pat, annotation, initializer, .. } => match pat {
                Some(p) => before.push((p, let_expected_ty(sem, model, body, body_ref, scope, annotation, initializer))),
                None => before,
            },
            _ => before,
        }
    }
}

/// The patterns of the arms `arms`, in order, each expected to have type `expected`.
pub open spec fn arm_work(arms: Seq<MatchArmData>, expected: TyModel) -> Seq<(PatId, TyModel)>
    decreases arms.len(),
{
    if arms.len() == 0 {
        Seq::empty()
    } else {
        let before = arm_work(arms.drop_last(), expected);
        match arms.last().pat {
            Some(p) => before.push((p, expected)),
            None => before,
        }
    }
}

/// The arm patterns of the `match` expressions among `exprs`, in order, each expected to have
/// the type of its scrutinee.
pub open spec fn match_work(exprs: Seq<ExprData>, tys: Seq<TyModel>) -> Seq<(PatId, TyModel)>
    decreases exprs.len(),
{
    if exprs.len() == 0 {
        Seq::empty()
    } else {
        let before = match_work(exprs.drop_last(), tys);
        match exprs.last().kind {
            ExprKind::Match { scrutinee, arms } => match scrutinee {
                Some(s) => before + arm_work(arms@, tys[s.0 as int]),
                None => before,
            },
            _ => before,
        }
    }
}

/// Every pattern the pass visits, in order, with the type it is expected to have: the `let`
/// patterns first, then the arm patterns of each `match`.
pub open spec fn propagation_work(sem: SemanticIndex, model: EnvModel, body: BodyData, body_ref: BodyRef) -> Seq<(PatId, TyModel)> {
    let_work(sem, model, body, body_ref, body.statements@) + match_work(body.exprs@, body.exprs@.map_values(|e: ExprData| ty_model(e.ty)))
}

/// [`propagate_pat_spec`] over `work` in order; says whether any binding changed.
pub open spec fn propagate_work(sem: SemanticIndex, model: EnvModel, pats: Seq<PatData>, tys: Seq<TyModel>, work: Seq<(PatId, TyModel)>) -> (
    Seq<TyModel>,
    bool,
)
    decreases work.len(),
{
    if work.len() == 0 {
        (tys, false)
    } else {
        let before = propagate_work(sem, model, pats, tys, work.drop_last());
        let r = propagate_pat_spec(sem, model, pats, before.0, work.last().0, work.last().1);
        (r.0, before.1 || r.1)
    }
}

/// The expressions the pass reads exist: the initializers of `let` statements with a pattern,
/// and the scrutinees of `match` expressions.
pub open spec fn propagation_refs_in_range(body: BodyData) -> bool {
    &&& forall|i: int|
        0 <= i < body.statements@.len() ==> match (#[trigger] body.statements@[i]).kind {
            StmtKind::Let { pat: Some(_), initializer: Some(e), .. } => e.0 < body.exprs@.len(),
            _ => true,
        }
    &&& forall|i: int|
        0 <= i < body.exprs@.len() ==> match (#[trigger] body.exprs@[i]).kind {
            ExprKind::Match { scrutinee: Some(s), .. } => s.0 < body.exprs@.len(),
            _ => true,
        }
}

/// The type a `let` pattern is expected to have, as [`let_expected_ty`] states.
pub fn expected_ty_for_let(
    sem: &SemanticIndex,
    def_map: &DefMapDb,
    body: &BodyData,
    body_ref: BodyRef,
    scope: ScopeId,
    annotation: Option<&TypeRef>,
    initializer: Option<ExprId>,
) -> (r: BodyTy)
    requires
        match initializer {
            Some(e) => e.0 < body.exprs@.len(),
            None => true,
        },
    ensures
        ty_model(r) == let_expected_ty(
            *sem,
            def_map.model(),
            *body,
            body_ref,
            scope,
            match annotation {
                Some(a) => Some(*a),
                None => None,
            },
            initializer,
        ),
{
    if let Some(annotation) = annotation {
        let ty = ty_from_type_ref_in_scope(sem, def_map, body, body_ref, annotation, scope);
        match ty {
            BodyTy::Unknown => {},
            _ => return ty,
        }
    }
    match initializer {
        Some(e) => body.exprs[e.0].ty.duplicate(),
        None => BodyTy::Unknown,
    }
}

/// The models of a work list.
pub open spec fn work_models(work: Seq<(PatId, BodyTy)>) -> Seq<(PatId, TyModel)> {
    work.map_values(|w: (PatId, BodyTy)| (w.0, ty_model(w.1)))
}

/// Pushes already-known expected types into pattern bindings, as [`propagate_work`] states for
/// [`propagation_work`]; only the types of bindings change. Says whether any changed.
///
/// Expected types read nothing that the propagation changes, so they are all computed first.
pub fn propagate(sem: &SemanticIndex, def_map: &DefMapDb, body: &mut BodyData, body_ref: BodyRef) -> (r: bool)
    requires
        pats_ordered(old(body).pats@),
        propagation_refs_in_range(*old(body)),
    ensures
        same_except_binding_tys(*final(body), *old(body)),
        (binding_tys(*final(body)), r) == propagate_work(
            *sem,
            def_map.model(),
            old(body).pats@,
            binding_tys(*old(body)),
            propagation_work(*sem, def_map.model(), *old(body), body_ref),
        ),
{
    let ghost b0 = *body;
    let ghost model = def_map.model();
    let mut work: Vec<(PatId, BodyTy)> = Vec::new();
    let mut i: usize = 0;
    while i < body.statements.len()
        invariant
            i <= b0.statements@.len(),
            *body == b0,
            model == def_map.model(),
            propagation_refs_in_range(b0),
            work_models(work@) == let_work(*sem, model, b0, body_ref, b0.statements@.take(i as int)),
        decreases body.statements.len() - i,
    {
        proof {
            assert(b0.statements@.take(i + 1).drop_last() =~= b0.statements@.take(i as int));
            assert(b0.statements@.take(i + 1).last() == b0.statements@[i as int]);
        }
        if let StmtKind::Let { scope, pat: Some(pat), annotation, initializer, .. } = &body.statements[i].kind {
            let expected = expected_ty_for_let(
                sem,
                def_map,
                body,
                body_ref,
                *scope,
                match annotation {
                    Some(a) => Some(a),
                    None => None,
                },
                *initializer,
            );
            let item = (*pat, expected);
            proof {
                assert(work_models(work@.push(item)) =~= work_models(work@).push((item.0, ty_model(item.1))));
            }
            work.push(item);
        }
        i = i + 1;
    }
    proof {
        assert(b0.statements@.take(b0.statements@.len() as int) =~= b0.statements@);
    }
    let ghost lets = work_models(work@);
    let ghost tys = b0.exprs@.map_values(|e: ExprData| ty_model(e.ty));
    let mut i: usize = 0;
    while i < body.exprs.len()
        invariant
            i <= b0.exprs@.len(),
            *body == b0,
            tys == b0.exprs@.map_values(|e: ExprData| ty_model(e.ty)),
            propagation_refs_in_range(b0),
            work_models(work@) == lets + match_work(b0.exprs@.take(i as int), tys),
        decreases body.exprs.len() - i,
    {
        proof {
            assert(b0.exprs@.take(i + 1).drop_last() =~= b0.exprs@.take(i as int));
            assert(b0.exprs@.take(i + 1).last() == b0.exprs@[i as int]);
        }
        if let ExprKind::Match { scrutinee: Some(s), arms } = &body.exprs[i].kind {
            let ghost start = work_models(work@);
            proof {
                assert(tys[s.0 as int] == ty_model(b0.exprs@[s.0 as int].ty));
            }
            let mut k: usize = 0;
            while k < arms.len()
                invariant
                    k <= arms@.len(),
                    *body == b0,
                    s.0 < b0.exprs@.len(),
                    tys == b0.exprs@.map_values(|e: ExprData| ty_model(e.ty)),
                    work_models(work@) == start + arm_work(arms@.take(k as int), tys[s.0 as int]),
                decreases arms.len() - k,
            {
                proof {
                    assert(arms@.take(k + 1).drop_last() =~= arms@.take(k as int));
                    assert(arms@.take(k + 1).last() == arms@[k as int]);
                }
                if let Some(p) = arms[k].pat {
                    let item = (p, body.exprs[s.0].ty.duplicate());
                    proof {
                        assert(work_models(work@.push(item)) =~= work_models(work@).push((item.0, ty_model(item.1))));
                        assert(start + arm_work(arms@.take(k + 1), tys[s.0 as int]) =~= (start + arm_work(arms@.take(k as int), tys[s.0 as int])).push(
                            (p, tys[s.0 as int]),
                        ));
                    }
                    work.push(item);
                } else {
                    proof {
                        assert(arm_work(arms@.take(k + 1), tys[s.0 as int]) == arm_work(arms@.take(k as int), tys[s.0 as int]));
                    }
                }
                k = k + 1;
            }
            proof {
                assert(arms@.take(arms@.len() as int) =~= arms@);
                assert(lets + match_work(b0.exprs@.take(i + 1), tys) =~= (lets + match_work(b0.exprs@.take(i as int), tys)) + arm_work(
                    arms@,
                    tys[s.0 as int],
                ));
            }
        }
        i = i + 1;
    }
    proof {
        assert(b0.exprs@.take(b0.exprs@.len() as int) =~= b0.exprs@);
    }
    let ghost all = work_models(work@);
    let mut changed = false;
    let mut j: usize = 0;
    while j < work.len()
        invariant
            j <= work@.len(),
            model == def_map.model(),
            all == work_models(work@),
            pats_ordered(b0.pats@),
            same_except_binding_tys(*body, b0),
            (binding_tys(*body), changed) == propagate_work(*sem, model, b0.pats@, binding_tys(b0), all.take(j as int)),
        decreases work.len() - j,
    {
        proof {
            assert(all.take(j + 1).drop_last() =~= all.take(j as int));
            assert(all.take(j + 1).last() == (work@[j as int].0, ty_model(work@[j as int].1)));
        }
        let ghost bj = *body;
        let c = propagate_pat(sem, def_map, body, work[j].0, &work[j].1);
        proof {
            lemma_same_except_binding_tys_trans(*body, bj, b0);
        }
        changed = changed || c;
        j = j + 1;
    }
    proof {
        assert(all.take(all.len() as int) =~= all);
    }
    changed
}

} // verus!
