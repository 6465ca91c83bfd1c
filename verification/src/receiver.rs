//! Generic arguments in Body IR types: substituting known type parameters, carrying the
//! arguments a type path writes, and deciding whether a method of an impl applies to a receiver
//! whose generic arguments are known.
//!
//! The matching is shallow on purpose: impl type parameters match anything, while concrete
//! arguments such as `impl Wrapper<User>` must equal the receiver's known arguments.

use vstd::prelude::*;

use crate::body::{BodyGenericArg, BodyNominalTy, BodyTy};
use crate::body_infer::type_path_view;
use crate::body_resolve::BodyTypePathResolution;
use crate::body_ty::{
    LocalNominalModel, NominalModel, TyArgModel, TyModel, duplicate_ty_args, local_nominal_model,
    local_nominal_models, nominal_model, nominal_models, ty_arg_model, ty_arg_models, ty_model, ty_models,
};
use crate::cursor::path_from_type_path_prefix;
use crate::db::DefMapDb;
use crate::item_tree::{FunctionRef, GenericArg, GenericParams, TypeParamItem, TypePath, TypeRef, type_model};
use crate::path::{Path, PathView};
use crate::resolution::EnvModel;
use crate::semantic::{
    ImplRef, ItemOwner, SemanticImpl, SemanticIndex, TypePathContext, TypePathView, semantic_type_path,
};

verus! {

/// Model of a substitution: each type parameter name with the type it stands for.
pub open spec fn subst_model(subst: Seq<(String, BodyTy)>) -> Seq<(Seq<char>, TyModel)> {
    subst.map_values(|p: (String, BodyTy)| (p.0@, ty_model(p.1)))
}

/// The type that the last entry for `name` in `subst` gives it.
pub open spec fn subst_lookup(subst: Seq<(Seq<char>, TyModel)>, name: Seq<char>) -> Option<TyModel>
    decreases subst.len(),
{
    if subst.len() == 0 {
        None
    } else if subst.last().0 == name {
        Some(subst.last().1)
    } else {
        subst_lookup(subst.drop_last(), name)
    }
}

/// The type a path stands for under `subst`: only a plain name can be a type parameter.
pub open spec fn substituted(path: PathView, subst: Seq<(Seq<char>, TyModel)>) -> Option<TyModel> {
    match path.single_name() {
        Some(name) => subst_lookup(subst, name),
        None => None,
    }
}

/// The type a resolved path denotes, carrying the generic arguments written on the path: every
/// named type gets the same arguments; otherwise `fallback`.
pub open spec fn ty_with_args(res: TypePathView, fallback: TyModel, args: Seq<TyArgModel>) -> TyModel {
    match res {
        TypePathView::BodyLocal(item) => TyModel::LocalNominal(seq![LocalNominalModel { item, args }]),
        TypePathView::SelfType(types) => TyModel::SelfTy(types.map_values(|d: crate::item_tree::TypeDefRef| NominalModel { def: d, args })),
        TypePathView::TypeDefs(types) => TyModel::Nominal(types.map_values(|d: crate::item_tree::TypeDefRef| NominalModel { def: d, args })),
        TypePathView::Traits(_) => fallback,
        TypePathView::Unknown => fallback,
    }
}

/// The type a written type denotes in `context` under `subst`: a plain name that `subst` maps
/// is replaced; other paths resolve through the semantic index and carry the arguments of their
/// last segment; the other forms are as for signatures without substitution.
pub open spec fn subst_ty(
    sem: SemanticIndex,
    model: EnvModel,
    ty: TypeRef,
    context: TypePathContext,
    fallback: TyModel,
    subst: Seq<(Seq<char>, TyModel)>,
) -> TyModel
    decreases ty,
{
    match ty {
        TypeRef::Unit => TyModel::Unit,
        TypeRef::Never => TyModel::Never,
        TypeRef::Path(path) => match substituted(type_path_view(path), subst) {
            Some(t) => t,
            None => ty_with_args(
                semantic_type_path(sem, model, context, type_path_view(path)),
                fallback,
                path_args(sem, model, path, context, subst),
            ),
        },
        TypeRef::Unknown(_) => TyModel::Unknown,
        TypeRef::Infer => TyModel::Unknown,
        TypeRef::Tuple(types) => if types@.len() == 0 {
            TyModel::Unit
        } else {
            TyModel::Syntax(type_model(ty))
        },
        _ => TyModel::Syntax(type_model(ty)),
    }
}

/// The generic arguments written on the last segment of a path, converted under `subst`.
pub open spec fn path_args(
    sem: SemanticIndex,
    model: EnvModel,
    path: TypePath,
    context: TypePathContext,
    subst: Seq<(Seq<char>, TyModel)>,
) -> Seq<TyArgModel>
    decreases path,
{
    if path.segments@.len() == 0 {
        Seq::empty()
    } else {
        proof {
            assert(decreases_to!(path => path.segments));
            assert(decreases_to!(path.segments => path.segments@));
            assert(decreases_to!(path.segments@ => path.segments@[path.segments@.len() - 1]));
            assert(decreases_to!(path.segments@[path.segments@.len() - 1] => path.segments@[path.segments@.len() - 1].args));
            assert(decreases_to!(path.segments@[path.segments@.len() - 1].args => path.segments@[path.segments@.len() - 1].args@));
        }
        subst_args(sem, model, path.segments@[path.segments@.len() - 1].args@, context, subst)
    }
}

/// Generic arguments converted under `subst`, in order.
pub open spec fn subst_args(
    sem: SemanticIndex,
    model: EnvModel,
    args: Seq<GenericArg>,
    context: TypePathContext,
    subst: Seq<(Seq<char>, TyModel)>,
) -> Seq<TyArgModel>
    decreases args,
{
    if args.len() == 0 {
        Seq::empty()
    } else {
        subst_args(sem, model, args.drop_last(), context, subst).push(subst_arg(sem, model, args.last(), context, subst))
    }
}

/// One generic argument converted under `subst`; a type argument that names no type stays as
/// written.
pub open spec fn subst_arg(
    sem: SemanticIndex,
    model: EnvModel,
    arg: GenericArg,
    context: TypePathContext,
    subst: Seq<(Seq<char>, TyModel)>,
) -> TyArgModel
    decreases arg,
{
    match arg {
        GenericArg::Type(t) => TyArgModel::Type(subst_ty(sem, model, t, context, TyModel::Syntax(type_model(t)), subst)),
        GenericArg::Lifetime(text) => TyArgModel::Lifetime(text@),
        GenericArg::Const(text) => TyArgModel::Const(text@),
        GenericArg::AssocType { name, ty } => TyArgModel::AssocType(name@, match ty {
            Some(t) => Some(subst_ty(sem, model, t, context, TyModel::Syntax(type_model(t)), subst)),
            None => None,
        }),
        GenericArg::Unsupported(text) => TyArgModel::Unsupported(text@),
    }
}

/// The type written as a generic argument, if it is one.
pub fn generic_arg_type_ref(arg: &GenericArg) -> (r: Option<&TypeRef>)
    ensures
        match r {
            Some(t) => *arg == GenericArg::Type(*t),
            None => !(*arg is Type),
        },
{
    match arg {
        GenericArg::Type(ty) => Some(ty),
        _ => None,
    }
}

/// The type of a Body IR generic argument, if it is a type.
pub fn body_generic_arg_ty(arg: &BodyGenericArg) -> (r: Option<BodyTy>)
    ensures
        match *arg {
            BodyGenericArg::Type(t) => r matches Some(u) && ty_model(u) == ty_model(*t),
            _ => r is None,
        },
{
    match arg {
        BodyGenericArg::Type(ty) => Some((**ty).duplicate()),
        _ => None,
    }
}

/// The name a type could be a type parameter under: a plain one-segment path.
pub open spec fn type_param_name(ty: TypeRef) -> Option<Seq<char>> {
    match ty {
        TypeRef::Path(path) => type_path_view(path).single_name(),
        _ => None,
    }
}

/// The name a type could be a type parameter under, as [`type_param_name`] states.
pub fn type_param_name_from_type_ref(ty: &TypeRef) -> (r: Option<String>)
    ensures
        match r {
            Some(name) => type_param_name(*ty) == Some(name@),
            None => type_param_name(*ty) is None,
        },
{
    match ty {
        TypeRef::Path(type_path) => {
            let path = path_from_type_path_prefix(type_path, type_path.segments.len());
            match path.single_name() {
                Some(name) => Some(name.clone()),
                None => None,
            }
        },
        _ => None,
    }
}

/// Whether a type is written `Self`.
pub fn type_ref_is_self(ty: &TypeRef) -> (r: bool)
    ensures
        r == match *ty {
            TypeRef::Path(path) => type_path_view(path).is_self_type(),
            _ => false,
        },
{
    match ty {
        TypeRef::Path(type_path) => {
            let path = path_from_type_path_prefix(type_path, type_path.segments.len());
            path.is_self_type()
        },
        _ => false,
    }
}

/// The type that `subst` gives the plain name `path`, as [`substituted`] states.
pub fn substitute_type_param(path: &Path, subst: &Vec<(String, BodyTy)>) -> (r: Option<BodyTy>)
    ensures
        match r {
            Some(t) => substituted(path@, subst_model(subst@)) == Some(ty_model(t)),
            None => substituted(path@, subst_model(subst@)) is None,
        },
{
    let name = match path.single_name() {
        Some(name) => name,
        None => return None,
    };
    let ghost m = subst_model(subst@);
    let mut i: usize = subst.len();
    proof {
        assert(m.take(i as int) =~= m);
    }
    while i > 0
        invariant
            i <= subst@.len(),
            m == subst_model(subst@),
            path@.single_name() == Some(name@),
            subst_lookup(m, name@) == subst_lookup(m.take(i as int), name@),
        decreases i,
    {
        i = i - 1;
        proof {
            assert(m.take(i + 1).drop_last() =~= m.take(i as int));
            assert(m.take(i + 1).last() == m[i as int]);
        }
        proof {
            assert(m[i as int] == (subst@[i as int].0@, ty_model(subst@[i as int].1)));
        }
        if subst[i].0 == *name {
            let t = subst[i].1.duplicate();
            proof {
                assert(subst_lookup(m.take(i + 1), name@) == Some(m[i as int].1));
            }
            return Some(t);
        }
    }
    None
}

proof fn lemma_ty_arg_models_push(out: Seq<BodyGenericArg>, a: BodyGenericArg)
    ensures
        ty_arg_models(out.push(a)) == ty_arg_models(out).push(ty_arg_model(a)),
{
    assert(out.push(a).drop_last() =~= out);
    assert(out.push(a).last() == a);
}

/// Nominal types with the same generic arguments for each of `defs`.
fn nominals_with_args(defs: &Vec<crate::item_tree::TypeDefRef>, args: &Vec<BodyGenericArg>) -> (r: Vec<BodyNominalTy>)
    ensures
        nominal_models(r@) == defs@.map_values(|d: crate::item_tree::TypeDefRef| NominalModel { def: d, args: ty_arg_models(args@) }),
{
    let mut out: Vec<BodyNominalTy> = Vec::new();
    let mut i: usize = 0;
    while i < defs.len()
        invariant
            i <= defs@.len(),
            nominal_models(out@) == defs@.take(i as int).map_values(
                |d: crate::item_tree::TypeDefRef| NominalModel { def: d, args: ty_arg_models(args@) },
            ),
        decreases defs.len() - i,
    {
        let n = BodyNominalTy { def: defs[i], args: duplicate_ty_args(args) };
        proof {
            assert(out@.push(n).drop_last() =~= out@);
            assert(out@.push(n).last() == n);
            assert(nominal_model(n) == NominalModel { def: defs@[i as int], args: ty_arg_models(args@) });
            assert(defs@.take(i + 1).map_values(|d: crate::item_tree::TypeDefRef| NominalModel { def: d, args: ty_arg_models(args@) })
                =~= defs@.take(i as int).map_values(
                |d: crate::item_tree::TypeDefRef| NominalModel { def: d, args: ty_arg_models(args@) },
            ).push(NominalModel { def: defs@[i as int], args: ty_arg_models(args@) }));
        }
        out.push(n);
        i = i + 1;
    }
    proof {
        assert(defs@.take(defs@.len() as int) =~= defs@);
    }
    out
}

/// The type a resolved path denotes with the arguments written on it, as [`ty_with_args`]
/// states.
pub fn ty_from_body_resolution(res: BodyTypePathResolution, fallback: BodyTy, args: Vec<BodyGenericArg>) -> (r: BodyTy)
    ensures
        ty_model(r) == ty_with_args(res@, ty_model(fallback), ty_arg_models(args@)),
{
    match res {
        BodyTypePathResolution::BodyLocal(item) => {
            let n = crate::body::BodyLocalNominalTy { item, args };
            let mut v: Vec<crate::body::BodyLocalNominalTy> = Vec::new();
            v.push(n);
            proof {
                assert(v@.drop_last() =~= Seq::<crate::body::BodyLocalNominalTy>::empty());
                assert(local_nominal_models(v@.drop_last()) =~= Seq::<LocalNominalModel>::empty());
                assert(v@.last() == n);
                assert(local_nominal_model(n) == LocalNominalModel { item, args: ty_arg_models(n.args@) });
                assert(local_nominal_models(v@) =~= seq![LocalNominalModel { item, args: ty_arg_models(n.args@) }]);
            }
            BodyTy::LocalNominal(v)
        },
        BodyTypePathResolution::SelfType(types) => BodyTy::SelfTy(nominals_with_args(&types, &args)),
        BodyTypePathResolution::TypeDefs(types) => BodyTy::Nominal(nominals_with_args(&types, &args)),
        BodyTypePathResolution::Traits(_) => fallback,
        BodyTypePathResolution::Unknown => fallback,
    }
}

/// Converts a written type in `context` under `subst`, as [`subst_ty`] states.
pub fn ty_from_type_ref_in_context(
    sem: &SemanticIndex,
    def_map: &DefMapDb,
    ty: &TypeRef,
    context: TypePathContext,
    unresolved_path_fallback: BodyTy,
    subst: &Vec<(String, BodyTy)>,
) -> (r: BodyTy)
    ensures
        ty_model(r) == subst_ty(*sem, def_map.model(), *ty, context, ty_model(unresolved_path_fallback), subst_model(subst@)),
    decreases ty,
{
    match ty {
        TypeRef::Unit => BodyTy::Unit,
        TypeRef::Never => BodyTy::Never,
        TypeRef::Path(type_path) => {
            proof {
                assert(decreases_to!(*ty => ty->Path_0));
            }
            let path = path_from_type_path_prefix(type_path, type_path.segments.len());
            if let Some(t) = substitute_type_param(&path, subst) {
                return t;
            }
            let args = generic_args_from_type_path_in_context(sem, def_map, type_path, context, subst);
            let res = sem.resolve_type_path(def_map, context, &path);
            ty_from_body_resolution(res, unresolved_path_fallback, args)
        },
        TypeRef::Unknown(_) => BodyTy::Unknown,
        TypeRef::Infer => BodyTy::Unknown,
        TypeRef::Tuple(types) => {
            if types.len() == 0 {
                BodyTy::Unit
            } else {
                BodyTy::Syntax(ty.duplicate())
            }
        },
        _ => BodyTy::Syntax(ty.duplicate()),
    }
}

/// The generic arguments of the last segment of a path, as [`path_args`] states.
fn generic_args_from_type_path_in_context(
    sem: &SemanticIndex,
    def_map: &DefMapDb,
    type_path: &TypePath,
    context: TypePathContext,
    subst: &Vec<(String, BodyTy)>,
) -> (r: Vec<BodyGenericArg>)
    ensures
        ty_arg_models(r@) == path_args(*sem, def_map.model(), *type_path, context, subst_model(subst@)),
    decreases type_path,
{
    let n = type_path.segments.len();
    if n == 0 {
        return Vec::new();
    }
    proof {
        assert(decreases_to!(*type_path => type_path.segments));
        assert(decreases_to!(type_path.segments => type_path.segments@));
        assert(decreases_to!(type_path.segments@ => type_path.segments@[n - 1]));
        assert(decreases_to!(type_path.segments@[n - 1] => type_path.segments@[n - 1].args));
    }
    generic_args_from_item_tree_args_in_context(sem, def_map, &type_path.segments[n - 1].args, context, subst)
}

/// Generic arguments converted under `subst`, as [`subst_args`] states.
fn generic_args_from_item_tree_args_in_context(
    sem: &SemanticIndex,
    def_map: &DefMapDb,
    args: &Vec<GenericArg>,
    context: TypePathContext,
    subst: &Vec<(String, BodyTy)>,
) -> (r: Vec<BodyGenericArg>)
    ensures
        ty_arg_models(r@) == subst_args(*sem, def_map.model(), args@, context, subst_model(subst@)),
    decreases args,
{
    let mut out: Vec<BodyGenericArg> = Vec::new();
    let mut i: usize = 0;
    while i < args.len()
        invariant
            i <= args@.len(),
            ty_arg_models(out@) == subst_args(*sem, def_map.model(), args@.take(i as int), context, subst_model(subst@)),
        decreases args.len() - i,
    {
        proof {
            assert(decreases_to!(*args => args@));
            assert(decreases_to!(args@ => args@[i as int]));
            assert(args@.take(i + 1).drop_last() =~= args@.take(i as int));
            assert(args@.take(i + 1).last() == args@[i as int]);
        }
        let a = generic_arg_from_item_tree_arg_in_context(sem, def_map, &args[i], context, subst);
        proof {
            lemma_ty_arg_models_push(out@, a);
        }
        out.push(a);
        i = i + 1;
    }
    proof {
        assert(args@.take(args@.len() as int) =~= args@);
    }
    out
}

/// One generic argument converted under `subst`, as [`subst_arg`] states.
fn generic_arg_from_item_tree_arg_in_context(
    sem: &SemanticIndex,
    def_map: &DefMapDb,
    arg: &GenericArg,
    context: TypePathContext,
    subst: &Vec<(String, BodyTy)>,
) -> (r: BodyGenericArg)
    ensures
        ty_arg_model(r) == subst_arg(*sem, def_map.model(), *arg, context, subst_model(subst@)),
    decreases arg,
{
    match arg {
        GenericArg::Type(ty) => {
            proof {
                assert(decreases_to!(*arg => arg->Type_0));
            }
            BodyGenericArg::Type(Box::new(ty_from_type_ref_in_context(sem, def_map, ty, context, BodyTy::Syntax(ty.duplicate()), subst)))
        },
        GenericArg::Lifetime(text) => BodyGenericArg::Lifetime(text.clone()),
        GenericArg::Const(text) => BodyGenericArg::Const(text.clone()),
        GenericArg::AssocType { name, ty } => {
            let converted = match ty {
                Some(t) => {
                    proof {
                        assert(decreases_to!(*arg => arg->AssocType_ty));
                        assert(decreases_to!(arg->AssocType_ty => arg->AssocType_ty->0));
                    }
                    Some(Box::new(ty_from_type_ref_in_context(sem, def_map, t, context, BodyTy::Syntax(t.duplicate()), subst)))
                },
                None => None,
            };
            BodyGenericArg::AssocType { name: name.clone(), ty: converted }
        },
        GenericArg::Unsupported(text) => BodyGenericArg::Unsupported(text.clone()),
    }
}

/// The names of the type parameters of an item.
pub open spec fn type_param_names(generics: GenericParams) -> Seq<Seq<char>> {
    generics.types@.map_values(|p: TypeParamItem| p.name@)
}

/// The types among written generic arguments, in order.
pub open spec fn type_arg_refs(args: Seq<GenericArg>) -> Seq<TypeRef>
    decreases args.len(),
{
    if args.len() == 0 {
        Seq::empty()
    } else {
        let before = type_arg_refs(args.drop_last());
        match args.last() {
            GenericArg::Type(t) => before.push(t),
            _ => before,
        }
    }
}

/// The types among the generic arguments of a Body IR type, in order.
pub open spec fn receiver_type_args(args: Seq<BodyGenericArg>) -> Seq<TyModel>
    decreases args.len(),
{
    if args.len() == 0 {
        Seq::empty()
    } else {
        let before = receiver_type_args(args.drop_last());
        match args.last() {
            BodyGenericArg::Type(t) => before.push(ty_model(*t)),
            _ => before,
        }
    }
}

/// The types among the generic arguments of a type model, in order.
pub open spec fn model_type_args(args: Seq<TyArgModel>) -> Seq<TyModel>
    decreases args.len(),
{
    if args.len() == 0 {
        Seq::empty()
    } else {
        let before = model_type_args(args.drop_last());
        match args.last() {
            TyArgModel::Type(t) => before.push(t),
            _ => before,
        }
    }
}

/// The types among the generic arguments of a Body IR type are those of its model.
pub proof fn lemma_model_type_args(args: Seq<BodyGenericArg>)
    ensures
        receiver_type_args(args) == model_type_args(ty_arg_models(args)),
    decreases args.len(),
{
    if args.len() > 0 {
        lemma_model_type_args(args.drop_last());
        let m = ty_arg_models(args);
        assert(m == ty_arg_models(args.drop_last()).push(ty_arg_model(args.last())));
        assert(m.drop_last() =~= ty_arg_models(args.drop_last()));
        assert(m.last() == ty_arg_model(args.last()));
    }
}

/// One written argument of an impl's self type is compatible with the receiver's argument: it
/// is a type parameter of the impl, or it denotes the same type in the impl's context.
pub open spec fn impl_arg_matches(
    sem: SemanticIndex,
    model: EnvModel,
    impl_ref: ImplRef,
    data: SemanticImpl,
    impl_arg: TypeRef,
    receiver_arg: TyModel,
) -> bool {
    (match type_param_name(impl_arg) {
        Some(name) => type_param_names(data.generics).contains(name),
        None => false,
    }) || subst_ty(
        sem,
        model,
        impl_arg,
        TypePathContext { module: data.owner, impl_ref: Some(impl_ref) },
        TyModel::Syntax(type_model(impl_arg)),
        Seq::empty(),
    ) == receiver_arg
}

/// The impl's self type is compatible with the receiver: when its last segment writes type
/// arguments, the receiver has as many, and each pair is compatible.
pub open spec fn impl_self_args_match(sem: SemanticIndex, model: EnvModel, impl_ref: ImplRef, data: SemanticImpl, receiver: NominalModel) -> bool {
    match data.self_ty {
        TypeRef::Path(path) => if path.segments@.len() == 0 {
            true
        } else {
            let impl_args = type_arg_refs(path.segments@[path.segments@.len() - 1].args@);
            let receiver_args = model_type_args(receiver.args);
            impl_args.len() == 0 || (impl_args.len() == receiver_args.len() && forall|k: int|
                0 <= k < impl_args.len() ==> #[trigger] impl_arg_matches(sem, model, impl_ref, data, impl_args[k], receiver_args[k]))
        },
        _ => true,
    }
}

/// A module-level function is a method candidate for the receiver: functions outside impls
/// always are; an impl function is when the impl's self types include the receiver's type and
/// its self arguments are compatible.
pub open spec fn function_applies(sem: SemanticIndex, model: EnvModel, function: FunctionRef, receiver: NominalModel) -> bool {
    match sem.function_spec(function) {
        None => false,
        Some(data) => match data.owner {
            ItemOwner::Impl(id) => {
                let impl_ref = ImplRef { target: function.target, id };
                match sem.impl_spec(impl_ref) {
                    None => false,
                    Some(imp) => imp.resolved_self_tys@.contains(receiver.def) && impl_self_args_match(sem, model, impl_ref, imp, receiver),
                }
            },
            _ => true,
        },
    }
}

/// The substitution that the first `n` pairs of impl arguments and receiver arguments give:
/// each impl argument that is a type parameter of the impl stands for the receiver's argument.
pub open spec fn self_subst_pairs(impl_args: Seq<TypeRef>, receiver_args: Seq<TyModel>, params: Seq<Seq<char>>, n: int) -> Seq<
    (Seq<char>, TyModel),
>
    decreases n,
{
    if n <= 0 {
        Seq::empty()
    } else {
        let before = self_subst_pairs(impl_args, receiver_args, params, n - 1);
        match type_param_name(impl_args[n - 1]) {
            Some(name) => if params.contains(name) {
                before.push((name, receiver_args[n - 1]))
            } else {
                before
            },
            None => before,
        }
    }
}

/// The substitution an impl method's header gives for a receiver: for `impl<U> Wrapper<U>`, a
/// `Wrapper<User>` receiver gives `U` as `User`. Functions outside impls give none.
pub open spec fn impl_self_subst(sem: SemanticIndex, function: FunctionRef, receiver: NominalModel) -> Seq<(Seq<char>, TyModel)> {
    match sem.function_spec(function) {
        None => Seq::empty(),
        Some(data) => match data.owner {
            ItemOwner::Impl(id) => match sem.impl_spec(ImplRef { target: function.target, id }) {
                None => Seq::empty(),
                Some(imp) => match imp.self_ty {
                    TypeRef::Path(path) => if path.segments@.len() == 0 {
                        Seq::empty()
                    } else {
                        let impl_args = type_arg_refs(path.segments@[path.segments@.len() - 1].args@);
                        let receiver_args = model_type_args(receiver.args);
                        let n = if impl_args.len() < receiver_args.len() {
                            impl_args.len()
                        } else {
                            receiver_args.len()
                        };
                        self_subst_pairs(impl_args, receiver_args, type_param_names(imp.generics), n as int)
                    },
                    _ => Seq::empty(),
                },
            },
            _ => Seq::empty(),
        },
    }
}

/// The substitution a use of a generic item gives: its type parameters, in order, stand for the
/// type arguments of the use, as far as both go.
pub open spec fn generics_subst(generics: GenericParams, args: Seq<BodyGenericArg>) -> Seq<(Seq<char>, TyModel)> {
    let names = type_param_names(generics);
    let tys = receiver_type_args(args);
    let n = if names.len() < tys.len() {
        names.len()
    } else {
        tys.len()
    };
    Seq::new(n, |i: int| (names[i], tys[i]))
}

/// The names of the type parameters of an item, as [`type_param_names`] states.
pub fn impl_type_param_names(generics: &GenericParams) -> (r: Vec<String>)
    ensures
        r@.map_values(|s: String| s@) == type_param_names(*generics),
{
    let mut out: Vec<String> = Vec::new();
    let mut i: usize = 0;
    while i < generics.types.len()
        invariant
            i <= generics.types@.len(),
            out@.map_values(|s: String| s@) == generics.types@.take(i as int).map_values(|p: TypeParamItem| p.name@),
        decreases generics.types.len() - i,
    {
        let ghost before = out@;
        let name = generics.types[i].name.clone();
        out.push(name);
        proof {
            assert(out@ == before.push(name));
            assert(out@.map_values(|s: String| s@) =~= before.map_values(|s: String| s@).push(name@));
            assert(generics.types@.take(i + 1).map_values(|p: TypeParamItem| p.name@) =~= generics.types@.take(i as int).map_values(
                |p: TypeParamItem| p.name@,
            ).push(generics.types@[i as int].name@));
        }
        i = i + 1;
    }
    proof {
        assert(generics.types@.take(generics.types@.len() as int) =~= generics.types@);
    }
    out
}

/// Whether `names` holds `name`.
fn names_contain(names: &Vec<String>, name: &String) -> (r: bool)
    ensures
        r == names@.map_values(|s: String| s@).contains(name@),
{
    let ghost m = names@.map_values(|s: String| s@);
    let mut i: usize = 0;
    while i < names.len()
        invariant
            i <= names@.len(),
            m == names@.map_values(|s: String| s@),
            forall|j: int| 0 <= j < i ==> m[j] != name@,
        decreases names.len() - i,
    {
        if names[i] == *name {
            proof {
                assert(m[i as int] == name@);
            }
            return true;
        }
        i = i + 1;
    }
    false
}

/// The types among the generic arguments of a Body IR type, as [`receiver_type_args`] states.
fn type_args_of(args: &Vec<BodyGenericArg>) -> (r: Vec<BodyTy>)
    ensures
        ty_models(r@) == receiver_type_args(args@),
{
    let mut out: Vec<BodyTy> = Vec::new();
    let mut i: usize = 0;
    while i < args.len()
        invariant
            i <= args@.len(),
            ty_models(out@) == receiver_type_args(args@.take(i as int)),
        decreases args.len() - i,
    {
        proof {
            assert(args@.take(i + 1).drop_last() =~= args@.take(i as int));
            assert(args@.take(i + 1).last() == args@[i as int]);
        }
        if let Some(t) = body_generic_arg_ty(&args[i]) {
            proof {
                assert(ty_models(out@.push(t)) =~= ty_models(out@).push(ty_model(t)));
            }
            out.push(t);
        }
        i = i + 1;
    }
    proof {
        assert(args@.take(args@.len() as int) =~= args@);
    }
    out
}

/// The types among written generic arguments, as [`type_arg_refs`] states.
fn type_arg_refs_of(args: &Vec<GenericArg>) -> (r: Vec<&TypeRef>)
    ensures
        r@.len() == type_arg_refs(args@).len(),
        forall|k: int| 0 <= k < r@.len() ==> *#[trigger] r@[k] == type_arg_refs(args@)[k],
{
    let mut out: Vec<&TypeRef> = Vec::new();
    let mut i: usize = 0;
    while i < args.len()
        invariant
            i <= args@.len(),
            out@.len() == type_arg_refs(args@.take(i as int)).len(),
            forall|k: int| 0 <= k < out@.len() ==> *#[trigger] out@[k] == type_arg_refs(args@.take(i as int))[k],
        decreases args.len() - i,
    {
        proof {
            assert(args@.take(i + 1).drop_last() =~= args@.take(i as int));
            assert(args@.take(i + 1).last() == args@[i as int]);
        }
        if let Some(t) = generic_arg_type_ref(&args[i]) {
            out.push(t);
        }
        i = i + 1;
    }
    proof {
        assert(args@.take(args@.len() as int) =~= args@);
    }
    out
}

/// Whether an impl's self type is compatible with the receiver, as [`impl_self_args_match`]
/// states.
pub fn impl_self_args_match_receiver(
    sem: &SemanticIndex,
    def_map: &DefMapDb,
    impl_ref: ImplRef,
    impl_data: &SemanticImpl,
    receiver_ty: &BodyNominalTy,
) -> (r: bool)
    ensures
        r == impl_self_args_match(*sem, def_map.model(), impl_ref, *impl_data, nominal_model(*receiver_ty)),
{
    proof {
        lemma_model_type_args(receiver_ty.args@);
        assert(nominal_model(*receiver_ty).args == ty_arg_models(receiver_ty.args@));
        assert(model_type_args(nominal_model(*receiver_ty).args) == crate::receiver::receiver_type_args(receiver_ty.args@));
    }
    let type_path = match &impl_data.self_ty {
        TypeRef::Path(path) => path,
        _ => return true,
    };
    let n = type_path.segments.len();
    if n == 0 {
        return true;
    }
    let segment = &type_path.segments[n - 1];
    let impl_type_args = type_arg_refs_of(&segment.args);
    if impl_type_args.len() == 0 {
        return true;
    }
    let receiver_type_args = type_args_of(&receiver_ty.args);
    let ghost impl_args = type_arg_refs(type_path.segments@[n - 1].args@);
    let ghost receiver_args = crate::receiver::receiver_type_args(receiver_ty.args@);
    proof {
        assert(ty_models(receiver_type_args@).len() == receiver_type_args@.len());
        lemma_model_type_args(receiver_ty.args@);
    }
    if impl_type_args.len() != receiver_type_args.len() {
        return false;
    }
    let impl_type_params = impl_type_param_names(&impl_data.generics);
    let context = TypePathContext { module: impl_data.owner, impl_ref: Some(impl_ref) };
    let mut k: usize = 0;
    while k < impl_type_args.len()
        invariant
            k <= impl_type_args@.len(),
            impl_type_args@.len() == impl_args.len(),
            receiver_type_args@.len() == impl_args.len(),
            forall|j: int| 0 <= j < impl_type_args@.len() ==> *#[trigger] impl_type_args@[j] == impl_args[j],
            ty_models(receiver_type_args@) == receiver_args,
            impl_type_params@.map_values(|s: String| s@) == type_param_names(impl_data.generics),
            context == (TypePathContext { module: impl_data.owner, impl_ref: Some(impl_ref) }),
            impl_data.self_ty == TypeRef::Path(*type_path),
            n == type_path.segments@.len(),
            n > 0,
            impl_args == type_arg_refs(type_path.segments@[n - 1].args@),
            receiver_args == crate::receiver::receiver_type_args(receiver_ty.args@),
            model_type_args(nominal_model(*receiver_ty).args) == receiver_args,
            impl_args.len() > 0,
            forall|j: int| 0 <= j < k ==> #[trigger] impl_arg_matches(*sem, def_map.model(), impl_ref, *impl_data, impl_args[j], receiver_args[j]),
        decreases impl_type_args.len() - k,
    {
        let impl_arg = impl_type_args[k];
        let is_param = match type_param_name_from_type_ref(impl_arg) {
            Some(name) => names_contain(&impl_type_params, &name),
            None => false,
        };
        if !is_param {
            let converted = ty_from_type_ref_in_context(sem, def_map, impl_arg, context, BodyTy::Syntax(impl_arg.duplicate()), &Vec::new());
            proof {
                assert(subst_model(Seq::<(String, BodyTy)>::empty()) =~= Seq::<(Seq<char>, TyModel)>::empty());
                assert(ty_models(receiver_type_args@)[k as int] == ty_model(receiver_type_args@[k as int]));
            }
            if !converted.same_as(&receiver_type_args[k]) {
                proof {
                    assert(!impl_arg_matches(*sem, def_map.model(), impl_ref, *impl_data, impl_args[k as int], receiver_args[k as int]));
                }
                return false;
            }
        }
        k = k + 1;
    }
    true
}

/// Whether a module-level function is a method candidate for the receiver, as
/// [`function_applies`] states.
pub fn semantic_function_applies_to_receiver(sem: &SemanticIndex, def_map: &DefMapDb, function_ref: FunctionRef, receiver_ty: &BodyNominalTy) -> (r: bool)
    ensures
        r == function_applies(*sem, def_map.model(), function_ref, nominal_model(*receiver_ty)),
{
    let function_data = match sem.function_data(function_ref) {
        Some(data) => data,
        None => return false,
    };
    let impl_id = match function_data.owner {
        ItemOwner::Impl(id) => id,
        _ => return true,
    };
    let impl_ref = ImplRef { target: function_ref.target, id: impl_id };
    let impl_data = match sem.impl_data(impl_ref) {
        Some(data) => data,
        None => return false,
    };
    let mut found = false;
    let mut i: usize = 0;
    while i < impl_data.resolved_self_tys.len()
        invariant
            i <= impl_data.resolved_self_tys@.len(),
            found == (exists|j: int| 0 <= j < i && impl_data.resolved_self_tys@[j] == receiver_ty.def),
        decreases impl_data.resolved_self_tys.len() - i,
    {
        if impl_data.resolved_self_tys[i] == receiver_ty.def {
            found = true;
        }
        i = i + 1;
    }
    if !found {
        return false;
    }
    impl_self_args_match_receiver(sem, def_map, impl_ref, impl_data, receiver_ty)
}

/// The substitution a use of a generic item gives, as [`generics_subst`] states.
pub fn subst_from_generics(generics: &GenericParams, args: &Vec<BodyGenericArg>) -> (r: Vec<(String, BodyTy)>)
    ensures
        subst_model(r@) == generics_subst(*generics, args@),
{
    let names = impl_type_param_names(generics);
    let tys = type_args_of(args);
    let ghost want = generics_subst(*generics, args@);
    proof {
        assert(names@.map_values(|s: String| s@).len() == names@.len());
        assert(ty_models(tys@).len() == tys@.len());
    }
    let n = if names.len() < tys.len() {
        names.len()
    } else {
        tys.len()
    };
    let mut out: Vec<(String, BodyTy)> = Vec::new();
    let mut i: usize = 0;
    while i < n
        invariant
            i <= n,
            n == want.len(),
            n <= names@.len(),
            n <= tys@.len(),
            names@.map_values(|s: String| s@) == type_param_names(*generics),
            ty_models(tys@) == crate::receiver::receiver_type_args(args@),
            want == generics_subst(*generics, args@),
            subst_model(out@) == want.take(i as int),
        decreases n - i,
    {
        let pair = (names[i].clone(), tys[i].duplicate());
        proof {
            assert(names@.map_values(|s: String| s@)[i as int] == names@[i as int]@);
            assert(ty_models(tys@)[i as int] == ty_model(tys@[i as int]));
            assert(pair.0@ == type_param_names(*generics)[i as int]);
            assert(ty_model(pair.1) == crate::receiver::receiver_type_args(args@)[i as int]);
            assert(want[i as int] == (pair.0@, ty_model(pair.1)));
            assert(subst_model(out@.push(pair)) =~= subst_model(out@).push((pair.0@, ty_model(pair.1))));
            assert(want.take(i + 1) =~= want.take(i as int).push(want[i as int]));
        }
        out.push(pair);
        i = i + 1;
    }
    proof {
        assert(want.take(n as int) =~= want);
    }
    out
}

/// The substitution an impl method's header gives for a receiver, as [`impl_self_subst`]
/// states.
pub fn semantic_impl_self_subst(sem: &SemanticIndex, function_ref: FunctionRef, receiver_ty: &BodyNominalTy) -> (r: Vec<(String, BodyTy)>)
    ensures
        subst_model(r@) == impl_self_subst(*sem, function_ref, nominal_model(*receiver_ty)),
{
    proof {
        lemma_model_type_args(receiver_ty.args@);
        assert(nominal_model(*receiver_ty).args == ty_arg_models(receiver_ty.args@));
        assert(model_type_args(nominal_model(*receiver_ty).args) == crate::receiver::receiver_type_args(receiver_ty.args@));
    }
    let function_data = match sem.function_data(function_ref) {
        Some(data) => data,
        None => return Vec::new(),
    };
    let impl_id = match function_data.owner {
        ItemOwner::Impl(id) => id,
        _ => return Vec::new(),
    };
    let impl_data = match sem.impl_data(ImplRef { target: function_ref.target, id: impl_id }) {
        Some(data) => data,
        None => return Vec::new(),
    };
    let type_path = match &impl_data.self_ty {
        TypeRef::Path(path) => path,
        _ => return Vec::new(),
    };
    let len = type_path.segments.len();
    if len == 0 {
        return Vec::new();
    }
    let segment = &type_path.segments[len - 1];
    let impl_type_params = impl_type_param_names(&impl_data.generics);
    let impl_type_args = type_arg_refs_of(&segment.args);
    let receiver_type_args = type_args_of(&receiver_ty.args);
    let ghost impl_args = type_arg_refs(type_path.segments@[len - 1].args@);
    let ghost receiver_args = crate::receiver::receiver_type_args(receiver_ty.args@);
    let ghost params = type_param_names(impl_data.generics);
    proof {
        assert(ty_models(receiver_type_args@).len() == receiver_type_args@.len());
    }
    let n = if impl_type_args.len() < receiver_type_args.len() {
        impl_type_args.len()
    } else {
        receiver_type_args.len()
    };
    let mut out: Vec<(String, BodyTy)> = Vec::new();
    let mut k: usize = 0;
    while k < n
        invariant
            k <= n,
            n <= impl_type_args@.len(),
            n <= receiver_type_args@.len(),
            impl_type_args@.len() == impl_args.len(),
            forall|j: int| 0 <= j < impl_type_args@.len() ==> *#[trigger] impl_type_args@[j] == impl_args[j],
            ty_models(receiver_type_args@) == receiver_args,
            impl_type_params@.map_values(|s: String| s@) == params,
            subst_model(out@) == self_subst_pairs(impl_args, receiver_args, params, k as int),
        decreases n - k,
    {
        let impl_arg = impl_type_args[k];
        proof {
            assert(ty_models(receiver_type_args@)[k as int] == ty_model(receiver_type_args@[k as int]));
        }
        if let Some(name) = type_param_name_from_type_ref(impl_arg) {
            if names_contain(&impl_type_params, &name) {
                let pair = (name, receiver_type_args[k].duplicate());
                proof {
                    assert(subst_model(out@.push(pair)) =~= subst_model(out@).push((pair.0@, ty_model(pair.1))));
                }
                out.push(pair);
            }
        }
        k = k + 1;
    }
    out
}

} // verus!
