//! Types written inside a body, with generic arguments: body-local items shadow module items in
//! their lexical scope, written arguments are carried on the named types, and known type
//! parameters are substituted.

use vstd::prelude::*;

use crate::body::{BodyData, BodyGenericArg, BodyTy};
use crate::body_ids::{BodyRef, ScopeId};
use crate::body_infer::{context_for_function, function_context, resolve_in_scope, type_path_in_scope, type_path_view};
use crate::body_ty::{TyArgModel, TyModel, ty_arg_model, ty_arg_models, ty_model};
use crate::cursor::path_from_type_path_prefix;
use crate::db::DefMapDb;
use crate::item_tree::{FunctionRef, GenericArg, TypePath, TypeRef, type_model};
use crate::receiver::{subst_model, subst_ty, substitute_type_param, substituted, ty_from_body_resolution, ty_with_args};
use crate::resolution::EnvModel;
use crate::semantic::{SemanticIndex, TypePathContext};

verus! {

/// The type a type written in `scope` of `body` denotes under `subst`: a plain name that
/// `subst` maps is replaced; other paths see body-local items first and carry the arguments of
/// their last segment, read in the same scope; other forms are read in the context of the body's
/// function.
pub open spec fn scope_ty(
    sem: SemanticIndex,
    model: EnvModel,
    body: BodyData,
    body_ref: BodyRef,
    ty: TypeRef,
    scope: ScopeId,
    subst: Seq<(Seq<char>, TyModel)>,
) -> TyModel
    decreases ty,
{
    match ty {
        TypeRef::Path(path) => match substituted(type_path_view(path), subst) {
            Some(t) => t,
            None => ty_with_args(
                type_path_in_scope(sem, model, body, body_ref, scope, type_path_view(path)),
                TyModel::Syntax(type_model(ty)),
                scope_path_args(sem, model, body, body_ref, path, scope, subst),
            ),
        },
        _ => subst_ty(sem, model, ty, function_context(sem, body.owner, body.owner_module), TyModel::Syntax(type_model(ty)), subst),
    }
}

/// The generic arguments written on the last segment of a path, read in `scope`.
pub open spec fn scope_path_args(
    sem: SemanticIndex,
    model: EnvModel,
    body: BodyData,
    body_ref: BodyRef,
    path: TypePath,
    scope: ScopeId,
    subst: Seq<(Seq<char>, TyModel)>,
) -> Seq<TyArgModel>
    decreases path,
{
    if path.segments@.len() == 0 {
        Seq::empty()
    } else {
        proof {
            assert(decreases_to!(path => path.segments));
            assert(decreases_to!(path.segments => path.segments@));
            assert(decreases_to!(path.segments@ => path.segments@[path.segments@.len() - 1]));
            assert(decreases_to!(path.segments@[path.segments@.len() - 1] => path.segments@[path.segments@.len() - 1].args));
            assert(decreases_to!(path.segments@[path.segments@.len() - 1].args => path.segments@[path.segments@.len() - 1].args@));
        }
        scope_args(sem, model, body, body_ref, path.segments@[path.segments@.len() - 1].args@, scope, subst)
    }
}

/// Generic arguments read in `scope`, in order.
pub open spec fn scope_args(
    sem: SemanticIndex,
    model: EnvModel,
    body: BodyData,
    body_ref: BodyRef,
    args: Seq<GenericArg>,
    scope: ScopeId,
    subst: Seq<(Seq<char>, TyModel)>,
) -> Seq<TyArgModel>
    decreases args,
{
    if args.len() == 0 {
        Seq::empty()
    } else {
        scope_args(sem, model, body, body_ref, args.drop_last(), scope, subst).push(
            scope_arg(sem, model, body, body_ref, args.last(), scope, subst),
        )
    }
}

/// One generic argument read in `scope`.
pub open spec fn scope_arg(
    sem: SemanticIndex,
    model: EnvModel,
    body: BodyData,
    body_ref: BodyRef,
    arg: GenericArg,
    scope: ScopeId,
    subst: Seq<(Seq<char>, TyModel)>,
) -> TyArgModel
    decreases arg,
{
    match arg {
        GenericArg::Type(t) => TyArgModel::Type(scope_ty(sem, model, body, body_ref, t, scope, subst)),
        GenericArg::Lifetime(text) => TyArgModel::Lifetime(text@),
        GenericArg::Const(text) => TyArgModel::Const(text@),
        GenericArg::AssocType { name, ty } => TyArgModel::AssocType(name@, match ty {
            Some(t) => Some(scope_ty(sem, model, body, body_ref, t, scope, subst)),
            None => None,
        }),
        GenericArg::Unsupported(text) => TyArgModel::Unsupported(text@),
    }
}

proof fn lemma_ty_arg_models_push(out: Seq<BodyGenericArg>, a: BodyGenericArg)
    ensures
        ty_arg_models(out.push(a)) == ty_arg_models(out).push(ty_arg_model(a)),
{
    assert(out.push(a).drop_last() =~= out);
    assert(out.push(a).last() == a);
}

/// Converts a type written in `scope` of `body`, without substitution.
pub fn ty_from_type_ref_in_scope(
    sem: &SemanticIndex,
    def_map: &DefMapDb,
    body: &BodyData,
    body_ref: BodyRef,
    ty: &TypeRef,
    scope: ScopeId,
) -> (r: BodyTy)
    ensures
        ty_model(r) == scope_ty(*sem, def_map.model(), *body, body_ref, *ty, scope, Seq::empty()),
{
    let subst: Vec<(String, BodyTy)> = Vec::new();
    proof {
        assert(subst_model(subst@) =~= Seq::<(Seq<char>, TyModel)>::empty());
    }
    ty_from_type_ref_in_scope_with_subst(sem, def_map, body, body_ref, ty, scope, &subst)
}

/// Converts a type written in `scope` of `body` under `subst`, as [`scope_ty`] states.
pub fn ty_from_type_ref_in_scope_with_subst(
    sem: &SemanticIndex,
    def_map: &DefMapDb,
    body: &BodyData,
    body_ref: BodyRef,
    ty: &TypeRef,
    scope: ScopeId,
    subst: &Vec<(String, BodyTy)>,
) -> (r: BodyTy)
    ensures
        ty_model(r) == scope_ty(*sem, def_map.model(), *body, body_ref, *ty, scope, subst_model(subst@)),
    decreases ty,
{
    match ty {
        TypeRef::Path(type_path) => {
            proof {
                assert(decreases_to!(*ty => ty->Path_0));
            }
            let path = path_from_type_path_prefix(type_path, type_path.segments.len());
            if let Some(t) = substitute_type_param(&path, subst) {
                return t;
            }
            let args = generic_args_from_type_path_in_scope(sem, def_map, body, body_ref, type_path, scope, subst);
            let res = resolve_in_scope(sem, def_map, body, body_ref, scope, &path);
            ty_from_body_resolution(res, BodyTy::Syntax(ty.duplicate()), args)
        },
        _ => {
            let context = context_for_function(sem, body.owner, body.owner_module);
            ty_from_type_ref_in_context_with_subst(sem, def_map, ty, context, subst)
        },
    }
}

/// Converts a type of `function`'s signature under `subst`; types the function's context does
/// not resolve stay as written.
pub fn ty_from_type_ref_for_function_with_subst(
    sem: &SemanticIndex,
    def_map: &DefMapDb,
    body: &BodyData,
    ty: &TypeRef,
    function: FunctionRef,
    subst: &Vec<(String, BodyTy)>,
) -> (r: BodyTy)
    ensures
        ty_model(r) == subst_ty(
            *sem,
            def_map.model(),
            *ty,
            function_context(*sem, function, body.owner_module),
            TyModel::Syntax(type_model(*ty)),
            subst_model(subst@),
        ),
{
    let context = context_for_function(sem, function, body.owner_module);
    ty_from_type_ref_in_context_with_subst(sem, def_map, ty, context, subst)
}

/// Converts a written type in `context` under `subst`; paths that name no type stay as written.
pub fn ty_from_type_ref_in_context_with_subst(
    sem: &SemanticIndex,
    def_map: &DefMapDb,
    ty: &TypeRef,
    context: TypePathContext,
    subst: &Vec<(String, BodyTy)>,
) -> (r: BodyTy)
    ensures
        ty_model(r) == subst_ty(*sem, def_map.model(), *ty, context, TyModel::Syntax(type_model(*ty)), subst_model(subst@)),
{
    crate::receiver::ty_from_type_ref_in_context(sem, def_map, ty, context, BodyTy::Syntax(ty.duplicate()), subst)
}

/// The generic arguments of the last segment of a path read in `scope`, as
/// [`scope_path_args`] states.
fn generic_args_from_type_path_in_scope(
    sem: &SemanticIndex,
    def_map: &DefMapDb,
    body: &BodyData,
    body_ref: BodyRef,
    type_path: &TypePath,
    scope: ScopeId,
    subst: &Vec<(String, BodyTy)>,
) -> (r: Vec<BodyGenericArg>)
    ensures
        ty_arg_models(r@) == scope_path_args(*sem, def_map.model(), *body, body_ref, *type_path, scope, subst_model(subst@)),
    decreases type_path,
{
    let n = type_path.segments.len();
    if n == 0 {
        return Vec::new();
    }
    proof {
        assert(decreases_to!(*type_path => type_path.segments));
        assert(decreases_to!(type_path.segments => type_path.segments@));
        assert(decreases_to!(type_path.segments@ => type_path.segments@[n - 1]));
        assert(decreases_to!(type_path.segments@[n - 1] => type_path.segments@[n - 1].args));
    }
    generic_args_from_item_tree_args_in_scope(sem, def_map, body, body_ref, &type_path.segments[n - 1].args, scope, subst)
}

/// Generic arguments read in `scope`, as [`scope_args`] states.
fn generic_args_from_item_tree_args_in_scope(
    sem: &SemanticIndex,
    def_map: &DefMapDb,
    body: &BodyData,
    body_ref: BodyRef,
    args: &Vec<GenericArg>,
    scope: ScopeId,
    subst: &Vec<(String, BodyTy)>,
) -> (r: Vec<BodyGenericArg>)
    ensures
        ty_arg_models(r@) == scope_args(*sem, def_map.model(), *body, body_ref, args@, scope, subst_model(subst@)),
    decreases args,
{
    let mut out: Vec<BodyGenericArg> = Vec::new();
    let mut i: usize = 0;
    while i < args.len()
        invariant
            i <= args@.len(),
            ty_arg_models(out@) == scope_args(*sem, def_map.model(), *body, body_ref, args@.take(i as int), scope, subst_model(subst@)),
        decreases args.len() - i,
    {
        proof {
            assert(decreases_to!(*args => args@));
            assert(decreases_to!(args@ => args@[i as int]));
            assert(args@.take(i + 1).drop_last() =~= args@.take(i as int));
            assert(args@.take(i + 1).last() == args@[i as int]);
        }
        let a = generic_arg_from_item_tree_arg_in_scope(sem, def_map, body, body_ref, &args[i], scope, subst);
        proof {
            lemma_ty_arg_models_push(out@, a);
        }
        out.push(a);
        i = i + 1;
    }
    proof {
        assert(args@.take(args@.len() as int) =~= args@);
    }
    out
}

/// One generic argument read in `scope`, as [`scope_arg`] states.
fn generic_arg_from_item_tree_arg_in_scope(
    sem: &SemanticIndex,
    def_map: &DefMapDb,
    body: &BodyData,
    body_ref: BodyRef,
    arg: &GenericArg,
    scope: ScopeId,
    subst: &Vec<(String, BodyTy)>,
) -> (r: BodyGenericArg)
    ensures
        ty_arg_model(r) == scope_arg(*sem, def_map.model(), *body, body_ref, *arg, scope, subst_model(subst@)),
    decreases arg,
{
    match arg {
        GenericArg::Type(ty) => {
            proof {
                assert(decreases_to!(*arg => arg->Type_0));
            }
            BodyGenericArg::Type(Box::new(ty_from_type_ref_in_scope_with_subst(sem, def_map, body, body_ref, ty, scope, subst)))
        },
        GenericArg::Lifetime(text) => BodyGenericArg::Lifetime(text.clone()),
        GenericArg::Const(text) => BodyGenericArg::Const(text.clone()),
        GenericArg::AssocType { name, ty } => {
            let converted = match ty {
                Some(t) => {
                    proof {
                        assert(decreases_to!(*arg => arg->AssocType_ty));
                        assert(decreases_to!(arg->AssocType_ty => arg->AssocType_ty->0));
                    }
                    Some(Box::new(ty_from_type_ref_in_scope_with_subst(sem, def_map, body, body_ref, t, scope, subst)))
                },
                None => None,
            };
            BodyGenericArg::AssocType { name: name.clone(), ty: converted }
        },
        GenericArg::Unsupported(text) => BodyGenericArg::Unsupported(text.clone()),
    }
}

} // verus!
