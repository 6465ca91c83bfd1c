//! Models of Body IR types, so that two types can be compared and copied with proofs.

use vstd::prelude::*;

use crate::body::{BodyGenericArg, BodyLocalNominalTy, BodyNominalTy, BodyTy};
use crate::body_ids::BodyItemRef;
use crate::item_tree::{TypeDefRef, TypeModel, type_model};

verus! {

/// Model of a Body IR type: strings by their characters, lists as sequences.
pub enum TyModel {
    Unit,
    Never,
    Syntax(TypeModel),
    Reference(Box<TyModel>),
    LocalNominal(Seq<LocalNominalModel>),
    Nominal(Seq<NominalModel>),
    SelfTy(Seq<NominalModel>),
    Unknown,
}

/// Model of a body-local nominal type.
pub struct LocalNominalModel {
    pub item: BodyItemRef,
    pub args: Seq<TyArgModel>,
}

/// Model of a module-level nominal type.
pub struct NominalModel {
    pub def: TypeDefRef,
    pub args: Seq<TyArgModel>,
}

/// Model of one generic argument of a Body IR type.
pub enum TyArgModel {
    Type(TyModel),
    Lifetime(Seq<char>),
    Const(Seq<char>),
    AssocType(Seq<char>, Option<TyModel>),
    Unsupported(Seq<char>),
}

/// The model of a Body IR type.
pub open spec fn ty_model(t: BodyTy) -> TyModel
    decreases t,
{
    match t {
        BodyTy::Unit => TyModel::Unit,
        BodyTy::Never => TyModel::Never,
        BodyTy::Syntax(ty) => TyModel::Syntax(type_model(ty)),
        BodyTy::Reference(inner) => TyModel::Reference(Box::new(ty_model(*inner))),
        BodyTy::LocalNominal(items) => TyModel::LocalNominal(local_nominal_models(items@)),
        BodyTy::Nominal(defs) => TyModel::Nominal(nominal_models(defs@)),
        BodyTy::SelfTy(defs) => TyModel::SelfTy(nominal_models(defs@)),
        BodyTy::Unknown => TyModel::Unknown,
    }
}

/// The models of body-local nominal types, in order.
pub open spec fn local_nominal_models(s: Seq<BodyLocalNominalTy>) -> Seq<LocalNominalModel>
    decreases s,
{
    if s.len() == 0 {
        Seq::empty()
    } else {
        local_nominal_models(s.drop_last()).push(local_nominal_model(s.last()))
    }
}

/// The model of a body-local nominal type.
pub open spec fn local_nominal_model(n: BodyLocalNominalTy) -> LocalNominalModel
    decreases n,
{
    LocalNominalModel { item: n.item, args: ty_arg_models(n.args@) }
}

/// The models of module-level nominal types, in order.
pub open spec fn nominal_models(s: Seq<BodyNominalTy>) -> Seq<NominalModel>
    decreases s,
{
    if s.len() == 0 {
        Seq::empty()
    } else {
        nominal_models(s.drop_last()).push(nominal_model(s.last()))
    }
}

/// The model of a module-level nominal type.
pub open spec fn nominal_model(n: BodyNominalTy) -> NominalModel
    decreases n,
{
    NominalModel { def: n.def, args: ty_arg_models(n.args@) }
}

/// The models of generic arguments, in order.
pub open spec fn ty_arg_models(s: Seq<BodyGenericArg>) -> Seq<TyArgModel>
    decreases s,
{
    if s.len() == 0 {
        Seq::empty()
    } else {
        ty_arg_models(s.drop_last()).push(ty_arg_model(s.last()))
    }
}

/// The model of one generic argument.
pub open spec fn ty_arg_model(a: BodyGenericArg) -> TyArgModel
    decreases a,
{
    match a {
        BodyGenericArg::Type(t) => TyArgModel::Type(ty_model(*t)),
        BodyGenericArg::Lifetime(text) => TyArgModel::Lifetime(text@),
        BodyGenericArg::Const(text) => TyArgModel::Const(text@),
        BodyGenericArg::AssocType { name, ty } => TyArgModel::AssocType(name@, match ty {
            Some(t) => Some(ty_model(*t)),
            None => None,
        }),
        BodyGenericArg::Unsupported(text) => TyArgModel::Unsupported(text@),
    }
}

/// The models of a list of Body IR types, in order.
pub open spec fn ty_models(s: Seq<BodyTy>) -> Seq<TyModel> {
    s.map_values(|t: BodyTy| ty_model(t))
}

pub proof fn lemma_local_nominal_models(s: Seq<BodyLocalNominalTy>)
    ensures
        local_nominal_models(s).len() == s.len(),
        forall|k: int| 0 <= k < s.len() ==> #[trigger] local_nominal_models(s)[k] == local_nominal_model(s[k]),
    decreases s.len(),
{
    if s.len() > 0 {
        lemma_local_nominal_models(s.drop_last());
    }
}

pub proof fn lemma_nominal_models(s: Seq<BodyNominalTy>)
    ensures
        nominal_models(s).len() == s.len(),
        forall|k: int| 0 <= k < s.len() ==> #[trigger] nominal_models(s)[k] == nominal_model(s[k]),
    decreases s.len(),
{
    if s.len() > 0 {
        lemma_nominal_models(s.drop_last());
    }
}

proof fn lemma_ty_arg_models(s: Seq<BodyGenericArg>)
    ensures
        ty_arg_models(s).len() == s.len(),
        forall|k: int| 0 <= k < s.len() ==> #[trigger] ty_arg_models(s)[k] == ty_arg_model(s[k]),
    decreases s.len(),
{
    if s.len() > 0 {
        lemma_ty_arg_models(s.drop_last());
    }
}

impl BodyTy {
    /// Copies the type.
    pub fn duplicate(&self) -> (r: Self)
        ensures
            ty_model(r) == ty_model(*self),
        decreases self,
    {
        match self {
            BodyTy::Unit => BodyTy::Unit,
            BodyTy::Never => BodyTy::Never,
            BodyTy::Syntax(ty) => BodyTy::Syntax(ty.duplicate()),
            BodyTy::Reference(inner) => {
                proof {
                    assert(decreases_to!(*self => self->Reference_0));
                }
                BodyTy::Reference(Box::new((**inner).duplicate()))
            },
            BodyTy::LocalNominal(items) => BodyTy::LocalNominal(duplicate_local_nominals(items)),
            BodyTy::Nominal(defs) => BodyTy::Nominal(duplicate_nominals(defs)),
            BodyTy::SelfTy(defs) => BodyTy::SelfTy(duplicate_nominals(defs)),
            BodyTy::Unknown => BodyTy::Unknown,
        }
    }

    /// Whether two types have the same model.
    pub fn same_as(&self, other: &BodyTy) -> (r: bool)
        ensures
            r == (ty_model(*self) == ty_model(*other)),
        decreases self,
    {
        match self {
            BodyTy::Unit => match other {
                BodyTy::Unit => true,
                _ => false,
            },
            BodyTy::Never => match other {
                BodyTy::Never => true,
                _ => false,
            },
            BodyTy::Syntax(a) => match other {
                BodyTy::Syntax(b) => a.same_as(b),
                _ => false,
            },
            BodyTy::Reference(a) => match other {
                BodyTy::Reference(b) => {
                    proof {
                        assert(decreases_to!(*self => self->Reference_0));
                    }
                    (**a).same_as(&**b)
                },
                _ => false,
            },
            BodyTy::LocalNominal(a) => match other {
                BodyTy::LocalNominal(b) => same_local_nominals(a, b),
                _ => false,
            },
            BodyTy::Nominal(a) => match other {
                BodyTy::Nominal(b) => same_nominals(a, b),
                _ => false,
            },
            BodyTy::SelfTy(a) => match other {
                BodyTy::SelfTy(b) => same_nominals(a, b),
                _ => false,
            },
            BodyTy::Unknown => match other {
                BodyTy::Unknown => true,
                _ => false,
            },
        }
    }
}

/// Copies a list of generic arguments.
pub fn duplicate_ty_args(args: &Vec<BodyGenericArg>) -> (r: Vec<BodyGenericArg>)
    ensures
        ty_arg_models(r@) == ty_arg_models(args@),
    decreases args,
{
    let mut out: Vec<BodyGenericArg> = Vec::new();
    let mut i: usize = 0;
    while i < args.len()
        invariant
            i <= args@.len(),
            ty_arg_models(args@.take(i as int)) == ty_arg_models(out@),
        decreases args.len() - i,
    {
        proof {
            assert(decreases_to!(*args => args@));
            assert(decreases_to!(args@ => args@[i as int]));
        }
        let copy = match &args[i] {
            BodyGenericArg::Type(t) => {
                proof {
                    assert(decreases_to!(args@[i as int] => args@[i as int]->Type_0));
                }
                BodyGenericArg::Type(Box::new((**t).duplicate()))
            },
            BodyGenericArg::Lifetime(text) => BodyGenericArg::Lifetime(text.clone()),
            BodyGenericArg::Const(text) => BodyGenericArg::Const(text.clone()),
            BodyGenericArg::AssocType { name, ty } => {
                let t = match ty {
                    Some(t) => {
                        proof {
                            assert(decreases_to!(args@[i as int] => args@[i as int]->AssocType_ty));
                            assert(decreases_to!(args@[i as int]->AssocType_ty => args@[i as int]->AssocType_ty->0));
                        }
                        Some(Box::new((**t).duplicate()))
                    },
                    None => None,
                };
                BodyGenericArg::AssocType { name: name.clone(), ty: t }
            },
            BodyGenericArg::Unsupported(text) => BodyGenericArg::Unsupported(text.clone()),
        };
        proof {
            assert(ty_arg_model(copy) == ty_arg_model(args@[i as int]));
        }
        let ghost before = out@;
        out.push(copy);
        proof {
            assert(args@.take(i + 1).drop_last() =~= args@.take(i as int));
            assert(out@.drop_last() =~= before);
        }
        i = i + 1;
    }
    proof {
        assert(args@.take(args@.len() as int) =~= args@);
    }
    out
}

fn duplicate_local_nominals(items: &Vec<BodyLocalNominalTy>) -> (r: Vec<BodyLocalNominalTy>)
    ensures
        local_nominal_models(r@) == local_nominal_models(items@),
    decreases items,
{
    let mut out: Vec<BodyLocalNominalTy> = Vec::new();
    let mut i: usize = 0;
    while i < items.len()
        invariant
            i <= items@.len(),
            local_nominal_models(items@.take(i as int)) == local_nominal_models(out@),
        decreases items.len() - i,
    {
        proof {
            assert(decreases_to!(*items => items@));
            assert(decreases_to!(items@ => items@[i as int]));
            assert(decreases_to!(items@[i as int] => items@[i as int].args));
        }
        let copy = BodyLocalNominalTy { item: items[i].item, args: duplicate_ty_args(&items[i].args) };
        proof {
            assert(local_nominal_model(copy) == local_nominal_model(items@[i as int]));
        }
        let ghost before = out@;
        out.push(copy);
        proof {
            assert(items@.take(i + 1).last() == items@[i as int]);
            assert(items@.take(i + 1).drop_last() =~= items@.take(i as int));
            assert(out@.drop_last() =~= before);
        }
        i = i + 1;
    }
    proof {
        assert(items@.take(items@.len() as int) =~= items@);
    }
    out
}

fn duplicate_nominals(defs: &Vec<BodyNominalTy>) -> (r: Vec<BodyNominalTy>)
    ensures
        nominal_models(r@) == nominal_models(defs@),
    decreases defs,
{
    let mut out: Vec<BodyNominalTy> = Vec::new();
    let mut i: usize = 0;
    while i < defs.len()
        invariant
            i <= defs@.len(),
            nominal_models(defs@.take(i as int)) == nominal_models(out@),
        decreases defs.len() - i,
    {
        proof {
            assert(decreases_to!(*defs => defs@));
            assert(decreases_to!(defs@ => defs@[i as int]));
            assert(decreases_to!(defs@[i as int] => defs@[i as int].args));
        }
        let copy = BodyNominalTy { def: defs[i].def, args: duplicate_ty_args(&defs[i].args) };
        proof {
            assert(nominal_model(copy) == nominal_model(defs@[i as int]));
        }
        let ghost before = out@;
        out.push(copy);
        proof {
            assert(defs@.take(i + 1).last() == defs@[i as int]);
            assert(defs@.take(i + 1).drop_last() =~= defs@.take(i as int));
            assert(out@.drop_last() =~= before);
        }
        i = i + 1;
    }
    proof {
        assert(defs@.take(defs@.len() as int) =~= defs@);
    }
    out
}

fn same_ty_args(a: &Vec<BodyGenericArg>, b: &Vec<BodyGenericArg>) -> (r: bool)
    ensures
        r == (ty_arg_models(a@) == ty_arg_models(b@)),
    decreases a,
{
    proof {
        lemma_ty_arg_models(a@);
        lemma_ty_arg_models(b@);
    }
    if a.len() != b.len() {
        return false;
    }
    let mut i: usize = 0;
    while i < a.len()
        invariant
            a@.len() == b@.len(),
            i <= a@.len(),
            ty_arg_models(a@).len() == a@.len(),
            ty_arg_models(b@).len() == b@.len(),
            forall|k: int| 0 <= k < a@.len() ==> #[trigger] ty_arg_models(a@)[k] == ty_arg_model(a@[k]),
            forall|k: int| 0 <= k < b@.len() ==> #[trigger] ty_arg_models(b@)[k] == ty_arg_model(b@[k]),
            forall|k: int| 0 <= k < i ==> ty_arg_model(#[trigger] a@[k]) == ty_arg_model(b@[k]),
        decreases a.len() - i,
    {
        proof {
            assert(decreases_to!(*a => a@));
            assert(decreases_to!(a@ => a@[i as int]));
        }
        let same = match &a[i] {
            BodyGenericArg::Type(x) => match &b[i] {
                BodyGenericArg::Type(y) => {
                    proof {
                        assert(decreases_to!(a@[i as int] => a@[i as int]->Type_0));
                    }
                    (**x).same_as(&**y)
                },
                _ => false,
            },
            BodyGenericArg::Lifetime(x) => match &b[i] {
                BodyGenericArg::Lifetime(y) => *x == *y,
                _ => false,
            },
            BodyGenericArg::Const(x) => match &b[i] {
                BodyGenericArg::Const(y) => *x == *y,
                _ => false,
            },
            BodyGenericArg::AssocType { name: na, ty: ta } => match &b[i] {
                BodyGenericArg::AssocType { name: nb, ty: tb } => {
                    if *na != *nb {
                        false
                    } else {
                        match ta {
                            Some(x) => match tb {
                                Some(y) => {
                                    proof {
                                        assert(decreases_to!(a@[i as int] => a@[i as int]->AssocType_ty));
                                        assert(decreases_to!(a@[i as int]->AssocType_ty => a@[i as int]->AssocType_ty->0));
                                    }
                                    (**x).same_as(&**y)
                                },
                                None => false,
                            },
                            None => match tb {
                                Some(_) => false,
                                None => true,
                            },
                        }
                    }
                },
                _ => false,
            },
            BodyGenericArg::Unsupported(x) => match &b[i] {
                BodyGenericArg::Unsupported(y) => *x == *y,
                _ => false,
            },
        };
        if !same {
            proof {
                assert(ty_arg_models(a@)[i as int] != ty_arg_models(b@)[i as int]);
            }
            return false;
        }
        i = i + 1;
    }
    proof {
        assert(ty_arg_models(a@) =~= ty_arg_models(b@));
    }
    true
}

fn same_local_nominals(a: &Vec<BodyLocalNominalTy>, b: &Vec<BodyLocalNominalTy>) -> (r: bool)
    ensures
        r == (local_nominal_models(a@) == local_nominal_models(b@)),
    decreases a,
{
    proof {
        lemma_local_nominal_models(a@);
        lemma_local_nominal_models(b@);
    }
    if a.len() != b.len() {
        return false;
    }
    let mut i: usize = 0;
    while i < a.len()
        invariant
            a@.len() == b@.len(),
            i <= a@.len(),
            local_nominal_models(a@).len() == a@.len(),
            local_nominal_models(b@).len() == b@.len(),
            forall|k: int| 0 <= k < a@.len() ==> #[trigger] local_nominal_models(a@)[k] == local_nominal_model(a@[k]),
            forall|k: int| 0 <= k < b@.len() ==> #[trigger] local_nominal_models(b@)[k] == local_nominal_model(b@[k]),
            forall|k: int| 0 <= k < i ==> local_nominal_model(#[trigger] a@[k]) == local_nominal_model(b@[k]),
        decreases a.len() - i,
    {
        proof {
            assert(decreases_to!(*a => a@));
            assert(decreases_to!(a@ => a@[i as int]));
            assert(decreases_to!(a@[i as int] => a@[i as int].args));
        }
        if a[i].item != b[i].item || !same_ty_args(&a[i].args, &b[i].args) {
            proof {
                assert(local_nominal_models(a@)[i as int] != local_nominal_models(b@)[i as int]);
            }
            return false;
        }
        i = i + 1;
    }
    proof {
        assert(local_nominal_models(a@) =~= local_nominal_models(b@));
    }
    true
}

fn same_nominals(a: &Vec<BodyNominalTy>, b: &Vec<BodyNominalTy>) -> (r: bool)
    ensures
        r == (nominal_models(a@) == nominal_models(b@)),
    decreases a,
{
    proof {
        lemma_nominal_models(a@);
        lemma_nominal_models(b@);
    }
    if a.len() != b.len() {
        return false;
    }
    let mut i: usize = 0;
    while i < a.len()
        invariant
            a@.len() == b@.len(),
            i <= a@.len(),
            nominal_models(a@).len() == a@.len(),
            nominal_models(b@).len() == b@.len(),
            forall|k: int| 0 <= k < a@.len() ==> #[trigger] nominal_models(a@)[k] == nominal_model(a@[k]),
            forall|k: int| 0 <= k < b@.len() ==> #[trigger] nominal_models(b@)[k] == nominal_model(b@[k]),
            forall|k: int| 0 <= k < i ==> nominal_model(#[trigger] a@[k]) == nominal_model(b@[k]),
        decreases a.len() - i,
    {
        proof {
            assert(decreases_to!(*a => a@));
            assert(decreases_to!(a@ => a@[i as int]));
            assert(decreases_to!(a@[i as int] => a@[i as int].args));
        }
        if a[i].def != b[i].def || !same_ty_args(&a[i].args, &b[i].args) {
            proof {
                assert(nominal_models(a@)[i as int] != nominal_models(b@)[i as int]);
            }
            return false;
        }
        i = i + 1;
    }
    proof {
        assert(nominal_models(a@) =~= nominal_models(b@));
    }
    true
}

/// Appends `ty` unless a type with the same model is already present, keeping first-seen order.
pub fn push_unique_ty(items: &mut Vec<BodyTy>, ty: BodyTy)
    ensures
        ty_models(final(items)@) == if ty_models(old(items)@).contains(ty_model(ty)) {
            ty_models(old(items)@)
        } else {
            ty_models(old(items)@).push(ty_model(ty))
        },
{
    let mut i: usize = 0;
    while i < items.len()
        invariant
            items@ == old(items)@,
            i <= items@.len(),
            forall|j: int| 0 <= j < i ==> ty_model(#[trigger] items@[j]) != ty_model(ty),
        decreases items.len() - i,
    {
        if items[i].same_as(&ty) {
            proof {
                assert(ty_models(items@)[i as int] == ty_model(ty));
            }
            return;
        }
        i = i + 1;
    }
    proof {
        assert(!ty_models(old(items)@).contains(ty_model(ty))) by {
            if ty_models(old(items)@).contains(ty_model(ty)) {
                let j = choose|j: int| 0 <= j < ty_models(old(items)@).len() && ty_models(old(items)@)[j] == ty_model(ty);
                assert(ty_model(items@[j]) == ty_model(ty));
            }
        }
    }
    items.push(ty);
    proof {
        assert(ty_models(items@) =~= ty_models(old(items)@).push(ty_model(ty)));
    }
}

} // verus!
