//! Item-level syntax that lowered bodies refer to: type references as written, field lists,
//! function signatures, and the identities of module-level semantic items.

use vstd::prelude::*;

use crate::ids::TargetRef;
use crate::text::Span;

verus! {

/// Name or position of a field.
#[derive(Debug)]
pub enum FieldKey {
    Named(String),
    Tuple(usize),
}

/// Model of a field key.
pub enum FieldKeyView {
    Named(Seq<char>),
    Tuple(nat),
}

impl View for FieldKey {
    type V = FieldKeyView;

    open spec fn view(&self) -> FieldKeyView {
        match self {
            FieldKey::Named(name) => FieldKeyView::Named(name@),
            FieldKey::Tuple(index) => FieldKeyView::Tuple(*index as nat),
        }
    }
}

impl FieldKey {
    /// Compares two keys by their models.
    pub fn same_as(&self, other: &FieldKey) -> (r: bool)
        ensures
            r == (self@ == other@),
    {
        match self {
            FieldKey::Named(a) => match other {
                FieldKey::Named(b) => *a == *b,
                FieldKey::Tuple(_) => false,
            },
            FieldKey::Tuple(a) => match other {
                FieldKey::Named(_) => false,
                FieldKey::Tuple(b) => *a == *b,
            },
        }
    }
}

/// One field of a struct-like item.
#[derive(Debug)]
pub struct FieldItem {
    pub key: Option<FieldKey>,
    pub ty: TypeRef,
    /// The span of the field's declaration.
    pub span: Span,
}

/// The fields of a struct-like item, in declaration order.
#[derive(Debug)]
pub struct FieldList {
    pub fields: Vec<FieldItem>,
}

impl FieldList {
    pub fn fields(&self) -> (r: &Vec<FieldItem>)
        ensures
            r == &self.fields,
    {
        &self.fields
    }
}

/// Kind of one function parameter.
#[derive(Debug, Clone, Copy, PartialEq, Eq, Structural)]
pub enum ParamKind {
    SelfParam,
    Normal,
}

/// One function parameter as declared.
#[derive(Debug)]
pub struct ParamItem {
    pub kind: ParamKind,
    pub ty: Option<TypeRef>,
}

/// A function signature as declared.
#[derive(Debug)]
pub struct FunctionItem {
    pub params: Vec<ParamItem>,
    pub ret_ty: Option<TypeRef>,
}

impl FunctionItem {
    /// The first parameter is a `self` receiver.
    pub open spec fn has_self_receiver_spec(&self) -> bool {
        self.params@.len() > 0 && self.params@[0].kind == ParamKind::SelfParam
    }

    /// Whether the first parameter is a `self` receiver.
    pub fn has_self_receiver(&self) -> (r: bool)
        ensures
            r == self.has_self_receiver_spec(),
    {
        if self.params.len() > 0 {
            match self.params[0].kind {
                ParamKind::SelfParam => true,
                ParamKind::Normal => false,
            }
        } else {
            false
        }
    }
}

/// One generic type parameter as declared.
#[derive(Debug)]
pub struct TypeParamItem {
    pub name: String,
}

/// The generic parameters of an item; only type parameters take part in substitution.
#[derive(Debug)]
pub struct GenericParams {
    pub types: Vec<TypeParamItem>,
}

/// A type as written in source.
#[derive(Debug)]
pub enum TypeRef {
    Path(TypePath),
    Tuple(Vec<TypeRef>),
    Reference { mutable: bool, inner: Box<TypeRef> },
    RawPointer { mutable: bool, inner: Box<TypeRef> },
    Slice(Box<TypeRef>),
    Array { inner: Box<TypeRef>, len: String },
    FnPointer { params: Vec<TypeRef>, ret: Box<TypeRef> },
    ImplTrait(Vec<TypeBound>),
    DynTrait(Vec<TypeBound>),
    Unknown(String),
    Never,
    Unit,
    Infer,
}

/// A path in type position, with the span and generic arguments of every segment.
#[derive(Debug)]
pub struct TypePath {
    pub absolute: bool,
    pub segments: Vec<TypePathSegment>,
}

/// One segment of a type path.
#[derive(Debug)]
pub struct TypePathSegment {
    pub name: String,
    pub span: Span,
    pub args: Vec<GenericArg>,
}

/// One generic argument as written.
#[derive(Debug)]
pub enum GenericArg {
    Type(TypeRef),
    Lifetime(String),
    Const(String),
    AssocType { name: String, ty: Option<TypeRef> },
    Unsupported(String),
}

/// One bound of an `impl Trait` or `dyn Trait` type.
#[derive(Debug)]
pub enum TypeBound {
    Trait(TypeRef),
    Lifetime(String),
    Unsupported(String),
}

/// Stable identifier of one module-level function inside a target.
#[derive(Debug, Clone, Copy, PartialEq, Eq, Hash, Structural)]
pub struct FunctionId(pub usize);

/// Stable reference to one module-level function across the project.
#[derive(Debug, Clone, Copy, PartialEq, Eq, Hash, Structural)]
pub struct FunctionRef {
    pub target: TargetRef,
    pub id: FunctionId,
}

/// Stable reference to one module-level type definition across the project.
#[derive(Debug, Clone, Copy, PartialEq, Eq, Hash, Structural)]
pub struct TypeDefRef {
    pub target: TargetRef,
    pub index: usize,
}

/// Stable reference to one field of a module-level type definition.
#[derive(Debug, Clone, Copy, PartialEq, Eq, Hash, Structural)]
pub struct FieldRef {
    pub owner: TypeDefRef,
    pub index: usize,
}

/// Stable reference to one module-level trait across the project.
#[derive(Debug, Clone, Copy, PartialEq, Eq, Hash, Structural)]
pub struct TraitRef {
    pub target: TargetRef,
    pub index: usize,
}


impl FieldKey {
    pub fn duplicate(&self) -> (r: Self)
        ensures
            r@ == self@,
    {
        match self {
            FieldKey::Named(name) => FieldKey::Named(name.clone()),
            FieldKey::Tuple(index) => FieldKey::Tuple(*index),
        }
    }
}

/// Model of a type as written: strings by their characters, lists as sequences.
pub enum TypeModel {
    Path(PathModel),
    Tuple(Seq<TypeModel>),
    Reference(bool, Box<TypeModel>),
    RawPointer(bool, Box<TypeModel>),
    Slice(Box<TypeModel>),
    Array(Box<TypeModel>, Seq<char>),
    FnPointer(Seq<TypeModel>, Box<TypeModel>),
    ImplTrait(Seq<BoundModel>),
    DynTrait(Seq<BoundModel>),
    Unknown(Seq<char>),
    Never,
    Unit,
    Infer,
}

/// Model of a type path.
pub struct PathModel {
    pub absolute: bool,
    pub segments: Seq<SegmentModel>,
}

/// Model of one type path segment.
pub struct SegmentModel {
    pub name: Seq<char>,
    pub span: Span,
    pub args: Seq<ArgModel>,
}

/// Model of one generic argument.
pub enum ArgModel {
    Type(TypeModel),
    Lifetime(Seq<char>),
    Const(Seq<char>),
    AssocType(Seq<char>, Option<TypeModel>),
    Unsupported(Seq<char>),
}

/// Model of one trait bound.
pub enum BoundModel {
    Trait(TypeModel),
    Lifetime(Seq<char>),
    Unsupported(Seq<char>),
}

/// The model of a type as written.
pub open spec fn type_model(t: TypeRef) -> TypeModel
    decreases t,
{
    match t {
        TypeRef::Path(p) => TypeModel::Path(path_model(p)),
        TypeRef::Tuple(ts) => TypeModel::Tuple(type_models(ts@)),
        TypeRef::Reference { mutable, inner } => TypeModel::Reference(mutable, Box::new(type_model(*inner))),
        TypeRef::RawPointer { mutable, inner } => TypeModel::RawPointer(mutable, Box::new(type_model(*inner))),
        TypeRef::Slice(inner) => TypeModel::Slice(Box::new(type_model(*inner))),
        TypeRef::Array { inner, len } => TypeModel::Array(Box::new(type_model(*inner)), len@),
        TypeRef::FnPointer { params, ret } => TypeModel::FnPointer(type_models(params@), Box::new(type_model(*ret))),
        TypeRef::ImplTrait(bs) => TypeModel::ImplTrait(bound_models(bs@)),
        TypeRef::DynTrait(bs) => TypeModel::DynTrait(bound_models(bs@)),
        TypeRef::Unknown(text) => TypeModel::Unknown(text@),
        TypeRef::Never => TypeModel::Never,
        TypeRef::Unit => TypeModel::Unit,
        TypeRef::Infer => TypeModel::Infer,
    }
}

/// The models of a list of types, in order.
pub open spec fn type_models(s: Seq<TypeRef>) -> Seq<TypeModel>
    decreases s,
{
    if s.len() == 0 {
        Seq::empty()
    } else {
        type_models(s.drop_last()).push(type_model(s.last()))
    }
}

/// The model of a type path.
pub open spec fn path_model(p: TypePath) -> PathModel
    decreases p,
{
    PathModel { absolute: p.absolute, segments: segment_models(p.segments@) }
}

/// The models of path segments, in order.
pub open spec fn segment_models(s: Seq<TypePathSegment>) -> Seq<SegmentModel>
    decreases s,
{
    if s.len() == 0 {
        Seq::empty()
    } else {
        segment_models(s.drop_last()).push(segment_model(s.last()))
    }
}

/// The model of one path segment.
pub open spec fn segment_model(s: TypePathSegment) -> SegmentModel
    decreases s,
{
    SegmentModel { name: s.name@, span: s.span, args: arg_models(s.args@) }
}

/// The models of generic arguments, in order.
pub open spec fn arg_models(s: Seq<GenericArg>) -> Seq<ArgModel>
    decreases s,
{
    if s.len() == 0 {
        Seq::empty()
    } else {
        arg_models(s.drop_last()).push(arg_model(s.last()))
    }
}

/// The model of one generic argument.
pub open spec fn arg_model(a: GenericArg) -> ArgModel
    decreases a,
{
    match a {
        GenericArg::Type(t) => ArgModel::Type(type_model(t)),
        GenericArg::Lifetime(text) => ArgModel::Lifetime(text@),
        GenericArg::Const(text) => ArgModel::Const(text@),
        GenericArg::AssocType { name, ty } => ArgModel::AssocType(name@, match ty {
            Some(t) => Some(type_model(t)),
            None => None,
        }),
        GenericArg::Unsupported(text) => ArgModel::Unsupported(text@),
    }
}

/// The models of trait bounds, in order.
pub open spec fn bound_models(s: Seq<TypeBound>) -> Seq<BoundModel>
    decreases s,
{
    if s.len() == 0 {
        Seq::empty()
    } else {
        bound_models(s.drop_last()).push(bound_model(s.last()))
    }
}

/// The model of one trait bound.
pub open spec fn bound_model(b: TypeBound) -> BoundModel
    decreases b,
{
    match b {
        TypeBound::Trait(t) => BoundModel::Trait(type_model(t)),
        TypeBound::Lifetime(text) => BoundModel::Lifetime(text@),
        TypeBound::Unsupported(text) => BoundModel::Unsupported(text@),
    }
}

/// `a` and `b` are the same type as written.
pub open spec fn same_type(a: TypeRef, b: TypeRef) -> bool {
    type_model(a) == type_model(b)
}

/// The models of a list of types have its length and model each type at its position.
pub proof fn lemma_type_models(s: Seq<TypeRef>)
    ensures
        type_models(s).len() == s.len(),
        forall|k: int| 0 <= k < s.len() ==> #[trigger] type_models(s)[k] == type_model(s[k]),
    decreases s.len(),
{
    if s.len() > 0 {
        lemma_type_models(s.drop_last());
    }
}

/// The models of path segments have their length and model each segment at its position.
pub proof fn lemma_segment_models(s: Seq<TypePathSegment>)
    ensures
        segment_models(s).len() == s.len(),
        forall|k: int| 0 <= k < s.len() ==> #[trigger] segment_models(s)[k] == segment_model(s[k]),
    decreases s.len(),
{
    if s.len() > 0 {
        lemma_segment_models(s.drop_last());
    }
}

/// The models of generic arguments have their length and model each argument at its position.
pub proof fn lemma_arg_models(s: Seq<GenericArg>)
    ensures
        arg_models(s).len() == s.len(),
        forall|k: int| 0 <= k < s.len() ==> #[trigger] arg_models(s)[k] == arg_model(s[k]),
    decreases s.len(),
{
    if s.len() > 0 {
        lemma_arg_models(s.drop_last());
    }
}

/// The models of bounds have their length and model each bound at its position.
pub proof fn lemma_bound_models(s: Seq<TypeBound>)
    ensures
        bound_models(s).len() == s.len(),
        forall|k: int| 0 <= k < s.len() ==> #[trigger] bound_models(s)[k] == bound_model(s[k]),
    decreases s.len(),
{
    if s.len() > 0 {
        lemma_bound_models(s.drop_last());
    }
}

impl TypeRef {
    /// Whether two types are written the same way.
    pub fn same_as(&self, other: &TypeRef) -> (r: bool)
        ensures
            r == same_type(*self, *other),
        decreases self,
    {
        match self {
            TypeRef::Path(a) => match other {
                TypeRef::Path(b) => {
                    proof {
                        assert(decreases_to!(*self => self->Path_0));
                    }
                    same_type_path_as(a, b)
                },
                _ => false,
            },
            TypeRef::Tuple(a) => match other {
                TypeRef::Tuple(b) => same_type_list_as(a, b),
                _ => false,
            },
            TypeRef::Reference { mutable: ma, inner: ia } => match other {
                TypeRef::Reference { mutable: mb, inner: ib } => {
                    proof {
                        assert(decreases_to!(*self => self->Reference_inner));
                    }
                    *ma == *mb && (**ia).same_as(&**ib)
                },
                _ => false,
            },
            TypeRef::RawPointer { mutable: ma, inner: ia } => match other {
                TypeRef::RawPointer { mutable: mb, inner: ib } => {
                    proof {
                        assert(decreases_to!(*self => self->RawPointer_inner));
                    }
                    *ma == *mb && (**ia).same_as(&**ib)
                },
                _ => false,
            },
            TypeRef::Slice(ia) => match other {
                TypeRef::Slice(ib) => {
                    proof {
                        assert(decreases_to!(*self => self->Slice_0));
                    }
                    (**ia).same_as(&**ib)
                },
                _ => false,
            },
            TypeRef::Array { inner: ia, len: la } => match other {
                TypeRef::Array { inner: ib, len: lb } => {
                    proof {
                        assert(decreases_to!(*self => self->Array_inner));
                    }
                    *la == *lb && (**ia).same_as(&**ib)
                },
                _ => false,
            },
            TypeRef::FnPointer { params: pa, ret: ra } => match other {
                TypeRef::FnPointer { params: pb, ret: rb } => {
                    proof {
                        assert(decreases_to!(*self => self->ret));
                    }
                    same_type_list_as(pa, pb) && (**ra).same_as(&**rb)
                },
                _ => false,
            },
            TypeRef::ImplTrait(a) => match other {
                TypeRef::ImplTrait(b) => same_bound_list_as(a, b),
                _ => false,
            },
            TypeRef::DynTrait(a) => match other {
                TypeRef::DynTrait(b) => same_bound_list_as(a, b),
                _ => false,
            },
            TypeRef::Unknown(a) => match other {
                TypeRef::Unknown(b) => *a == *b,
                _ => false,
            },
            TypeRef::Never => match other {
                TypeRef::Never => true,
                _ => false,
            },
            TypeRef::Unit => match other {
                TypeRef::Unit => true,
                _ => false,
            },
            TypeRef::Infer => match other {
                TypeRef::Infer => true,
                _ => false,
            },
        }
    }
}

/// Whether two lists of types are written the same way.
fn same_type_list_as(a: &Vec<TypeRef>, b: &Vec<TypeRef>) -> (r: bool)
    ensures
        r == (type_models(a@) == type_models(b@)),
    decreases a,
{
    proof {
        lemma_type_models(a@);
        lemma_type_models(b@);
    }
    if a.len() != b.len() {
        return false;
    }
    let mut i: usize = 0;
    while i < a.len()
        invariant
            a@.len() == b@.len(),
            i <= a@.len(),
            type_models(a@).len() == a@.len(),
            type_models(b@).len() == b@.len(),
            forall|k: int| 0 <= k < a@.len() ==> #[trigger] type_models(a@)[k] == type_model(a@[k]),
            forall|k: int| 0 <= k < b@.len() ==> #[trigger] type_models(b@)[k] == type_model(b@[k]),
            forall|k: int| 0 <= k < i ==> type_model(#[trigger] a@[k]) == type_model(b@[k]),
        decreases a.len() - i,
    {
        proof {
            assert(decreases_to!(*a => a@));
            assert(decreases_to!(a@ => a@[i as int]));
        }
        if !a[i].same_as(&b[i]) {
            proof {
                assert(type_models(a@)[i as int] != type_models(b@)[i as int]);
            }
            return false;
        }
        i = i + 1;
    }
    proof {
        assert(type_models(a@) =~= type_models(b@));
    }
    true
}

/// Whether two type paths are written the same way.
fn same_type_path_as(a: &TypePath, b: &TypePath) -> (r: bool)
    ensures
        r == (path_model(*a) == path_model(*b)),
    decreases a,
{
    proof {
        lemma_segment_models(a.segments@);
        lemma_segment_models(b.segments@);
    }
    if a.absolute != b.absolute || a.segments.len() != b.segments.len() {
        proof {
            if a.segments.len() != b.segments.len() {
                assert(segment_models(a.segments@).len() != segment_models(b.segments@).len());
            }
        }
        return false;
    }
    let mut i: usize = 0;
    while i < a.segments.len()
        invariant
            a.segments@.len() == b.segments@.len(),
            i <= a.segments@.len(),
            segment_models(a.segments@).len() == a.segments@.len(),
            segment_models(b.segments@).len() == b.segments@.len(),
            forall|k: int| 0 <= k < a.segments@.len() ==> #[trigger] segment_models(a.segments@)[k] == segment_model(a.segments@[k]),
            forall|k: int| 0 <= k < b.segments@.len() ==> #[trigger] segment_models(b.segments@)[k] == segment_model(b.segments@[k]),
            forall|k: int| 0 <= k < i ==> segment_model(#[trigger] a.segments@[k]) == segment_model(b.segments@[k]),
        decreases a.segments.len() - i,
    {
        let sa = &a.segments[i];
        let sb = &b.segments[i];
        proof {
            assert(decreases_to!(*a => a.segments));
            assert(decreases_to!(a.segments => a.segments@));
            assert(decreases_to!(a.segments@ => a.segments@[i as int]));
            assert(decreases_to!(*sa => sa.args));
        }
        let same = sa.name == sb.name && sa.span == sb.span && same_arg_list_as(&sa.args, &sb.args);
        if !same {
            proof {
                assert(segment_models(a.segments@)[i as int] != segment_models(b.segments@)[i as int]);
            }
            return false;
        }
        i = i + 1;
    }
    proof {
        assert(segment_models(a.segments@) =~= segment_models(b.segments@));
    }
    true
}

/// Whether two lists of generic arguments are written the same way.
fn same_arg_list_as(a: &Vec<GenericArg>, b: &Vec<GenericArg>) -> (r: bool)
    ensures
        r == (arg_models(a@) == arg_models(b@)),
    decreases a,
{
    proof {
        lemma_arg_models(a@);
        lemma_arg_models(b@);
    }
    if a.len() != b.len() {
        return false;
    }
    let mut i: usize = 0;
    while i < a.len()
        invariant
            a@.len() == b@.len(),
            i <= a@.len(),
            arg_models(a@).len() == a@.len(),
            arg_models(b@).len() == b@.len(),
            forall|k: int| 0 <= k < a@.len() ==> #[trigger] arg_models(a@)[k] == arg_model(a@[k]),
            forall|k: int| 0 <= k < b@.len() ==> #[trigger] arg_models(b@)[k] == arg_model(b@[k]),
            forall|k: int| 0 <= k < i ==> arg_model(#[trigger] a@[k]) == arg_model(b@[k]),
        decreases a.len() - i,
    {
        proof {
            assert(decreases_to!(*a => a@));
            assert(decreases_to!(a@ => a@[i as int]));
        }
        if !same_arg_as(&a[i], &b[i]) {
            proof {
                assert(arg_models(a@)[i as int] != arg_models(b@)[i as int]);
            }
            return false;
        }
        i = i + 1;
    }
    proof {
        assert(arg_models(a@) =~= arg_models(b@));
    }
    true
}

/// Whether two generic arguments are written the same way.
fn same_arg_as(a: &GenericArg, b: &GenericArg) -> (r: bool)
    ensures
        r == (arg_model(*a) == arg_model(*b)),
    decreases a,
{
    match a {
        GenericArg::Type(ta) => match b {
            GenericArg::Type(tb) => {
                proof {
                    assert(decreases_to!(*a => a->Type_0));
                }
                ta.same_as(tb)
            },
            _ => false,
        },
        GenericArg::Lifetime(ta) => match b {
            GenericArg::Lifetime(tb) => *ta == *tb,
            _ => false,
        },
        GenericArg::Const(ta) => match b {
            GenericArg::Const(tb) => *ta == *tb,
            _ => false,
        },
        GenericArg::AssocType { name: na, ty: ta } => match b {
            GenericArg::AssocType { name: nb, ty: tb } => {
                if *na != *nb {
                    return false;
                }
                match ta {
                    Some(x) => match tb {
                        Some(y) => {
                            proof {
                                assert(decreases_to!(*a => a->AssocType_ty));
                                assert(decreases_to!(a->AssocType_ty => a->AssocType_ty->0));
                            }
                            x.same_as(y)
                        },
                        None => false,
                    },
                    None => match tb {
                        Some(_) => false,
                        None => true,
                    },
                }
            },
            _ => false,
        },
        GenericArg::Unsupported(ta) => match b {
            GenericArg::Unsupported(tb) => *ta == *tb,
            _ => false,
        },
    }
}

/// Whether two lists of bounds are written the same way.
fn same_bound_list_as(a: &Vec<TypeBound>, b: &Vec<TypeBound>) -> (r: bool)
    ensures
        r == (bound_models(a@) == bound_models(b@)),
    decreases a,
{
    proof {
        lemma_bound_models(a@);
        lemma_bound_models(b@);
    }
    if a.len() != b.len() {
        return false;
    }
    let mut i: usize = 0;
    while i < a.len()
        invariant
            a@.len() == b@.len(),
            i <= a@.len(),
            bound_models(a@).len() == a@.len(),
            bound_models(b@).len() == b@.len(),
            forall|k: int| 0 <= k < a@.len() ==> #[trigger] bound_models(a@)[k] == bound_model(a@[k]),
            forall|k: int| 0 <= k < b@.len() ==> #[trigger] bound_models(b@)[k] == bound_model(b@[k]),
            forall|k: int| 0 <= k < i ==> bound_model(#[trigger] a@[k]) == bound_model(b@[k]),
        decreases a.len() - i,
    {
        proof {
            assert(decreases_to!(*a => a@));
            assert(decreases_to!(a@ => a@[i as int]));
        }
        let same = match &a[i] {
            TypeBound::Trait(ta) => match &b[i] {
                TypeBound::Trait(tb) => {
                    proof {
                        assert(decreases_to!(a@[i as int] => a@[i as int]->Trait_0));
                    }
                    ta.same_as(tb)
                },
                _ => false,
            },
            TypeBound::Lifetime(ta) => match &b[i] {
                TypeBound::Lifetime(tb) => *ta == *tb,
                _ => false,
            },
            TypeBound::Unsupported(ta) => match &b[i] {
                TypeBound::Unsupported(tb) => *ta == *tb,
                _ => false,
            },
        };
        if !same {
            proof {
                assert(bound_models(a@)[i as int] != bound_models(b@)[i as int]);
            }
            return false;
        }
        i = i + 1;
    }
    proof {
        assert(bound_models(a@) =~= bound_models(b@));
    }
    true
}

impl TypeRef {
    /// Copies the type as written.
    pub fn duplicate(&self) -> (r: Self)
        ensures
            same_type(*self, r),
        decreases self,
    {
        match self {
            TypeRef::Path(path) => {
                proof {
                    assert(decreases_to!(*self => self->Path_0));
                }
                TypeRef::Path(duplicate_type_path(path))
            },
            TypeRef::Tuple(types) => TypeRef::Tuple(duplicate_type_refs(types)),
            TypeRef::Reference { mutable, inner } => {
                proof {
                    assert(decreases_to!(*self => self->Reference_inner));
                }
                TypeRef::Reference { mutable: *mutable, inner: Box::new((**inner).duplicate()) }
            },
            TypeRef::RawPointer { mutable, inner } => {
                proof {
                    assert(decreases_to!(*self => self->RawPointer_inner));
                }
                TypeRef::RawPointer { mutable: *mutable, inner: Box::new((**inner).duplicate()) }
            },
            TypeRef::Slice(inner) => {
                proof {
                    assert(decreases_to!(*self => self->Slice_0));
                }
                TypeRef::Slice(Box::new((**inner).duplicate()))
            },
            TypeRef::Array { inner, len } => {
                proof {
                    assert(decreases_to!(*self => self->Array_inner));
                }
                TypeRef::Array { inner: Box::new((**inner).duplicate()), len: len.clone() }
            },
            TypeRef::FnPointer { params, ret } => {
                proof {
                    assert(decreases_to!(*self => self->ret));
                }
                TypeRef::FnPointer { params: duplicate_type_refs(params), ret: Box::new((**ret).duplicate()) }
            },
            TypeRef::ImplTrait(bounds) => TypeRef::ImplTrait(duplicate_bounds(bounds)),
            TypeRef::DynTrait(bounds) => TypeRef::DynTrait(duplicate_bounds(bounds)),
            TypeRef::Unknown(text) => TypeRef::Unknown(text.clone()),
            TypeRef::Never => TypeRef::Never,
            TypeRef::Unit => TypeRef::Unit,
            TypeRef::Infer => TypeRef::Infer,
        }
    }
}

/// Copies a list of types.
fn duplicate_type_refs(types: &Vec<TypeRef>) -> (r: Vec<TypeRef>)
    ensures
        type_models(types@) == type_models(r@),
    decreases types,
{
    let mut out: Vec<TypeRef> = Vec::new();
    let mut i: usize = 0;
    while i < types.len()
        invariant
            i <= types@.len(),
            type_models(types@.take(i as int)) == type_models(out@),
        decreases types.len() - i,
    {
        proof {
            assert(decreases_to!(*types => types@));
            assert(decreases_to!(types@ => types@[i as int]));
        }
        let ghost before = out@;
        out.push(types[i].duplicate());
        proof {
            assert(types@.take(i + 1).drop_last() =~= types@.take(i as int));
            assert(out@.drop_last() =~= before);
        }
        i = i + 1;
    }
    proof {
        assert(types@.take(types@.len() as int) =~= types@);
    }
    out
}

/// Copies one generic argument.
fn duplicate_arg(arg: &GenericArg) -> (r: GenericArg)
    ensures
        arg_model(*arg) == arg_model(r),
    decreases arg,
{
    match arg {
        GenericArg::Type(ty) => {
            proof {
                assert(decreases_to!(*arg => arg->Type_0));
            }
            GenericArg::Type(ty.duplicate())
        },
        GenericArg::Lifetime(text) => GenericArg::Lifetime(text.clone()),
        GenericArg::Const(text) => GenericArg::Const(text.clone()),
        GenericArg::AssocType { name, ty } => {
            let copy = match ty {
                Some(t) => {
                    proof {
                        assert(decreases_to!(*arg => arg->AssocType_ty));
                        assert(decreases_to!(arg->AssocType_ty => arg->AssocType_ty->0));
                    }
                    Some(t.duplicate())
                },
                None => None,
            };
            GenericArg::AssocType { name: name.clone(), ty: copy }
        },
        GenericArg::Unsupported(text) => GenericArg::Unsupported(text.clone()),
    }
}

/// Copies a type path.
fn duplicate_type_path(path: &TypePath) -> (r: TypePath)
    ensures
        path_model(*path) == path_model(r),
    decreases path,
{
    let mut segments: Vec<TypePathSegment> = Vec::new();
    let mut i: usize = 0;
    while i < path.segments.len()
        invariant
            i <= path.segments@.len(),
            segment_models(path.segments@.take(i as int)) == segment_models(segments@),
        decreases path.segments.len() - i,
    {
        let segment = &path.segments[i];
        let mut args: Vec<GenericArg> = Vec::new();
        let mut j: usize = 0;
        while j < segment.args.len()
            invariant
                i < path.segments@.len(),
                *segment == path.segments@[i as int],
                j <= segment.args@.len(),
                arg_models(segment.args@.take(j as int)) == arg_models(args@),
            decreases segment.args.len() - j,
        {
            proof {
                assert(decreases_to!(*path => path.segments));
                assert(decreases_to!(path.segments => path.segments@));
                assert(decreases_to!(path.segments@ => path.segments@[i as int]));
                assert(decreases_to!(*segment => segment.args));
                assert(decreases_to!(segment.args => segment.args@));
                assert(decreases_to!(segment.args@ => segment.args@[j as int]));
            }
            let ghost before_args = args@;
            args.push(duplicate_arg(&segment.args[j]));
            proof {
                assert(segment.args@.take(j + 1).drop_last() =~= segment.args@.take(j as int));
                assert(args@.drop_last() =~= before_args);
            }
            j = j + 1;
        }
        proof {
            assert(segment.args@.take(segment.args@.len() as int) =~= segment.args@);
        }
        let copy = TypePathSegment { name: segment.name.clone(), span: segment.span, args };
        proof {
            assert(segment_model(path.segments@[i as int]) == segment_model(copy));
        }
        let ghost before = segments@;
        segments.push(copy);
        proof {
            assert(path.segments@.take(i + 1).drop_last() =~= path.segments@.take(i as int));
            assert(segments@.drop_last() =~= before);
        }
        i = i + 1;
    }
    proof {
        assert(path.segments@.take(path.segments@.len() as int) =~= path.segments@);
    }
    TypePath { absolute: path.absolute, segments }
}

/// Copies trait bounds.
fn duplicate_bounds(bounds: &Vec<TypeBound>) -> (r: Vec<TypeBound>)
    ensures
        bound_models(bounds@) == bound_models(r@),
    decreases bounds,
{
    let mut out: Vec<TypeBound> = Vec::new();
    let mut i: usize = 0;
    while i < bounds.len()
        invariant
            i <= bounds@.len(),
            bound_models(bounds@.take(i as int)) == bound_models(out@),
        decreases bounds.len() - i,
    {
        proof {
            assert(decreases_to!(*bounds => bounds@));
            assert(decreases_to!(bounds@ => bounds@[i as int]));
        }
        let bound = match &bounds[i] {
            TypeBound::Trait(ty) => {
                proof {
                    assert(decreases_to!(bounds@[i as int] => bounds@[i as int]->Trait_0));
                }
                TypeBound::Trait(ty.duplicate())
            },
            TypeBound::Lifetime(text) => TypeBound::Lifetime(text.clone()),
            TypeBound::Unsupported(text) => TypeBound::Unsupported(text.clone()),
        };
        proof {
            assert(bound_model(bounds@[i as int]) == bound_model(bound));
        }
        let ghost before = out@;
        out.push(bound);
        proof {
            assert(bounds@.take(i + 1).last() == bounds@[i as int]);
            assert(bounds@.take(i + 1).drop_last() =~= bounds@.take(i as int));
            assert(out@.drop_last() =~= before);
        }
        i = i + 1;
    }
    proof {
        assert(bounds@.take(bounds@.len() as int) =~= bounds@);
    }
    out
}

} // verus!
