//! The semantic facts that body resolution reads: which module-level definitions are types,
//! traits and functions, their fields and associated functions, the self types of impls, and
//! the context in which a function's signature names types.
//!
//! The index holds these facts as plain values; the resolution logic reads them through the
//! lookups below and through [`SemanticIndex::resolve_type_path`].

use vstd::prelude::*;

use crate::body::field_has_key;
use crate::body_ids::BodyItemRef;
use crate::body_resolve::BodyTypePathResolution;
use crate::db::DefMapDb;
use crate::ids::{DefId, LocalDefRef, ModuleRef, TargetRef};
use crate::item_tree::{FieldItem, FieldKey, FieldList, FieldRef, FunctionItem, FunctionRef, GenericParams, TraitRef, TypeDefRef, TypeRef};
use crate::path::{Path, PathView};
use crate::resolution::{EnvModel, resolve_path};
use crate::text::{FileId, Span};

verus! {

/// The first position of `s` whose entry satisfies `p`.
pub open spec fn first_match<T>(s: Seq<T>, p: spec_fn(T) -> bool) -> Option<int>
    decreases s.len(),
{
    if s.len() == 0 {
        None
    } else {
        match first_match(s.drop_last(), p) {
            Some(i) => Some(i),
            None => if p(s.last()) {
                Some(s.len() - 1)
            } else {
                None
            },
        }
    }
}

/// The first match is the position of a matching entry with no match before it.
pub proof fn lemma_first_match_at<T>(s: Seq<T>, p: spec_fn(T) -> bool, i: int)
    requires
        0 <= i < s.len(),
        p(s[i]),
        forall|j: int| 0 <= j < i ==> !p(#[trigger] s[j]),
    ensures
        first_match(s, p) == Some(i),
    decreases s.len(),
{
    if i < s.len() - 1 {
        lemma_first_match_at(s.drop_last(), p, i);
    } else {
        lemma_first_match_none(s.drop_last(), p);
    }
}

/// Without a matching entry there is no first match.
pub proof fn lemma_first_match_none<T>(s: Seq<T>, p: spec_fn(T) -> bool)
    requires
        forall|j: int| 0 <= j < s.len() ==> !p(#[trigger] s[j]),
    ensures
        first_match(s, p) is None,
    decreases s.len(),
{
    if s.len() > 0 {
        lemma_first_match_none(s.drop_last(), p);
    }
}

/// `s` with `x` appended unless it already holds `x`.
pub open spec fn push_distinct<T>(s: Seq<T>, x: T) -> Seq<T> {
    if s.contains(x) {
        s
    } else {
        s.push(x)
    }
}

/// Stable identifier of one impl block inside a target's semantic data.
#[derive(Debug, Clone, Copy, PartialEq, Eq, Hash, Structural)]
pub struct ImplId(pub usize);

/// Stable reference to one impl block across the project.
#[derive(Debug, Clone, Copy, PartialEq, Eq, Hash, Structural)]
pub struct ImplRef {
    pub target: TargetRef,
    pub id: ImplId,
}

/// Where type paths of a signature are resolved: a module, and the impl that `Self` names.
#[derive(Debug, Clone, Copy, PartialEq, Eq, Structural)]
pub struct TypePathContext {
    pub module: ModuleRef,
    pub impl_ref: Option<ImplRef>,
}

impl TypePathContext {
    /// The context of a module, outside any impl.
    pub fn module(module: ModuleRef) -> (r: Self)
        ensures
            r == (TypePathContext { module, impl_ref: None }),
    {
        TypePathContext { module, impl_ref: None }
    }
}

/// Which kind of type a type definition declares.
#[derive(Debug, Clone, Copy, PartialEq, Eq, Structural)]
pub enum TypeDefKind {
    Struct,
    Enum,
    Union,
}

/// One variant of an enum with its fields.
#[derive(Debug)]
pub struct SemanticVariant {
    pub name: String,
    pub fields: FieldList,
}

/// One module-level type definition.
#[derive(Debug)]
pub struct SemanticTypeDef {
    pub def: TypeDefRef,
    pub kind: TypeDefKind,
    pub local_def: LocalDefRef,
    pub owner_module: ModuleRef,
    /// The file that declares the type.
    pub file_id: FileId,
    pub generics: GenericParams,
    /// The fields of a struct or union; none for an enum.
    pub fields: FieldList,
    /// The variants of an enum; none for a struct or union.
    pub variants: Vec<SemanticVariant>,
}

/// One module-level trait.
#[derive(Debug)]
pub struct SemanticTrait {
    pub trait_ref: TraitRef,
    pub local_def: LocalDefRef,
    /// The functions the trait declares, in item order.
    pub functions: Vec<FunctionRef>,
}

/// What a module-level function belongs to.
#[derive(Debug, Clone, Copy, PartialEq, Eq, Structural)]
pub enum ItemOwner {
    Module(ModuleRef),
    Trait(TraitRef),
    Impl(ImplId),
}

/// One module-level function or associated function.
#[derive(Debug)]
pub struct SemanticFunction {
    pub function: FunctionRef,
    pub owner: ItemOwner,
    /// The def-map definition of a free function; associated functions have none.
    pub local_def: Option<LocalDefRef>,
    pub name: String,
    /// The file that declares the function.
    pub file_id: FileId,
    /// The span of the whole declaration.
    pub span: Span,
    /// The span of the function's name, where the declaration has one.
    pub name_span: Option<Span>,
    pub declaration: FunctionItem,
    /// Where the types of the signature are resolved.
    pub context: Option<TypePathContext>,
}

impl SemanticFunction {
    /// Whether the first parameter is a `self` receiver.
    pub fn has_self_receiver(&self) -> (r: bool)
        ensures
            r == self.declaration.has_self_receiver_spec(),
    {
        self.declaration.has_self_receiver()
    }
}

/// One impl block.
#[derive(Debug)]
pub struct SemanticImpl {
    pub impl_ref: ImplRef,
    /// The module that declares the impl.
    pub owner: ModuleRef,
    /// The self type as written.
    pub self_ty: TypeRef,
    pub generics: GenericParams,
    /// The type definitions that the self type of the impl names.
    pub resolved_self_tys: Vec<TypeDefRef>,
    /// The trait the impl implements; none for an inherent impl.
    pub trait_ref: Option<TraitRef>,
    /// The functions the impl declares, in item order.
    pub functions: Vec<FunctionRef>,
}

/// Access to one field of a module-level type.
#[derive(Debug)]
pub struct SemanticFieldData<'a> {
    pub field: &'a FieldItem,
    pub owner_module: ModuleRef,
}

/// The semantic facts body resolution reads.
#[derive(Debug)]
pub struct SemanticIndex {
    pub type_defs: Vec<SemanticTypeDef>,
    pub traits: Vec<SemanticTrait>,
    pub functions: Vec<SemanticFunction>,
    pub impls: Vec<SemanticImpl>,
}

/// Model of what a type path names.
pub enum TypePathView {
    BodyLocal(BodyItemRef),
    SelfType(Seq<TypeDefRef>),
    TypeDefs(Seq<TypeDefRef>),
    Traits(Seq<TraitRef>),
    Unknown,
}

impl SemanticIndex {
    /// The type definition with reference `def`: the first one listed.
    pub open spec fn type_def_spec(self, def: TypeDefRef) -> Option<SemanticTypeDef> {
        match first_match(self.type_defs@, |t: SemanticTypeDef| t.def == def) {
            Some(i) => Some(self.type_defs@[i]),
            None => None,
        }
    }

    /// The type definition is an enum.
    pub open spec fn is_enum_spec(self, ty: TypeDefRef) -> bool {
        match self.type_def_spec(ty) {
            Some(t) => t.kind == TypeDefKind::Enum,
            None => false,
        }
    }

    /// The variant of `ty` named `name`: the first one listed.
    pub open spec fn enum_variant_spec(self, ty: TypeDefRef, name: Seq<char>) -> Option<SemanticVariant> {
        match self.type_def_spec(ty) {
            Some(t) => match first_match(t.variants@, |v: SemanticVariant| v.name@ == name) {
                Some(i) => Some(t.variants@[i]),
                None => None,
            },
            None => None,
        }
    }

    /// The type definition of a def-map definition: the first one listed.
    pub open spec fn type_def_for_local_def_spec(self, def: LocalDefRef) -> Option<TypeDefRef> {
        match first_match(self.type_defs@, |t: SemanticTypeDef| t.local_def == def) {
            Some(i) => Some(self.type_defs@[i].def),
            None => None,
        }
    }

    /// The trait of a def-map definition: the first one listed.
    pub open spec fn trait_for_local_def_spec(self, def: LocalDefRef) -> Option<TraitRef> {
        match first_match(self.traits@, |t: SemanticTrait| t.local_def == def) {
            Some(i) => Some(self.traits@[i].trait_ref),
            None => None,
        }
    }

    /// The function with reference `function`: the first one listed.
    pub open spec fn function_spec(self, function: FunctionRef) -> Option<SemanticFunction> {
        match first_match(self.functions@, |f: SemanticFunction| f.function == function) {
            Some(i) => Some(self.functions@[i]),
            None => None,
        }
    }

    /// The function of a def-map definition: the first one listed.
    pub open spec fn function_for_local_def_spec(self, def: LocalDefRef) -> Option<FunctionRef> {
        match first_match(self.functions@, |f: SemanticFunction| f.local_def == Some(def)) {
            Some(i) => Some(self.functions@[i].function),
            None => None,
        }
    }

    /// The context in which the signature of `function` names types.
    pub open spec fn function_context_spec(self, function: FunctionRef) -> Option<TypePathContext> {
        match self.function_spec(function) {
            Some(f) => f.context,
            None => None,
        }
    }

    /// The impl with reference `impl_ref`: the first one listed.
    pub open spec fn impl_spec(self, impl_ref: ImplRef) -> Option<SemanticImpl> {
        match first_match(self.impls@, |i: SemanticImpl| i.impl_ref == impl_ref) {
            Some(i) => Some(self.impls@[i]),
            None => None,
        }
    }

    /// The field of `ty` declared under `key`: the first field with that key.
    pub open spec fn field_for_type_spec(self, ty: TypeDefRef, key: crate::item_tree::FieldKeyView) -> Option<FieldRef> {
        match self.type_def_spec(ty) {
            Some(t) => match first_match(t.fields.fields@, |f: FieldItem| field_has_key(f, key)) {
                Some(i) => Some(FieldRef { owner: ty, index: i as usize }),
                None => None,
            },
            None => None,
        }
    }

    /// The declaration of a field and the module of its type.
    pub open spec fn field_spec(self, field: FieldRef) -> Option<(FieldItem, ModuleRef)> {
        match self.type_def_spec(field.owner) {
            Some(t) => if field.index < t.fields.fields@.len() {
                Some((t.fields.fields@[field.index as int], t.owner_module))
            } else {
                None
            },
            None => None,
        }
    }

    /// The functions of the inherent impls whose self type names `ty`: impl by impl, in item
    /// order, each once.
    pub open spec fn inherent_functions_spec(self, ty: TypeDefRef) -> Seq<FunctionRef> {
        inherent_impl_functions(self.impls@, ty)
    }

    /// The functions declared by trait `t`, none for an unknown trait.
    pub open spec fn trait_items_spec(self, t: TraitRef) -> Seq<FunctionRef> {
        match first_match(self.traits@, |x: SemanticTrait| x.trait_ref == t) {
            Some(i) => self.traits@[i].functions@,
            None => Seq::empty(),
        }
    }

    /// The functions of the traits that impls whose self type names `ty` implement: impl by
    /// impl, in the trait's item order, each once.
    pub open spec fn trait_functions_spec(self, ty: TypeDefRef) -> Seq<FunctionRef> {
        trait_impl_functions(self, self.impls@, ty)
    }

    fn type_def_position(&self, def: TypeDefRef) -> (r: Option<usize>)
        ensures
            match r {
                Some(i) => first_match(self.type_defs@, |t: SemanticTypeDef| t.def == def) == Some(i as int)
                    && i < self.type_defs@.len(),
                None => first_match(self.type_defs@, |t: SemanticTypeDef| t.def == def) is None,
            },
    {
        let ghost p = |t: SemanticTypeDef| t.def == def;
        let mut i: usize = 0;
        while i < self.type_defs.len()
            invariant
                i <= self.type_defs@.len(),
                p == (|t: SemanticTypeDef| t.def == def),
                forall|j: int| 0 <= j < i ==> !p(#[trigger] self.type_defs@[j]),
            decreases self.type_defs.len() - i,
        {
            if self.type_defs[i].def == def {
                proof {
                    lemma_first_match_at(self.type_defs@, p, i as int);
                }
                return Some(i);
            }
            i = i + 1;
        }
        proof {
            lemma_first_match_none(self.type_defs@, p);
        }
        None
    }

    /// The type definition with reference `ty`.
    pub fn type_def_data(&self, ty: TypeDefRef) -> (r: Option<&SemanticTypeDef>)
        ensures
            match r {
                Some(t) => self.type_def_spec(ty) == Some(*t),
                None => self.type_def_spec(ty) is None,
            },
    {
        match self.type_def_position(ty) {
            Some(pos) => Some(&self.type_defs[pos]),
            None => None,
        }
    }

    /// Whether a type definition is an enum.
    pub fn is_enum(&self, ty: TypeDefRef) -> (r: bool)
        ensures
            r == self.is_enum_spec(ty),
    {
        match self.type_def_position(ty) {
            Some(pos) => match self.type_defs[pos].kind {
                TypeDefKind::Enum => true,
                _ => false,
            },
            None => false,
        }
    }

    /// The generic parameters of a type definition.
    pub fn generic_params_for_type_def(&self, ty: TypeDefRef) -> (r: Option<&GenericParams>)
        ensures
            match r {
                Some(g) => self.type_def_spec(ty) matches Some(t) && t.generics == *g,
                None => self.type_def_spec(ty) is None,
            },
    {
        match self.type_def_position(ty) {
            Some(pos) => Some(&self.type_defs[pos].generics),
            None => None,
        }
    }

    /// The variant of `ty` named `name`.
    pub fn enum_variant_for_type_def(&self, ty: TypeDefRef, name: &String) -> (r: Option<&SemanticVariant>)
        ensures
            match r {
                Some(v) => self.enum_variant_spec(ty, name@) == Some(*v),
                None => self.enum_variant_spec(ty, name@) is None,
            },
    {
        let pos = match self.type_def_position(ty) {
            Some(pos) => pos,
            None => return None,
        };
        let variants = &self.type_defs[pos].variants;
        let ghost p = |v: SemanticVariant| v.name@ == name@;
        let mut i: usize = 0;
        while i < variants.len()
            invariant
                i <= variants@.len(),
                pos < self.type_defs@.len(),
                first_match(self.type_defs@, |t: SemanticTypeDef| t.def == ty) == Some(pos as int),
                *variants == self.type_defs@[pos as int].variants,
                p == (|v: SemanticVariant| v.name@ == name@),
                forall|j: int| 0 <= j < i ==> !p(#[trigger] variants@[j]),
            decreases variants.len() - i,
        {
            if variants[i].name == *name {
                proof {
                    lemma_first_match_at(variants@, p, i as int);
                }
                return Some(&variants[i]);
            }
            i = i + 1;
        }
        proof {
            lemma_first_match_none(variants@, p);
        }
        None
    }

    /// The type definition that a def-map definition declares.
    pub fn type_def_for_local_def(&self, def: LocalDefRef) -> (r: Option<TypeDefRef>)
        ensures
            r == self.type_def_for_local_def_spec(def),
    {
        let ghost p = |t: SemanticTypeDef| t.local_def == def;
        let mut i: usize = 0;
        while i < self.type_defs.len()
            invariant
                i <= self.type_defs@.len(),
                p == (|t: SemanticTypeDef| t.local_def == def),
                forall|j: int| 0 <= j < i ==> !p(#[trigger] self.type_defs@[j]),
            decreases self.type_defs.len() - i,
        {
            if self.type_defs[i].local_def == def {
                proof {
                    lemma_first_match_at(self.type_defs@, p, i as int);
                }
                return Some(self.type_defs[i].def);
            }
            i = i + 1;
        }
        proof {
            lemma_first_match_none(self.type_defs@, p);
        }
        None
    }

    /// The trait that a def-map definition declares.
    pub fn trait_for_local_def(&self, def: LocalDefRef) -> (r: Option<TraitRef>)
        ensures
            r == self.trait_for_local_def_spec(def),
    {
        let ghost p = |t: SemanticTrait| t.local_def == def;
        let mut i: usize = 0;
        while i < self.traits.len()
            invariant
                i <= self.traits@.len(),
                p == (|t: SemanticTrait| t.local_def == def),
                forall|j: int| 0 <= j < i ==> !p(#[trigger] self.traits@[j]),
            decreases self.traits.len() - i,
        {
            if self.traits[i].local_def == def {
                proof {
                    lemma_first_match_at(self.traits@, p, i as int);
                }
                return Some(self.traits[i].trait_ref);
            }
            i = i + 1;
        }
        proof {
            lemma_first_match_none(self.traits@, p);
        }
        None
    }

    /// The function with reference `function`.
    pub fn function_data(&self, function: FunctionRef) -> (r: Option<&SemanticFunction>)
        ensures
            match r {
                Some(f) => self.function_spec(function) == Some(*f),
                None => self.function_spec(function) is None,
            },
    {
        let ghost p = |f: SemanticFunction| f.function == function;
        let mut i: usize = 0;
        while i < self.functions.len()
            invariant
                i <= self.functions@.len(),
                p == (|f: SemanticFunction| f.function == function),
                forall|j: int| 0 <= j < i ==> !p(#[trigger] self.functions@[j]),
            decreases self.functions.len() - i,
        {
            if self.functions[i].function == function {
                proof {
                    lemma_first_match_at(self.functions@, p, i as int);
                }
                return Some(&self.functions[i]);
            }
            i = i + 1;
        }
        proof {
            lemma_first_match_none(self.functions@, p);
        }
        None
    }

    /// The function that a def-map definition declares.
    pub fn function_for_local_def(&self, def: LocalDefRef) -> (r: Option<FunctionRef>)
        ensures
            r == self.function_for_local_def_spec(def),
    {
        let ghost p = |f: SemanticFunction| f.local_def == Some(def);
        let mut i: usize = 0;
        while i < self.functions.len()
            invariant
                i <= self.functions@.len(),
                p == (|f: SemanticFunction| f.local_def == Some(def)),
                forall|j: int| 0 <= j < i ==> !p(#[trigger] self.functions@[j]),
            decreases self.functions.len() - i,
        {
            if self.functions[i].local_def == Some(def) {
                proof {
                    lemma_first_match_at(self.functions@, p, i as int);
                }
                return Some(self.functions[i].function);
            }
            i = i + 1;
        }
        proof {
            lemma_first_match_none(self.functions@, p);
        }
        None
    }

    /// The context in which the signature of `function` names types.
    pub fn type_path_context_for_function(&self, function: FunctionRef) -> (r: Option<TypePathContext>)
        ensures
            r == self.function_context_spec(function),
    {
        match self.function_data(function) {
            Some(f) => f.context,
            None => None,
        }
    }

    /// The impl with reference `impl_ref`.
    pub fn impl_data(&self, impl_ref: ImplRef) -> (r: Option<&SemanticImpl>)
        ensures
            match r {
                Some(i) => self.impl_spec(impl_ref) == Some(*i),
                None => self.impl_spec(impl_ref) is None,
            },
    {
        let ghost p = |i: SemanticImpl| i.impl_ref == impl_ref;
        let mut i: usize = 0;
        while i < self.impls.len()
            invariant
                i <= self.impls@.len(),
                p == (|i: SemanticImpl| i.impl_ref == impl_ref),
                forall|j: int| 0 <= j < i ==> !p(#[trigger] self.impls@[j]),
            decreases self.impls.len() - i,
        {
            if self.impls[i].impl_ref == impl_ref {
                proof {
                    lemma_first_match_at(self.impls@, p, i as int);
                }
                return Some(&self.impls[i]);
            }
            i = i + 1;
        }
        proof {
            lemma_first_match_none(self.impls@, p);
        }
        None
    }

    /// The field of `ty` declared under `key`.
    pub fn field_for_type(&self, ty: TypeDefRef, key: &FieldKey) -> (r: Option<FieldRef>)
        ensures
            r == self.field_for_type_spec(ty, key@),
    {
        let pos = match self.type_def_position(ty) {
            Some(pos) => pos,
            None => return None,
        };
        let fields = &self.type_defs[pos].fields.fields;
        let ghost p = |f: FieldItem| field_has_key(f, key@);
        let mut i: usize = 0;
        while i < fields.len()
            invariant
                i <= fields@.len(),
                pos < self.type_defs@.len(),
                first_match(self.type_defs@, |t: SemanticTypeDef| t.def == ty) == Some(pos as int),
                *fields == self.type_defs@[pos as int].fields.fields,
                p == (|f: FieldItem| field_has_key(f, key@)),
                forall|j: int| 0 <= j < i ==> !p(#[trigger] fields@[j]),
            decreases fields.len() - i,
        {
            let matches = match &fields[i].key {
                Some(k) => k.same_as(key),
                None => false,
            };
            if matches {
                proof {
                    lemma_first_match_at(fields@, p, i as int);
                }
                return Some(FieldRef { owner: ty, index: i });
            }
            i = i + 1;
        }
        proof {
            lemma_first_match_none(fields@, p);
        }
        None
    }

    /// The declaration of a field and the module of the type that declares it.
    pub fn field_data(&self, field: FieldRef) -> (r: Option<SemanticFieldData<'_>>)
        ensures
            match r {
                Some(d) => self.field_spec(field) == Some((*d.field, d.owner_module)),
                None => self.field_spec(field) is None,
            },
    {
        let pos = match self.type_def_position(field.owner) {
            Some(pos) => pos,
            None => return None,
        };
        let t = &self.type_defs[pos];
        if field.index < t.fields.fields.len() {
            Some(SemanticFieldData { field: &t.fields.fields[field.index], owner_module: t.owner_module })
        } else {
            None
        }
    }

    /// References to every field of a module-level type, in declaration order; none for an
    /// unknown type.
    pub open spec fn fields_for_type_spec(self, ty: TypeDefRef) -> Seq<FieldRef> {
        match self.type_def_spec(ty) {
            Some(t) => Seq::new(t.fields.fields@.len(), |i: int| FieldRef { owner: ty, index: i as usize }),
            None => Seq::empty(),
        }
    }

    /// References to every field of a module-level type, as
    /// [`SemanticIndex::fields_for_type_spec`] states.
    pub fn fields_for_type(&self, ty: TypeDefRef) -> (r: Vec<FieldRef>)
        ensures
            r@ == self.fields_for_type_spec(ty),
    {
        let mut out: Vec<FieldRef> = Vec::new();
        let t = match self.type_def_data(ty) {
            Some(t) => t,
            None => return out,
        };
        let n = t.fields.fields.len();
        let mut i: usize = 0;
        while i < n
            invariant
                i <= n,
                out@ == Seq::new(i as nat, |k: int| FieldRef { owner: ty, index: k as usize }),
            decreases n - i,
        {
            out.push(FieldRef { owner: ty, index: i });
            proof {
                assert(out@ =~= Seq::new((i + 1) as nat, |k: int| FieldRef { owner: ty, index: k as usize }));
            }
            i = i + 1;
        }
        out
    }

    /// The functions of the inherent impls of `ty`, as [`SemanticIndex::inherent_functions_spec`]
    /// states.
    pub fn inherent_functions_for_type(&self, ty: TypeDefRef) -> (r: Vec<FunctionRef>)
        ensures
            r@ == self.inherent_functions_spec(ty),
    {
        let mut out: Vec<FunctionRef> = Vec::new();
        let mut i: usize = 0;
        while i < self.impls.len()
            invariant
                i <= self.impls@.len(),
                out@ == inherent_impl_functions(self.impls@.take(i as int), ty),
            decreases self.impls.len() - i,
        {
            proof {
                assert(self.impls@.take(i + 1).drop_last() =~= self.impls@.take(i as int));
                assert(self.impls@.take(i + 1).last() == self.impls@[i as int]);
            }
            let data = &self.impls[i];
            if data.trait_ref.is_none() && contains_type_def(&data.resolved_self_tys, ty) {
                push_all_distinct_functions(&mut out, &data.functions);
            }
            i = i + 1;
        }
        proof {
            assert(self.impls@.take(self.impls@.len() as int) =~= self.impls@);
        }
        out
    }

    /// The functions that trait `t` declares.
    pub fn trait_items(&self, t: TraitRef) -> (r: Vec<FunctionRef>)
        ensures
            r@ == self.trait_items_spec(t),
    {
        let ghost p = |x: SemanticTrait| x.trait_ref == t;
        let mut i: usize = 0;
        while i < self.traits.len()
            invariant
                i <= self.traits@.len(),
                p == (|x: SemanticTrait| x.trait_ref == t),
                forall|j: int| 0 <= j < i ==> !p(#[trigger] self.traits@[j]),
            decreases self.traits.len() - i,
        {
            if self.traits[i].trait_ref == t {
                proof {
                    lemma_first_match_at(self.traits@, p, i as int);
                }
                return copy_function_refs(&self.traits[i].functions);
            }
            i = i + 1;
        }
        proof {
            lemma_first_match_none(self.traits@, p);
        }
        Vec::new()
    }

    /// The def-map definition that declares trait `t`: that of the first trait listed with
    /// that reference.
    pub open spec fn trait_local_def_spec(self, t: TraitRef) -> Option<LocalDefRef> {
        match first_match(self.traits@, |x: SemanticTrait| x.trait_ref == t) {
            Some(i) => Some(self.traits@[i].local_def),
            None => None,
        }
    }

    /// The def-map definition that declares trait `t`.
    pub fn trait_local_def(&self, t: TraitRef) -> (r: Option<LocalDefRef>)
        ensures
            r == self.trait_local_def_spec(t),
    {
        let ghost p = |x: SemanticTrait| x.trait_ref == t;
        let mut i: usize = 0;
        while i < self.traits.len()
            invariant
                i <= self.traits@.len(),
                p == (|x: SemanticTrait| x.trait_ref == t),
                forall|j: int| 0 <= j < i ==> !p(#[trigger] self.traits@[j]),
            decreases self.traits.len() - i,
        {
            if self.traits[i].trait_ref == t {
                proof {
                    lemma_first_match_at(self.traits@, p, i as int);
                }
                return Some(self.traits[i].local_def);
            }
            i = i + 1;
        }
        proof {
            lemma_first_match_none(self.traits@, p);
        }
        None
    }

    /// The functions of the traits implemented for `ty`, as
    /// [`SemanticIndex::trait_functions_spec`] states.
    pub fn trait_functions_for_type(&self, ty: TypeDefRef) -> (r: Vec<FunctionRef>)
        ensures
            r@ == self.trait_functions_spec(ty),
    {
        let mut out: Vec<FunctionRef> = Vec::new();
        let mut i: usize = 0;
        while i < self.impls.len()
            invariant
                i <= self.impls@.len(),
                out@ == trait_impl_functions(*self, self.impls@.take(i as int), ty),
            decreases self.impls.len() - i,
        {
            proof {
                assert(self.impls@.take(i + 1).drop_last() =~= self.impls@.take(i as int));
                assert(self.impls@.take(i + 1).last() == self.impls@[i as int]);
            }
            let data = &self.impls[i];
            match data.trait_ref {
                Some(t) => {
                    if contains_type_def(&data.resolved_self_tys, ty) {
                        let items = self.trait_items(t);
                        push_all_distinct_functions(&mut out, &items);
                    }
                },
                None => {},
            }
            i = i + 1;
        }
        proof {
            assert(self.impls@.take(self.impls@.len() as int) =~= self.impls@);
        }
        out
    }
}

/// The type definitions that the definitions `defs` declare, first-seen order, each once.
pub open spec fn collect_type_defs(sem: SemanticIndex, defs: Seq<DefId>) -> Seq<TypeDefRef>
    decreases defs.len(),
{
    if defs.len() == 0 {
        Seq::empty()
    } else {
        let acc = collect_type_defs(sem, defs.drop_last());
        match defs.last() {
            DefId::Local(d) => match sem.type_def_for_local_def_spec(d) {
                Some(t) => push_distinct(acc, t),
                None => acc,
            },
            DefId::Module(_) => acc,
        }
    }
}

/// The traits that the definitions `defs` declare, first-seen order, each once.
pub open spec fn collect_traits(sem: SemanticIndex, defs: Seq<DefId>) -> Seq<TraitRef>
    decreases defs.len(),
{
    if defs.len() == 0 {
        Seq::empty()
    } else {
        let acc = collect_traits(sem, defs.drop_last());
        match defs.last() {
            DefId::Local(d) => match sem.trait_for_local_def_spec(d) {
                Some(t) => push_distinct(acc, t),
                None => acc,
            },
            DefId::Module(_) => acc,
        }
    }
}

/// What a type path names in `context`: `Self` names the self types of the context's impl;
/// any other path names the type definitions that its type-namespace resolution declares, else
/// the traits, else nothing known.
pub open spec fn semantic_type_path(sem: SemanticIndex, model: EnvModel, context: TypePathContext, path: PathView) -> TypePathView {
    if path.is_self_type() {
        match context.impl_ref {
            None => TypePathView::Unknown,
            Some(impl_ref) => {
                let types = match sem.impl_spec(impl_ref) {
                    Some(data) => data.resolved_self_tys@,
                    None => Seq::empty(),
                };
                if types.len() == 0 {
                    TypePathView::Unknown
                } else {
                    TypePathView::SelfType(types)
                }
            },
        }
    } else {
        let defs = resolve_path(model, context.module, path.absolute, path.segments, true).resolved;
        let types = collect_type_defs(sem, defs);
        if types.len() > 0 {
            TypePathView::TypeDefs(types)
        } else {
            let traits = collect_traits(sem, defs);
            if traits.len() > 0 {
                TypePathView::Traits(traits)
            } else {
                TypePathView::Unknown
            }
        }
    }
}

impl View for BodyTypePathResolution {
    type V = TypePathView;

    open spec fn view(&self) -> TypePathView {
        match self {
            BodyTypePathResolution::BodyLocal(item) => TypePathView::BodyLocal(*item),
            BodyTypePathResolution::SelfType(types) => TypePathView::SelfType(types@),
            BodyTypePathResolution::TypeDefs(types) => TypePathView::TypeDefs(types@),
            BodyTypePathResolution::Traits(traits) => TypePathView::Traits(traits@),
            BodyTypePathResolution::Unknown => TypePathView::Unknown,
        }
    }
}

impl SemanticIndex {
    /// Resolves a type path in `context`, as [`semantic_type_path`] states.
    pub fn resolve_type_path(&self, def_map: &DefMapDb, context: TypePathContext, path: &Path) -> (r: BodyTypePathResolution)
        ensures
            r@ == semantic_type_path(*self, def_map.model(), context, path@),
    {
        if path.is_self_type() {
            let impl_ref = match context.impl_ref {
                Some(impl_ref) => impl_ref,
                None => return BodyTypePathResolution::Unknown,
            };
            let types = match self.impl_data(impl_ref) {
                Some(data) => copy_type_def_refs(&data.resolved_self_tys),
                None => Vec::new(),
            };
            if types.len() == 0 {
                return BodyTypePathResolution::Unknown;
            }
            return BodyTypePathResolution::SelfType(types);
        }
        let resolved = def_map.resolve_path_in_type_namespace(context.module, path).resolved;
        let mut types: Vec<TypeDefRef> = Vec::new();
        let mut i: usize = 0;
        while i < resolved.len()
            invariant
                i <= resolved@.len(),
                types@ == collect_type_defs(*self, resolved@.take(i as int)),
            decreases resolved.len() - i,
        {
            proof {
                assert(resolved@.take(i + 1).drop_last() =~= resolved@.take(i as int));
            }
            if let DefId::Local(d) = resolved[i] {
                if let Some(t) = self.type_def_for_local_def(d) {
                    push_distinct_type_def(&mut types, t);
                }
            }
            i = i + 1;
        }
        proof {
            assert(resolved@.take(resolved@.len() as int) =~= resolved@);
        }
        if types.len() > 0 {
            return BodyTypePathResolution::TypeDefs(types);
        }
        let mut traits: Vec<TraitRef> = Vec::new();
        let mut i: usize = 0;
        while i < resolved.len()
            invariant
                i <= resolved@.len(),
                traits@ == collect_traits(*self, resolved@.take(i as int)),
            decreases resolved.len() - i,
        {
            proof {
                assert(resolved@.take(i + 1).drop_last() =~= resolved@.take(i as int));
            }
            if let DefId::Local(d) = resolved[i] {
                if let Some(t) = self.trait_for_local_def(d) {
                    push_distinct_trait(&mut traits, t);
                }
            }
            i = i + 1;
        }
        proof {
            assert(resolved@.take(resolved@.len() as int) =~= resolved@);
        }
        if traits.len() > 0 {
            BodyTypePathResolution::Traits(traits)
        } else {
            BodyTypePathResolution::Unknown
        }
    }
}

/// Appends `t` unless already present.
pub fn push_distinct_type_def(items: &mut Vec<TypeDefRef>, t: TypeDefRef)
    ensures
        final(items)@ == push_distinct(old(items)@, t),
{
    let mut i: usize = 0;
    while i < items.len()
        invariant
            items@ == old(items)@,
            i <= items@.len(),
            forall|j: int| 0 <= j < i ==> items@[j] != t,
        decreases items.len() - i,
    {
        if items[i] == t {
            proof {
                assert(old(items)@.contains(t));
            }
            return;
        }
        i = i + 1;
    }
    items.push(t);
}

/// Appends `t` unless already present.
fn push_distinct_trait(items: &mut Vec<TraitRef>, t: TraitRef)
    ensures
        final(items)@ == push_distinct(old(items)@, t),
{
    let mut i: usize = 0;
    while i < items.len()
        invariant
            items@ == old(items)@,
            i <= items@.len(),
            forall|j: int| 0 <= j < i ==> items@[j] != t,
        decreases items.len() - i,
    {
        if items[i] == t {
            proof {
                assert(old(items)@.contains(t));
            }
            return;
        }
        i = i + 1;
    }
    items.push(t);
}

/// A copy of a list of type definition references.
fn copy_type_def_refs(types: &Vec<TypeDefRef>) -> (r: Vec<TypeDefRef>)
    ensures
        r@ == types@,
{
    let mut out: Vec<TypeDefRef> = Vec::new();
    let mut i: usize = 0;
    while i < types.len()
        invariant
            i <= types@.len(),
            out@ == types@.take(i as int),
        decreases types.len() - i,
    {
        out.push(types[i]);
        proof {
            assert(out@ =~= types@.take(i + 1));
        }
        i = i + 1;
    }
    proof {
        assert(types@.take(types@.len() as int) =~= types@);
    }
    out
}

/// `s` followed by each element of `more` that is not yet among them, in order.
pub open spec fn push_all_distinct<T>(s: Seq<T>, more: Seq<T>) -> Seq<T>
    decreases more.len(),
{
    if more.len() == 0 {
        s
    } else {
        push_distinct(push_all_distinct(s, more.drop_last()), more.last())
    }
}

/// The functions of the inherent impls among `impls` whose self type names `ty`, impl by impl,
/// each once.
pub open spec fn inherent_impl_functions(impls: Seq<SemanticImpl>, ty: TypeDefRef) -> Seq<FunctionRef>
    decreases impls.len(),
{
    if impls.len() == 0 {
        Seq::empty()
    } else {
        let before = inherent_impl_functions(impls.drop_last(), ty);
        let last = impls.last();
        if last.trait_ref is None && last.resolved_self_tys@.contains(ty) {
            push_all_distinct(before, last.functions@)
        } else {
            before
        }
    }
}

/// The functions of the traits that the trait impls among `impls` whose self type names `ty`
/// implement, impl by impl, each once.
pub open spec fn trait_impl_functions(sem: SemanticIndex, impls: Seq<SemanticImpl>, ty: TypeDefRef) -> Seq<FunctionRef>
    decreases impls.len(),
{
    if impls.len() == 0 {
        Seq::empty()
    } else {
        let before = trait_impl_functions(sem, impls.drop_last(), ty);
        let last = impls.last();
        match last.trait_ref {
            Some(t) => if last.resolved_self_tys@.contains(ty) {
                push_all_distinct(before, sem.trait_items_spec(t))
            } else {
                before
            },
            None => before,
        }
    }
}

fn contains_type_def(tys: &Vec<TypeDefRef>, ty: TypeDefRef) -> (r: bool)
    ensures
        r == tys@.contains(ty),
{
    let mut i: usize = 0;
    while i < tys.len()
        invariant
            i <= tys@.len(),
            forall|j: int| 0 <= j < i ==> tys@[j] != ty,
        decreases tys.len() - i,
    {
        if tys[i] == ty {
            proof {
                assert(tys@[i as int] == ty);
            }
            return true;
        }
        i = i + 1;
    }
    false
}

fn push_distinct_function(out: &mut Vec<FunctionRef>, f: FunctionRef)
    ensures
        final(out)@ == push_distinct(old(out)@, f),
{
    let mut i: usize = 0;
    while i < out.len()
        invariant
            out@ == old(out)@,
            i <= out@.len(),
            forall|j: int| 0 <= j < i ==> out@[j] != f,
        decreases out.len() - i,
    {
        if out[i] == f {
            proof {
                assert(old(out)@.contains(f));
            }
            return;
        }
        i = i + 1;
    }
    out.push(f);
}

fn push_all_distinct_functions(out: &mut Vec<FunctionRef>, more: &Vec<FunctionRef>)
    ensures
        final(out)@ == push_all_distinct(old(out)@, more@),
{
    let mut i: usize = 0;
    while i < more.len()
        invariant
            i <= more@.len(),
            out@ == push_all_distinct(old(out)@, more@.take(i as int)),
        decreases more.len() - i,
    {
        proof {
            assert(more@.take(i + 1).drop_last() =~= more@.take(i as int));
            assert(more@.take(i + 1).last() == more@[i as int]);
        }
        push_distinct_function(out, more[i]);
        i = i + 1;
    }
    proof {
        assert(more@.take(more@.len() as int) =~= more@);
    }
}

/// A copy of a list of function references.
fn copy_function_refs(functions: &Vec<FunctionRef>) -> (r: Vec<FunctionRef>)
    ensures
        r@ == functions@,
{
    let mut out: Vec<FunctionRef> = Vec::new();
    let mut i: usize = 0;
    while i < functions.len()
        invariant
            i <= functions@.len(),
            out@ == functions@.take(i as int),
        decreases functions.len() - i,
    {
        out.push(functions[i]);
        proof {
            assert(out@ =~= functions@.take(i + 1));
        }
        i = i + 1;
    }
    proof {
        assert(functions@.take(functions@.len() as int) =~= functions@);
    }
    out
}

} // verus!
