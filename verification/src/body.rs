//! Lowered function bodies: lexical scopes, local bindings and items, patterns, statements and
//! expressions, together with the per-target tables that hold them.

use vstd::prelude::*;

use crate::body_ids::{
    BindingId, BodyFieldRef, BodyFunctionId, BodyFunctionRef, BodyId, BodyImplId, BodyItemId,
    BodyItemRef, BodyRef, ExprId, PatId, ScopeId, StmtId,
};
use crate::ids::{DefId, ModuleRef};
use crate::item_tree::{
    FieldItem, FieldKey, FieldList, FunctionId, FunctionItem, FunctionRef, FieldRef, ParamKind,
    TypeDefRef, TypeRef,
};
use crate::ids::PackageSlot;
use crate::path::Path;
use crate::text::{FileId, Span};

verus! {

/// Source location attached to every body node.
#[derive(Debug, Clone, Copy, PartialEq, Eq, Structural)]
pub struct BodySource {
    pub file_id: FileId,
    pub span: Span,
}

/// One lexical scope.
#[derive(Debug)]
pub struct ScopeData {
    pub parent: Option<ScopeId>,
    pub local_items: Vec<BodyItemId>,
    pub local_impls: Vec<BodyImplId>,
    pub bindings: Vec<BindingId>,
}

/// Local binding category.
#[derive(Debug, Clone, Copy, PartialEq, Eq, Structural)]
pub enum BindingKind {
    Param,
    SelfParam,
    Let,
}

impl BindingKind {
    /// The label under which the kind is displayed.
    pub fn label(self) -> (r: &'static str)
        ensures
            r@ == match self {
                BindingKind::Param => "param"@,
                BindingKind::SelfParam => "self_param"@,
                BindingKind::Let => "let"@,
            },
    {
        match self {
            BindingKind::Param => "param",
            BindingKind::SelfParam => "self_param",
            BindingKind::Let => "let",
        }
    }
}

/// One local binding introduced by a parameter or `let`.
#[derive(Debug)]
pub struct BindingData {
    pub source: BodySource,
    pub scope: ScopeId,
    pub kind: BindingKind,
    pub name: Option<String>,
    pub pat: String,
    pub annotation: Option<TypeRef>,
    pub ty: BodyTy,
}

/// Body-local item category.
#[derive(Debug, Clone, Copy, PartialEq, Eq, Structural)]
pub enum BodyItemKind {
    Struct,
}

impl BodyItemKind {
    /// The label under which the kind is displayed.
    pub fn label(self) -> (r: &'static str)
        ensures
            r@ == "struct"@,
    {
        "struct"
    }
}

/// One item declared inside a function body.
#[derive(Debug)]
pub struct BodyItemData {
    pub source: BodySource,
    pub name_source: BodySource,
    pub scope: ScopeId,
    pub kind: BodyItemKind,
    pub name: String,
    pub fields: FieldList,
}

impl BodyItemData {
    /// The field at `index`, if the item has that many fields.
    pub fn field(&self, index: usize) -> (r: Option<&FieldItem>)
        ensures
            r == if index < self.fields.fields@.len() {
                Some(&self.fields.fields@[index as int])
            } else {
                None::<&FieldItem>
            },
    {
        if index < self.fields.fields.len() {
            Some(&self.fields.fields[index])
        } else {
            None
        }
    }

    /// Position of the first field declared under `key`.
    pub fn field_index(&self, key: &FieldKey) -> (r: Option<usize>)
        ensures
            match r {
                Some(i) => i < self.fields.fields@.len() && field_has_key(self.fields.fields@[i as int], key@)
                    && forall|j: int| 0 <= j < i ==> !field_has_key(#[trigger] self.fields.fields@[j], key@),
                None => forall|j: int|
                    0 <= j < self.fields.fields@.len() ==> !field_has_key(#[trigger] self.fields.fields@[j], key@),
            },
    {
        let mut i: usize = 0;
        while i < self.fields.fields.len()
            invariant
                i <= self.fields.fields@.len(),
                forall|j: int| 0 <= j < i ==> !field_has_key(#[trigger] self.fields.fields@[j], key@),
            decreases self.fields.fields.len() - i,
        {
            let matches = match &self.fields.fields[i].key {
                Some(k) => k.same_as(key),
                None => false,
            };
            if matches {
                return Some(i);
            }
            i = i + 1;
        }
        None
    }
}

/// The field is declared under `key`.
pub open spec fn field_has_key(field: FieldItem, key: crate::item_tree::FieldKeyView) -> bool {
    match field.key {
        Some(k) => k@ == key,
        None => false,
    }
}

/// Resolved access to one field declared on a body-local item.
#[derive(Debug)]
pub struct BodyFieldData<'a> {
    pub item: &'a BodyItemData,
    pub field: &'a FieldItem,
}

/// One impl block declared inside a function body.
#[derive(Debug)]
pub struct BodyImplData {
    pub source: BodySource,
    pub scope: ScopeId,
    pub trait_ref: Option<TypeRef>,
    pub self_ty: TypeRef,
    pub self_item: Option<BodyItemRef>,
    pub functions: Vec<BodyFunctionId>,
}

/// Owner of a body-local function-like declaration.
#[derive(Debug, Clone, Copy, PartialEq, Eq, Structural)]
pub enum BodyFunctionOwner {
    LocalImpl(BodyImplId),
}

/// One function-like declaration inside a function body.
#[derive(Debug)]
pub struct BodyFunctionData {
    pub source: BodySource,
    pub name_source: BodySource,
    pub owner: BodyFunctionOwner,
    pub name: String,
    pub declaration: FunctionItem,
}

impl BodyFunctionData {
    /// Whether the first parameter is a `self` receiver.
    pub fn has_self_receiver(&self) -> (r: bool)
        ensures
            r == (self.declaration.params@.len() > 0 && self.declaration.params@[0].kind
                == ParamKind::SelfParam),
    {
        if self.declaration.params.len() > 0 {
            match self.declaration.params[0].kind {
                ParamKind::SelfParam => true,
                ParamKind::Normal => false,
            }
        } else {
            false
        }
    }
}

/// One lowered pattern node.
#[derive(Debug)]
pub struct PatData {
    pub source: BodySource,
    pub kind: PatKind,
}

/// Pattern forms that matter for binding and enum-payload type propagation.
#[derive(Debug)]
#[allow(inconsistent_fields)]
pub enum PatKind {
    Binding { binding: Option<BindingId>, subpat: Option<PatId> },
    Tuple { fields: Vec<PatId> },
    TupleStruct { path: Option<Path>, fields: Vec<PatId> },
    Record { path: Option<Path>, fields: Vec<RecordPatField> },
    Or { pats: Vec<PatId> },
    Slice { fields: Vec<PatId> },
    Ref { pat: PatId },
    Box { pat: PatId },
    Path { path: Option<Path> },
    Wildcard,
    Unsupported { text: String },
}

/// One field inside a record pattern.
#[derive(Debug)]
pub struct RecordPatField {
    pub key: FieldKey,
    pub pat: PatId,
}

/// One lowered statement.
#[derive(Debug)]
pub struct StmtData {
    pub source: BodySource,
    pub kind: StmtKind,
}

/// Statement forms that matter for the first Body IR pass.
#[derive(Debug)]
pub enum StmtKind {
    Let {
        scope: ScopeId,
        pat: Option<PatId>,
        bindings: Vec<BindingId>,
        annotation: Option<TypeRef>,
        initializer: Option<ExprId>,
    },
    Expr { expr: ExprId, has_semicolon: bool },
    Item { item: BodyItemId },
    Impl { impl_id: BodyImplId },
    ItemIgnored,
}

/// One lowered expression.
#[derive(Debug)]
pub struct ExprData {
    pub source: BodySource,
    pub scope: ScopeId,
    /// Number of body-wide bindings visible at this expression's source location, so that a
    /// later `let x` cannot shadow an earlier use of `x`.
    pub visible_bindings: usize,
    pub kind: ExprKind,
    pub resolution: BodyResolution,
    pub ty: BodyTy,
}

/// Expression forms that the first Body IR pass understands.
#[derive(Debug)]
pub enum ExprKind {
    Block { scope: ScopeId, statements: Vec<StmtId>, tail: Option<ExprId> },
    Path { path: Path },
    Call { callee: Option<ExprId>, args: Vec<ExprId> },
    Match { scrutinee: Option<ExprId>, arms: Vec<MatchArmData> },
    MethodCall {
        receiver: Option<ExprId>,
        dot_span: Option<Span>,
        method_name: String,
        method_name_span: Option<Span>,
        args: Vec<ExprId>,
    },
    Field {
        base: Option<ExprId>,
        dot_span: Option<Span>,
        field: Option<FieldKey>,
        field_span: Option<Span>,
    },
    Literal { text: String, kind: LiteralKind },
    Unknown { text: String, children: Vec<ExprId> },
}

/// One arm of a lowered `match`: its pattern and body live in a scope of their own.
#[derive(Debug)]
pub struct MatchArmData {
    pub pat: Option<PatId>,
    pub scope: ScopeId,
    pub expr: Option<ExprId>,
}

/// Literal category used for display and cheap inference.
#[derive(Debug, Clone, Copy, PartialEq, Eq, Structural)]
pub enum LiteralKind {
    Bool,
    Char,
    Float,
    Int,
    String,
    Unknown,
}

impl LiteralKind {
    /// The label under which the kind is displayed.
    pub fn label(self) -> (r: &'static str)
        ensures
            r@ == match self {
                LiteralKind::Bool => "bool"@,
                LiteralKind::Char => "char"@,
                LiteralKind::Float => "float"@,
                LiteralKind::Int => "int"@,
                LiteralKind::String => "string"@,
                LiteralKind::Unknown => "unknown"@,
            },
    {
        match self {
            LiteralKind::Bool => "bool",
            LiteralKind::Char => "char",
            LiteralKind::Float => "float",
            LiteralKind::Int => "int",
            LiteralKind::String => "string",
            LiteralKind::Unknown => "unknown",
        }
    }
}

/// Stable field identity across module-level and body-local declarations.
#[derive(Debug, Clone, Copy, PartialEq, Eq, Structural)]
pub enum ResolvedFieldRef {
    Semantic(FieldRef),
    BodyLocal(BodyFieldRef),
}

/// Stable function identity across module-level and body-local declarations.
#[derive(Debug, Clone, Copy, PartialEq, Eq, Structural)]
pub enum ResolvedFunctionRef {
    Semantic(FunctionRef),
    BodyLocal(BodyFunctionRef),
}

/// Best-effort semantic resolution attached to body expressions.
#[derive(Debug)]
pub enum BodyResolution {
    Local(BindingId),
    LocalItem(BodyItemRef),
    Item(Vec<DefId>),
    Field(Vec<ResolvedFieldRef>),
    Method(Vec<ResolvedFunctionRef>),
    Unknown,
}

/// Small type vocabulary for the first Body IR pass.
#[derive(Debug)]
pub enum BodyTy {
    Unit,
    Never,
    Syntax(TypeRef),
    Reference(Box<BodyTy>),
    LocalNominal(Vec<BodyLocalNominalTy>),
    Nominal(Vec<BodyNominalTy>),
    SelfTy(Vec<BodyNominalTy>),
    Unknown,
}

/// Body-local nominal type together with the generic arguments visible at use site.
#[derive(Debug)]
pub struct BodyLocalNominalTy {
    pub item: BodyItemRef,
    pub args: Vec<BodyGenericArg>,
}

/// Module-level nominal type together with the generic arguments visible at use site.
#[derive(Debug)]
pub struct BodyNominalTy {
    pub def: TypeDefRef,
    pub args: Vec<BodyGenericArg>,
}

/// Generic argument as understood by the small Body IR type model.
#[derive(Debug)]
pub enum BodyGenericArg {
    Type(Box<BodyTy>),
    Lifetime(String),
    Const(String),
    AssocType { name: String, ty: Option<Box<BodyTy>> },
    Unsupported(String),
}

impl BodyLocalNominalTy {
    /// The item without generic arguments.
    pub fn bare(item: BodyItemRef) -> (r: Self)
        ensures
            r.item == item,
            r.args@.len() == 0,
    {
        BodyLocalNominalTy { item, args: Vec::new() }
    }
}

impl BodyNominalTy {
    /// The type definition without generic arguments.
    pub fn bare(def: TypeDefRef) -> (r: Self)
        ensures
            r.def == def,
            r.args@.len() == 0,
    {
        BodyNominalTy { def, args: Vec::new() }
    }
}

/// The type under any number of references.
pub open spec fn peeled(ty: BodyTy) -> BodyTy
    decreases ty,
{
    match ty {
        BodyTy::Reference(inner) => peeled(*inner),
        _ => ty,
    }
}

impl BodyTy {
    /// A reference to `inner`; a reference to an unknown type stays unknown.
    pub fn reference(inner: BodyTy) -> (r: Self)
        ensures
            inner is Unknown ==> r is Unknown,
            !(inner is Unknown) ==> r == BodyTy::Reference(Box::new(inner)),
    {
        if let BodyTy::Unknown = inner {
            return BodyTy::Unknown;
        }
        BodyTy::Reference(Box::new(inner))
    }

    /// The type under any number of references.
    pub fn peel_references(&self) -> (r: &Self)
        ensures
            *r == peeled(*self),
        decreases self,
    {
        match self {
            BodyTy::Reference(inner) => inner.peel_references(),
            _ => self,
        }
    }

    /// The body-local nominal types this type denotes once references are peeled.
    pub fn local_nominals(&self) -> (r: &[BodyLocalNominalTy])
        ensures
            r@ == match peeled(*self) {
                BodyTy::LocalNominal(types) => types@,
                _ => Seq::<BodyLocalNominalTy>::empty(),
            },
    {
        match self.peel_references() {
            BodyTy::LocalNominal(types) => types.as_slice(),
            _ => &[],
        }
    }

    /// The module-level nominal types this type denotes once references are peeled; `Self`
    /// types count too.
    pub fn nominal_tys(&self) -> (r: &[BodyNominalTy])
        ensures
            r@ == match peeled(*self) {
                BodyTy::Nominal(types) => types@,
                BodyTy::SelfTy(types) => types@,
                _ => Seq::<BodyNominalTy>::empty(),
            },
    {
        match self.peel_references() {
            BodyTy::Nominal(types) => types.as_slice(),
            BodyTy::SelfTy(types) => types.as_slice(),
            _ => &[],
        }
    }

    /// The body-local items of [`Self::local_nominals`], in order.
    pub fn local_items(&self) -> (r: Vec<BodyItemRef>)
        ensures
            r@ == self.local_nominals_spec().map_values(|t: BodyLocalNominalTy| t.item),
    {
        let nominals = self.local_nominals();
        let mut out: Vec<BodyItemRef> = Vec::new();
        let mut i: usize = 0;
        while i < nominals.len()
            invariant
                i <= nominals@.len(),
                nominals@ == self.local_nominals_spec(),
                out@ == nominals@.take(i as int).map_values(|t: BodyLocalNominalTy| t.item),
            decreases nominals.len() - i,
        {
            out.push(nominals[i].item);
            proof {
                assert(out@ =~= nominals@.take(i + 1).map_values(|t: BodyLocalNominalTy| t.item));
            }
            i = i + 1;
        }
        assert(nominals@.take(nominals@.len() as int) =~= nominals@);
        out
    }

    /// The type definitions of [`Self::nominal_tys`], in order.
    pub fn type_defs(&self) -> (r: Vec<TypeDefRef>)
        ensures
            r@ == self.nominal_tys_spec().map_values(|t: BodyNominalTy| t.def),
    {
        let nominals = self.nominal_tys();
        let mut out: Vec<TypeDefRef> = Vec::new();
        let mut i: usize = 0;
        while i < nominals.len()
            invariant
                i <= nominals@.len(),
                nominals@ == self.nominal_tys_spec(),
                out@ == nominals@.take(i as int).map_values(|t: BodyNominalTy| t.def),
            decreases nominals.len() - i,
        {
            out.push(nominals[i].def);
            proof {
                assert(out@ =~= nominals@.take(i + 1).map_values(|t: BodyNominalTy| t.def));
            }
            i = i + 1;
        }
        assert(nominals@.take(nominals@.len() as int) =~= nominals@);
        out
    }

    pub open spec fn local_nominals_spec(&self) -> Seq<BodyLocalNominalTy> {
        match peeled(*self) {
            BodyTy::LocalNominal(types) => types@,
            _ => Seq::empty(),
        }
    }

    pub open spec fn nominal_tys_spec(&self) -> Seq<BodyNominalTy> {
        match peeled(*self) {
            BodyTy::Nominal(types) => types@,
            BodyTy::SelfTy(types) => types@,
            _ => Seq::empty(),
        }
    }
}


/// Every scope's parent comes before it, so parent chains end.
pub open spec fn scopes_precede(scopes: Seq<ScopeData>) -> bool {
    forall|i: int|
        #![trigger scopes[i]]
        0 <= i < scopes.len() ==> match scopes[i].parent {
            Some(p) => p.0 < i,
            None => true,
        }
}

/// Lowered body for one function.
#[derive(Debug)]
pub struct BodyData {
    pub owner: FunctionRef,
    pub owner_module: ModuleRef,
    pub source: BodySource,
    pub param_scope: ScopeId,
    pub root_expr: ExprId,
    pub params: Vec<BindingId>,
    pub scopes: Vec<ScopeData>,
    pub local_items: Vec<BodyItemData>,
    pub local_impls: Vec<BodyImplData>,
    pub local_functions: Vec<BodyFunctionData>,
    pub bindings: Vec<BindingData>,
    pub pats: Vec<PatData>,
    pub statements: Vec<StmtData>,
    pub exprs: Vec<ExprData>,
}

/// `Some(&items[i])` when `i` is in range.
pub open spec fn entry_at<T>(items: Seq<T>, i: usize) -> Option<T> {
    if i < items.len() {
        Some(items[i as int])
    } else {
        None
    }
}

impl BodyData {
    pub fn binding(&self, binding: BindingId) -> (r: Option<&BindingData>)
        ensures
            r == match entry_at(self.bindings@, binding.0) {
                Some(b) => Some(&b),
                None => None,
            },
    {
        if binding.0 < self.bindings.len() {
            Some(&self.bindings[binding.0])
        } else {
            None
        }
    }

    pub fn pat(&self, pat: PatId) -> (r: Option<&PatData>)
        ensures
            r == match entry_at(self.pats@, pat.0) {
                Some(b) => Some(&b),
                None => None,
            },
    {
        if pat.0 < self.pats.len() {
            Some(&self.pats[pat.0])
        } else {
            None
        }
    }

    pub fn scope(&self, scope: ScopeId) -> (r: Option<&ScopeData>)
        ensures
            r == match entry_at(self.scopes@, scope.0) {
                Some(b) => Some(&b),
                None => None,
            },
    {
        if scope.0 < self.scopes.len() {
            Some(&self.scopes[scope.0])
        } else {
            None
        }
    }

    pub fn local_item(&self, item: BodyItemId) -> (r: Option<&BodyItemData>)
        ensures
            r == match entry_at(self.local_items@, item.0) {
                Some(b) => Some(&b),
                None => None,
            },
    {
        if item.0 < self.local_items.len() {
            Some(&self.local_items[item.0])
        } else {
            None
        }
    }

    pub fn local_impl(&self, impl_id: BodyImplId) -> (r: Option<&BodyImplData>)
        ensures
            r == match entry_at(self.local_impls@, impl_id.0) {
                Some(b) => Some(&b),
                None => None,
            },
    {
        if impl_id.0 < self.local_impls.len() {
            Some(&self.local_impls[impl_id.0])
        } else {
            None
        }
    }

    pub fn local_function(&self, function: BodyFunctionId) -> (r: Option<&BodyFunctionData>)
        ensures
            r == match entry_at(self.local_functions@, function.0) {
                Some(b) => Some(&b),
                None => None,
            },
    {
        if function.0 < self.local_functions.len() {
            Some(&self.local_functions[function.0])
        } else {
            None
        }
    }

    pub fn statement(&self, statement: StmtId) -> (r: Option<&StmtData>)
        ensures
            r == match entry_at(self.statements@, statement.0) {
                Some(b) => Some(&b),
                None => None,
            },
    {
        if statement.0 < self.statements.len() {
            Some(&self.statements[statement.0])
        } else {
            None
        }
    }

    pub fn expr(&self, expr: ExprId) -> (r: Option<&ExprData>)
        ensures
            r == match entry_at(self.exprs@, expr.0) {
                Some(b) => Some(&b),
                None => None,
            },
    {
        if expr.0 < self.exprs.len() {
            Some(&self.exprs[expr.0])
        } else {
            None
        }
    }

    /// Assembles a body from the nodes a builder allocated.
    pub fn new(
        owner: FunctionRef,
        owner_module: ModuleRef,
        source: BodySource,
        param_scope: ScopeId,
        root_expr: ExprId,
        params: Vec<BindingId>,
        builder: BodyBuilder,
    ) -> (r: Self)
        ensures
            r.owner == owner,
            r.owner_module == owner_module,
            r.source == source,
            r.param_scope == param_scope,
            r.root_expr == root_expr,
            r.params == params,
            r.scopes == builder.scopes,
            r.local_items == builder.local_items,
            r.local_impls == builder.local_impls,
            r.local_functions == builder.local_functions,
            r.bindings == builder.bindings,
            r.pats == builder.pats,
            r.statements == builder.statements,
            r.exprs == builder.exprs,
    {
        BodyData {
            owner,
            owner_module,
            source,
            param_scope,
            root_expr,
            params,
            scopes: builder.scopes,
            local_items: builder.local_items,
            local_impls: builder.local_impls,
            local_functions: builder.local_functions,
            bindings: builder.bindings,
            pats: builder.pats,
            statements: builder.statements,
            exprs: builder.exprs,
        }
    }

    /// The functions of this body's inherent impls whose self type is `item_ref`, in impl
    /// order then declaration order. An item of another body has none here.
    pub fn inherent_functions_for_local_type(&self, body_ref: BodyRef, item_ref: BodyItemRef) -> (r: Vec<BodyFunctionRef>)
        ensures
            r@ == if item_ref.body != body_ref {
                Seq::empty()
            } else {
                inherent_functions(self.local_impls@, item_ref, body_ref)
            },
    {
        let mut functions: Vec<BodyFunctionRef> = Vec::new();
        if item_ref.body != body_ref {
            return functions;
        }
        let mut i: usize = 0;
        while i < self.local_impls.len()
            invariant
                i <= self.local_impls@.len(),
                functions@ == inherent_functions(self.local_impls@.take(i as int), item_ref, body_ref),
            decreases self.local_impls.len() - i,
        {
            let impl_data = &self.local_impls[i];
            proof {
                assert(self.local_impls@.take(i + 1).drop_last() =~= self.local_impls@.take(i as int));
            }
            let inherent = match impl_data.self_item {
                Some(item) => item == item_ref && impl_data.trait_ref.is_none(),
                None => false,
            };
            if inherent {
                let ghost before = functions@;
                let mut j: usize = 0;
                while j < impl_data.functions.len()
                    invariant
                        j <= impl_data.functions@.len(),
                        functions@ == before + impl_data.functions@.take(j as int).map_values(
                            |f: BodyFunctionId| BodyFunctionRef { body: body_ref, function: f },
                        ),
                    decreases impl_data.functions.len() - j,
                {
                    functions.push(BodyFunctionRef { body: body_ref, function: impl_data.functions[j] });
                    proof {
                        assert(functions@ =~= before + impl_data.functions@.take(j + 1).map_values(
                            |f: BodyFunctionId| BodyFunctionRef { body: body_ref, function: f },
                        ));
                    }
                    j = j + 1;
                }
                proof {
                    assert(impl_data.functions@.take(impl_data.functions@.len() as int) =~= impl_data.functions@);
                }
            }
            i = i + 1;
        }
        proof {
            assert(self.local_impls@.take(self.local_impls@.len() as int) =~= self.local_impls@);
        }
        functions
    }
}

/// Function references of the inherent impls among `impls` whose self type is `item`.
pub open spec fn inherent_functions(impls: Seq<BodyImplData>, item: BodyItemRef, body: BodyRef) -> Seq<BodyFunctionRef>
    decreases impls.len(),
{
    if impls.len() == 0 {
        Seq::empty()
    } else {
        let before = inherent_functions(impls.drop_last(), item, body);
        let last = impls.last();
        if last.self_item == Some(item) && last.trait_ref is None {
            before + last.functions@.map_values(|f: BodyFunctionId| BodyFunctionRef { body, function: f })
        } else {
            before
        }
    }
}

/// Mutable store used while one body is being lowered.
#[derive(Debug)]
pub struct BodyBuilder {
    pub scopes: Vec<ScopeData>,
    pub local_items: Vec<BodyItemData>,
    pub local_impls: Vec<BodyImplData>,
    pub local_functions: Vec<BodyFunctionData>,
    pub bindings: Vec<BindingData>,
    pub pats: Vec<PatData>,
    pub statements: Vec<StmtData>,
    pub exprs: Vec<ExprData>,
}

/// Scope `s` lists, in increasing order, exactly the bindings declared in it.
pub open spec fn scope_lists_bindings(scopes: Seq<ScopeData>, bindings: Seq<BindingData>, s: int) -> bool {
    let ids = scopes[s].bindings@;
    &&& forall|a: int, b: int| 0 <= a < b < ids.len() ==> (#[trigger] ids[a]).0 < (#[trigger] ids[b]).0
    &&& forall|a: int|
        0 <= a < ids.len() ==> (#[trigger] ids[a]).0 < bindings.len() && bindings[ids[a].0 as int].scope.0 == s
    &&& forall|i: int| 0 <= i < bindings.len() && (#[trigger] bindings[i]).scope.0 == s ==> ids.contains(BindingId(i as usize))
}

/// Scope `s` lists, in increasing order, exactly the local items declared in it.
pub open spec fn scope_lists_items(scopes: Seq<ScopeData>, items: Seq<BodyItemData>, s: int) -> bool {
    let ids = scopes[s].local_items@;
    &&& forall|a: int, b: int| 0 <= a < b < ids.len() ==> (#[trigger] ids[a]).0 < (#[trigger] ids[b]).0
    &&& forall|a: int|
        0 <= a < ids.len() ==> (#[trigger] ids[a]).0 < items.len() && items[ids[a].0 as int].scope.0 == s
    &&& forall|i: int| 0 <= i < items.len() && (#[trigger] items[i]).scope.0 == s ==> ids.contains(BodyItemId(i as usize))
}

/// Scope `s` lists, in increasing order, exactly the local impls declared in it.
pub open spec fn scope_lists_impls(scopes: Seq<ScopeData>, impls: Seq<BodyImplData>, s: int) -> bool {
    let ids = scopes[s].local_impls@;
    &&& forall|a: int, b: int| 0 <= a < b < ids.len() ==> (#[trigger] ids[a]).0 < (#[trigger] ids[b]).0
    &&& forall|a: int|
        0 <= a < ids.len() ==> (#[trigger] ids[a]).0 < impls.len() && impls[ids[a].0 as int].scope.0 == s
    &&& forall|i: int| 0 <= i < impls.len() && (#[trigger] impls[i]).scope.0 == s ==> ids.contains(BodyImplId(i as usize))
}

impl BodyBuilder {
    /// Scopes form a forest with parents first, and every scope lists, in allocation order,
    /// exactly the bindings, local items and local impls declared in it.
    pub open spec fn wf(&self) -> bool {
        &&& scopes_precede(self.scopes@)
        &&& forall|b: int| 0 <= b < self.bindings@.len() ==> (#[trigger] self.bindings@[b]).scope.0 < self.scopes@.len()
        &&& forall|b: int| 0 <= b < self.local_items@.len() ==> (#[trigger] self.local_items@[b]).scope.0 < self.scopes@.len()
        &&& forall|b: int| 0 <= b < self.local_impls@.len() ==> (#[trigger] self.local_impls@[b]).scope.0 < self.scopes@.len()
        &&& forall|s: int| 0 <= s < self.scopes@.len() ==> #[trigger] scope_lists_bindings(self.scopes@, self.bindings@, s)
        &&& forall|s: int| 0 <= s < self.scopes@.len() ==> #[trigger] scope_lists_items(self.scopes@, self.local_items@, s)
        &&& forall|s: int| 0 <= s < self.scopes@.len() ==> #[trigger] scope_lists_impls(self.scopes@, self.local_impls@, s)
    }

    /// An empty builder.
    pub fn new() -> (r: Self)
        ensures
            r.wf(),
            r.scopes@.len() == 0,
            r.local_items@.len() == 0,
            r.local_impls@.len() == 0,
            r.local_functions@.len() == 0,
            r.bindings@.len() == 0,
            r.pats@.len() == 0,
            r.statements@.len() == 0,
            r.exprs@.len() == 0,
    {
        BodyBuilder {
            scopes: Vec::new(),
            local_items: Vec::new(),
            local_impls: Vec::new(),
            local_functions: Vec::new(),
            bindings: Vec::new(),
            pats: Vec::new(),
            statements: Vec::new(),
            exprs: Vec::new(),
        }
    }
}


impl BodyBuilder {
    /// Allocates a scope nested in `parent`.
    pub fn alloc_scope(&mut self, parent: Option<ScopeId>) -> (r: ScopeId)
        requires
            old(self).wf(),
            match parent {
                Some(p) => p.0 < old(self).scopes@.len(),
                None => true,
            },
        ensures
            final(self).wf(),
            r.0 == old(self).scopes@.len(),
            final(self).scopes@.len() == old(self).scopes@.len() + 1,
            final(self).scopes@.drop_last() == old(self).scopes@,
            final(self).scopes@.last().parent == parent,
            final(self).scopes@.last().bindings@.len() == 0,
            final(self).scopes@.last().local_items@.len() == 0,
            final(self).scopes@.last().local_impls@.len() == 0,
            final(self).bindings == old(self).bindings,
            final(self).local_items == old(self).local_items,
            final(self).local_impls == old(self).local_impls,
            final(self).local_functions == old(self).local_functions,
            final(self).pats == old(self).pats,
            final(self).statements == old(self).statements,
            final(self).exprs == old(self).exprs,
    {
        let scope = ScopeId(self.scopes.len());
        self.scopes.push(
            ScopeData { parent, local_items: Vec::new(), local_impls: Vec::new(), bindings: Vec::new() },
        );
        proof {
            assert(self.scopes@.drop_last() =~= old(self).scopes@);
            let n = old(self).scopes@.len() as int;
            assert forall|s: int| 0 <= s < self.scopes@.len() implies #[trigger] scope_lists_bindings(self.scopes@, self.bindings@, s) by {
                if s < n {
                    assert(scope_lists_bindings(old(self).scopes@, old(self).bindings@, s));
                    assert(self.scopes@[s] == old(self).scopes@[s]);
                } else {
                    assert forall|i: int| 0 <= i < self.bindings@.len() && (#[trigger] self.bindings@[i]).scope.0 == s implies false by {
                        assert(old(self).bindings@[i].scope.0 < n);
                    }
                }
            }
            assert forall|s: int| 0 <= s < self.scopes@.len() implies #[trigger] scope_lists_items(self.scopes@, self.local_items@, s) by {
                if s < n {
                    assert(scope_lists_items(old(self).scopes@, old(self).local_items@, s));
                    assert(self.scopes@[s] == old(self).scopes@[s]);
                } else {
                    assert forall|i: int| 0 <= i < self.local_items@.len() && (#[trigger] self.local_items@[i]).scope.0 == s implies false by {
                        assert(old(self).local_items@[i].scope.0 < n);
                    }
                }
            }
            assert forall|s: int| 0 <= s < self.scopes@.len() implies #[trigger] scope_lists_impls(self.scopes@, self.local_impls@, s) by {
                if s < n {
                    assert(scope_lists_impls(old(self).scopes@, old(self).local_impls@, s));
                    assert(self.scopes@[s] == old(self).scopes@[s]);
                } else {
                    assert forall|i: int| 0 <= i < self.local_impls@.len() && (#[trigger] self.local_impls@[i]).scope.0 == s implies false by {
                        assert(old(self).local_impls@[i].scope.0 < n);
                    }
                }
            }
        }
        scope
    }

    /// Allocates a binding and lists it in its scope.
    pub fn alloc_binding(&mut self, data: BindingData) -> (r: BindingId)
        requires
            old(self).wf(),
            data.scope.0 < old(self).scopes@.len(),
        ensures
            final(self).wf(),
            r.0 == old(self).bindings@.len(),
            final(self).bindings@ == old(self).bindings@.push(data),
            final(self).scopes@.len() == old(self).scopes@.len(),
            forall|s: int|
                0 <= s < old(self).scopes@.len() && s != data.scope.0 ==> #[trigger] final(self).scopes@[s]
                    == old(self).scopes@[s],
            final(self).scopes@[data.scope.0 as int].bindings@ == old(self).scopes@[data.scope.0 as int].bindings@.push(r),
            final(self).scopes@[data.scope.0 as int].parent == old(self).scopes@[data.scope.0 as int].parent,
            final(self).scopes@[data.scope.0 as int].local_items == old(self).scopes@[data.scope.0 as int].local_items,
            final(self).scopes@[data.scope.0 as int].local_impls == old(self).scopes@[data.scope.0 as int].local_impls,
            final(self).local_items == old(self).local_items,
            final(self).local_impls == old(self).local_impls,
            final(self).local_functions == old(self).local_functions,
            final(self).pats == old(self).pats,
            final(self).statements == old(self).statements,
            final(self).exprs == old(self).exprs,
    {
        let binding = BindingId(self.bindings.len());
        let scope = data.scope;
        self.bindings.push(data);
        self.scopes[scope.0].bindings.push(binding);
        proof {
            let n = old(self).bindings@.len() as int;
            let sc = scope.0 as int;
            assert(scopes_precede(self.scopes@)) by {
                assert forall|i: int| 0 <= i < self.scopes@.len() implies #[trigger] self.scopes@[i].parent == old(self).scopes@[i].parent by {}
            }
            assert forall|s: int| 0 <= s < self.scopes@.len() implies #[trigger] scope_lists_bindings(self.scopes@, self.bindings@, s) by {
                assert(scope_lists_bindings(old(self).scopes@, old(self).bindings@, s));
                let ids = self.scopes@[s].bindings@;
                let old_ids = old(self).scopes@[s].bindings@;
                if s == sc {
                    assert(ids == old_ids.push(binding));
                    assert forall|a: int, b: int| 0 <= a < b < ids.len() implies (#[trigger] ids[a]).0 < (#[trigger] ids[b]).0 by {
                        if b == ids.len() - 1 {
                            assert(ids[a] == old_ids[a]);
                        } else {
                            assert(ids[a] == old_ids[a] && ids[b] == old_ids[b]);
                        }
                    }
                    assert forall|a: int| 0 <= a < ids.len() implies (#[trigger] ids[a]).0 < self.bindings@.len()
                        && self.bindings@[ids[a].0 as int].scope.0 == s by {
                        if a < ids.len() - 1 {
                            assert(ids[a] == old_ids[a]);
                        }
                    }
                    assert forall|i: int| 0 <= i < self.bindings@.len() && (#[trigger] self.bindings@[i]).scope.0 == s implies ids.contains(
                        BindingId(i as usize),
                    ) by {
                        if i < n {
                            assert(old(self).bindings@[i] == self.bindings@[i]);
                            assert(old_ids.contains(BindingId(i as usize)));
                            let k = choose|k: int| 0 <= k < old_ids.len() && old_ids[k] == BindingId(i as usize);
                            assert(ids[k] == old_ids[k]);
                        } else {
                            assert(ids[ids.len() - 1] == binding);
                        }
                    }
                } else {
                    assert(ids == old_ids);
                    assert forall|a: int| 0 <= a < ids.len() implies (#[trigger] ids[a]).0 < self.bindings@.len()
                        && self.bindings@[ids[a].0 as int].scope.0 == s by {
                        assert(old(self).bindings@[ids[a].0 as int] == self.bindings@[ids[a].0 as int]);
                    }
                    assert forall|i: int| 0 <= i < self.bindings@.len() && (#[trigger] self.bindings@[i]).scope.0 == s implies ids.contains(
                        BindingId(i as usize),
                    ) by {
                        if i < n {
                            assert(old(self).bindings@[i] == self.bindings@[i]);
                        }
                    }
                }
            }
            assert forall|s: int| 0 <= s < self.scopes@.len() implies #[trigger] scope_lists_items(self.scopes@, self.local_items@, s) by {
                assert(scope_lists_items(old(self).scopes@, old(self).local_items@, s));
                assert(self.scopes@[s].local_items == old(self).scopes@[s].local_items);
            }
            assert forall|s: int| 0 <= s < self.scopes@.len() implies #[trigger] scope_lists_impls(self.scopes@, self.local_impls@, s) by {
                assert(scope_lists_impls(old(self).scopes@, old(self).local_impls@, s));
                assert(self.scopes@[s].local_impls == old(self).scopes@[s].local_impls);
            }
            assert forall|b: int| 0 <= b < self.bindings@.len() implies (#[trigger] self.bindings@[b]).scope.0 < self.scopes@.len() by {
                if b < n {
                    assert(old(self).bindings@[b] == self.bindings@[b]);
                }
            }
        }
        binding
    }

    /// Allocates a body-local item and lists it in its scope.
    pub fn alloc_local_item(&mut self, data: BodyItemData) -> (r: BodyItemId)
        requires
            old(self).wf(),
            data.scope.0 < old(self).scopes@.len(),
        ensures
            final(self).wf(),
            r.0 == old(self).local_items@.len(),
            final(self).local_items@ == old(self).local_items@.push(data),
            final(self).scopes@.len() == old(self).scopes@.len(),
            forall|s: int|
                0 <= s < old(self).scopes@.len() && s != data.scope.0 ==> #[trigger] final(self).scopes@[s]
                    == old(self).scopes@[s],
            final(self).scopes@[data.scope.0 as int].local_items@ == old(self).scopes@[data.scope.0 as int].local_items@.push(r),
            final(self).scopes@[data.scope.0 as int].parent == old(self).scopes@[data.scope.0 as int].parent,
            final(self).scopes@[data.scope.0 as int].bindings == old(self).scopes@[data.scope.0 as int].bindings,
            final(self).scopes@[data.scope.0 as int].local_impls == old(self).scopes@[data.scope.0 as int].local_impls,
            final(self).bindings == old(self).bindings,
            final(self).local_impls == old(self).local_impls,
            final(self).local_functions == old(self).local_functions,
            final(self).pats == old(self).pats,
            final(self).statements == old(self).statements,
            final(self).exprs == old(self).exprs,
    {
        let id = BodyItemId(self.local_items.len());
        let scope = data.scope;
        self.local_items.push(data);
        self.scopes[scope.0].local_items.push(id);
        proof {
            let n = old(self).local_items@.len() as int;
            let sc = scope.0 as int;
            assert(scopes_precede(self.scopes@)) by {
                assert forall|i: int| 0 <= i < self.scopes@.len() implies #[trigger] self.scopes@[i].parent == old(self).scopes@[i].parent by {}
            }
            assert forall|s: int| 0 <= s < self.scopes@.len() implies #[trigger] scope_lists_items(self.scopes@, self.local_items@, s) by {
                assert(scope_lists_items(old(self).scopes@, old(self).local_items@, s));
                let ids = self.scopes@[s].local_items@;
                let old_ids = old(self).scopes@[s].local_items@;
                if s == sc {
                    assert(ids == old_ids.push(id));
                    assert forall|a: int, b: int| 0 <= a < b < ids.len() implies (#[trigger] ids[a]).0 < (#[trigger] ids[b]).0 by {
                        if b == ids.len() - 1 {
                            assert(ids[a] == old_ids[a]);
                        } else {
                            assert(ids[a] == old_ids[a] && ids[b] == old_ids[b]);
                        }
                    }
                    assert forall|a: int| 0 <= a < ids.len() implies (#[trigger] ids[a]).0 < self.local_items@.len()
                        && self.local_items@[ids[a].0 as int].scope.0 == s by {
                        if a < ids.len() - 1 {
                            assert(ids[a] == old_ids[a]);
                        }
                    }
                    assert forall|i: int| 0 <= i < self.local_items@.len() && (#[trigger] self.local_items@[i]).scope.0 == s implies ids.contains(
                        BodyItemId(i as usize),
                    ) by {
                        if i < n {
                            assert(old(self).local_items@[i] == self.local_items@[i]);
                            assert(old_ids.contains(BodyItemId(i as usize)));
                            let k = choose|k: int| 0 <= k < old_ids.len() && old_ids[k] == BodyItemId(i as usize);
                            assert(ids[k] == old_ids[k]);
                        } else {
                            assert(ids[ids.len() - 1] == id);
                        }
                    }
                } else {
                    assert(ids == old_ids);
                    assert forall|a: int| 0 <= a < ids.len() implies (#[trigger] ids[a]).0 < self.local_items@.len()
                        && self.local_items@[ids[a].0 as int].scope.0 == s by {
                        assert(old(self).local_items@[ids[a].0 as int] == self.local_items@[ids[a].0 as int]);
                    }
                    assert forall|i: int| 0 <= i < self.local_items@.len() && (#[trigger] self.local_items@[i]).scope.0 == s implies ids.contains(
                        BodyItemId(i as usize),
                    ) by {
                        if i < n {
                            assert(old(self).local_items@[i] == self.local_items@[i]);
                        }
                    }
                }
            }
            assert forall|s: int| 0 <= s < self.scopes@.len() implies #[trigger] scope_lists_bindings(self.scopes@, self.bindings@, s) by {
                assert(scope_lists_bindings(old(self).scopes@, old(self).bindings@, s));
                assert(self.scopes@[s].bindings == old(self).scopes@[s].bindings);
            }
            assert forall|s: int| 0 <= s < self.scopes@.len() implies #[trigger] scope_lists_impls(self.scopes@, self.local_impls@, s) by {
                assert(scope_lists_impls(old(self).scopes@, old(self).local_impls@, s));
                assert(self.scopes@[s].local_impls == old(self).scopes@[s].local_impls);
            }
            assert forall|b: int| 0 <= b < self.local_items@.len() implies (#[trigger] self.local_items@[b]).scope.0 < self.scopes@.len() by {
                if b < n {
                    assert(old(self).local_items@[b] == self.local_items@[b]);
                }
            }
        }
        id
    }

    /// Allocates a body-local impl block and lists it in its scope.
    pub fn alloc_local_impl(&mut self, data: BodyImplData) -> (r: BodyImplId)
        requires
            old(self).wf(),
            data.scope.0 < old(self).scopes@.len(),
        ensures
            final(self).wf(),
            r.0 == old(self).local_impls@.len(),
            final(self).local_impls@ == old(self).local_impls@.push(data),
            final(self).scopes@.len() == old(self).scopes@.len(),
            forall|s: int|
                0 <= s < old(self).scopes@.len() && s != data.scope.0 ==> #[trigger] final(self).scopes@[s]
                    == old(self).scopes@[s],
            final(self).scopes@[data.scope.0 as int].local_impls@ == old(self).scopes@[data.scope.0 as int].local_impls@.push(r),
            final(self).scopes@[data.scope.0 as int].parent == old(self).scopes@[data.scope.0 as int].parent,
            final(self).scopes@[data.scope.0 as int].bindings == old(self).scopes@[data.scope.0 as int].bindings,
            final(self).scopes@[data.scope.0 as int].local_items == old(self).scopes@[data.scope.0 as int].local_items,
            final(self).bindings == old(self).bindings,
            final(self).local_items == old(self).local_items,
            final(self).local_functions == old(self).local_functions,
            final(self).pats == old(self).pats,
            final(self).statements == old(self).statements,
            final(self).exprs == old(self).exprs,
    {
        let id = BodyImplId(self.local_impls.len());
        let scope = data.scope;
        self.local_impls.push(data);
        self.scopes[scope.0].local_impls.push(id);
        proof {
            let n = old(self).local_impls@.len() as int;
            let sc = scope.0 as int;
            assert(scopes_precede(self.scopes@)) by {
                assert forall|i: int| 0 <= i < self.scopes@.len() implies #[trigger] self.scopes@[i].parent == old(self).scopes@[i].parent by {}
            }
            assert forall|s: int| 0 <= s < self.scopes@.len() implies #[trigger] scope_lists_impls(self.scopes@, self.local_impls@, s) by {
                assert(scope_lists_impls(old(self).scopes@, old(self).local_impls@, s));
                let ids = self.scopes@[s].local_impls@;
                let old_ids = old(self).scopes@[s].local_impls@;
                if s == sc {
                    assert(ids == old_ids.push(id));
                    assert forall|a: int, b: int| 0 <= a < b < ids.len() implies (#[trigger] ids[a]).0 < (#[trigger] ids[b]).0 by {
                        if b == ids.len() - 1 {
                            assert(ids[a] == old_ids[a]);
                        } else {
                            assert(ids[a] == old_ids[a] && ids[b] == old_ids[b]);
                        }
                    }
                    assert forall|a: int| 0 <= a < ids.len() implies (#[trigger] ids[a]).0 < self.local_impls@.len()
                        && self.local_impls@[ids[a].0 as int].scope.0 == s by {
                        if a < ids.len() - 1 {
                            assert(ids[a] == old_ids[a]);
                        }
                    }
                    assert forall|i: int| 0 <= i < self.local_impls@.len() && (#[trigger] self.local_impls@[i]).scope.0 == s implies ids.contains(
                        BodyImplId(i as usize),
                    ) by {
                        if i < n {
                            assert(old(self).local_impls@[i] == self.local_impls@[i]);
                            assert(old_ids.contains(BodyImplId(i as usize)));
                            let k = choose|k: int| 0 <= k < old_ids.len() && old_ids[k] == BodyImplId(i as usize);
                            assert(ids[k] == old_ids[k]);
                        } else {
                            assert(ids[ids.len() - 1] == id);
                        }
                    }
                } else {
                    assert(ids == old_ids);
                    assert forall|a: int| 0 <= a < ids.len() implies (#[trigger] ids[a]).0 < self.local_impls@.len()
                        && self.local_impls@[ids[a].0 as int].scope.0 == s by {
                        assert(old(self).local_impls@[ids[a].0 as int] == self.local_impls@[ids[a].0 as int]);
                    }
                    assert forall|i: int| 0 <= i < self.local_impls@.len() && (#[trigger] self.local_impls@[i]).scope.0 == s implies ids.contains(
                        BodyImplId(i as usize),
                    ) by {
                        if i < n {
                            assert(old(self).local_impls@[i] == self.local_impls@[i]);
                        }
                    }
                }
            }
            assert forall|s: int| 0 <= s < self.scopes@.len() implies #[trigger] scope_lists_bindings(self.scopes@, self.bindings@, s) by {
                assert(scope_lists_bindings(old(self).scopes@, old(self).bindings@, s));
                assert(self.scopes@[s].bindings == old(self).scopes@[s].bindings);
            }
            assert forall|s: int| 0 <= s < self.scopes@.len() implies #[trigger] scope_lists_items(self.scopes@, self.local_items@, s) by {
                assert(scope_lists_items(old(self).scopes@, old(self).local_items@, s));
                assert(self.scopes@[s].local_items == old(self).scopes@[s].local_items);
            }
            assert forall|b: int| 0 <= b < self.local_impls@.len() implies (#[trigger] self.local_impls@[b]).scope.0 < self.scopes@.len() by {
                if b < n {
                    assert(old(self).local_impls@[b] == self.local_impls@[b]);
                }
            }
        }
        id
    }

    /// Records the functions declared in a local impl block.
    pub fn set_local_impl_functions(&mut self, impl_id: BodyImplId, functions: Vec<BodyFunctionId>)
        requires
            old(self).wf(),
            impl_id.0 < old(self).local_impls@.len(),
        ensures
            final(self).wf(),
            final(self).local_impls@.len() == old(self).local_impls@.len(),
            forall|i: int|
                0 <= i < old(self).local_impls@.len() && i != impl_id.0 ==> #[trigger] final(self).local_impls@[i]
                    == old(self).local_impls@[i],
            final(self).local_impls@[impl_id.0 as int] == (BodyImplData {
                functions,
                ..old(self).local_impls@[impl_id.0 as int]
            }),
            final(self).scopes == old(self).scopes,
            final(self).bindings == old(self).bindings,
            final(self).local_items == old(self).local_items,
            final(self).local_functions == old(self).local_functions,
            final(self).pats == old(self).pats,
            final(self).statements == old(self).statements,
            final(self).exprs == old(self).exprs,
    {
        self.local_impls[impl_id.0].functions = functions;
        proof {
            assert forall|s: int| 0 <= s < self.scopes@.len() implies #[trigger] scope_lists_impls(self.scopes@, self.local_impls@, s) by {
                assert(scope_lists_impls(old(self).scopes@, old(self).local_impls@, s));
                let ids = self.scopes@[s].local_impls@;
                assert forall|a: int| 0 <= a < ids.len() implies (#[trigger] ids[a]).0 < self.local_impls@.len()
                    && self.local_impls@[ids[a].0 as int].scope.0 == s by {
                    assert(self.local_impls@[ids[a].0 as int].scope == old(self).local_impls@[ids[a].0 as int].scope);
                }
                assert forall|i: int| 0 <= i < self.local_impls@.len() && (#[trigger] self.local_impls@[i]).scope.0 == s implies ids.contains(
                    BodyImplId(i as usize),
                ) by {
                    assert(self.local_impls@[i].scope == old(self).local_impls@[i].scope);
                }
            }
            assert forall|b: int| 0 <= b < self.local_impls@.len() implies (#[trigger] self.local_impls@[b]).scope.0 < self.scopes@.len() by {
                assert(self.local_impls@[b].scope == old(self).local_impls@[b].scope);
            }
        }
    }

    /// Allocates a pattern node.
    pub fn alloc_pat(&mut self, data: PatData) -> (r: PatId)
        requires
            old(self).wf(),
        ensures
            final(self).wf(),
            r.0 == old(self).pats@.len(),
            final(self).pats@ == old(self).pats@.push(data),
            final(self).scopes == old(self).scopes,
            final(self).bindings == old(self).bindings,
            final(self).local_items == old(self).local_items,
            final(self).local_impls == old(self).local_impls,
            final(self).local_functions == old(self).local_functions,
            final(self).statements == old(self).statements,
            final(self).exprs == old(self).exprs,
    {
        let pat = PatId(self.pats.len());
        self.pats.push(data);
        pat
    }

    /// Allocates a statement.
    pub fn alloc_statement(&mut self, data: StmtData) -> (r: StmtId)
        requires
            old(self).wf(),
        ensures
            final(self).wf(),
            r.0 == old(self).statements@.len(),
            final(self).statements@ == old(self).statements@.push(data),
            final(self).scopes == old(self).scopes,
            final(self).bindings == old(self).bindings,
            final(self).local_items == old(self).local_items,
            final(self).local_impls == old(self).local_impls,
            final(self).local_functions == old(self).local_functions,
            final(self).pats == old(self).pats,
            final(self).exprs == old(self).exprs,
    {
        let statement = StmtId(self.statements.len());
        self.statements.push(data);
        statement
    }

    /// Allocates an expression.
    pub fn alloc_expr(&mut self, data: ExprData) -> (r: ExprId)
        requires
            old(self).wf(),
        ensures
            final(self).wf(),
            r.0 == old(self).exprs@.len(),
            final(self).exprs@ == old(self).exprs@.push(data),
            final(self).scopes == old(self).scopes,
            final(self).bindings == old(self).bindings,
            final(self).local_items == old(self).local_items,
            final(self).local_impls == old(self).local_impls,
            final(self).local_functions == old(self).local_functions,
            final(self).pats == old(self).pats,
            final(self).statements == old(self).statements,
    {
        let expr = ExprId(self.exprs.len());
        self.exprs.push(data);
        expr
    }

    /// Allocates a body-local function-like declaration.
    pub fn alloc_local_function(&mut self, data: BodyFunctionData) -> (r: BodyFunctionId)
        requires
            old(self).wf(),
        ensures
            final(self).wf(),
            r.0 == old(self).local_functions@.len(),
            final(self).local_functions@ == old(self).local_functions@.push(data),
            final(self).scopes == old(self).scopes,
            final(self).bindings == old(self).bindings,
            final(self).local_items == old(self).local_items,
            final(self).local_impls == old(self).local_impls,
            final(self).pats == old(self).pats,
            final(self).statements == old(self).statements,
            final(self).exprs == old(self).exprs,
    {
        let function = BodyFunctionId(self.local_functions.len());
        self.local_functions.push(data);
        function
    }
}


/// Whether one target's bodies were eagerly lowered.
#[derive(Debug, Clone, Copy, PartialEq, Eq, Structural)]
pub enum TargetBodiesStatus {
    Built,
    Skipped,
}

impl TargetBodiesStatus {
    /// The label under which the status is displayed.
    pub fn label(self) -> (r: &'static str)
        ensures
            r@ == match self {
                TargetBodiesStatus::Built => "built"@,
                TargetBodiesStatus::Skipped => "skipped"@,
            },
    {
        match self {
            TargetBodiesStatus::Built => "built",
            TargetBodiesStatus::Skipped => "skipped",
        }
    }
}

/// Lowered bodies for one target.
#[derive(Debug)]
pub struct TargetBodies {
    pub status: TargetBodiesStatus,
    pub function_bodies: Vec<Option<BodyId>>,
    pub bodies: Vec<BodyData>,
}

fn empty_function_bodies(function_count: usize) -> (r: Vec<Option<BodyId>>)
    ensures
        r@ == Seq::new(function_count as nat, |i: int| None::<BodyId>),
{
    let mut slots: Vec<Option<BodyId>> = Vec::new();
    let mut i: usize = 0;
    while i < function_count
        invariant
            i <= function_count,
            slots@ == Seq::new(i as nat, |k: int| None::<BodyId>),
        decreases function_count - i,
    {
        slots.push(None);
        proof {
            assert(slots@ =~= Seq::new((i + 1) as nat, |k: int| None::<BodyId>));
        }
        i = i + 1;
    }
    slots
}

impl TargetBodies {
    /// Bodies of a target that will be lowered: every function slot starts without a body.
    pub fn new(function_count: usize) -> (r: Self)
        ensures
            r.status == TargetBodiesStatus::Built,
            r.function_bodies@ == Seq::new(function_count as nat, |i: int| None::<BodyId>),
            r.bodies@.len() == 0,
    {
        TargetBodies {
            status: TargetBodiesStatus::Built,
            function_bodies: empty_function_bodies(function_count),
            bodies: Vec::new(),
        }
    }

    /// Bodies of a target whose lowering was skipped.
    pub fn skipped(function_count: usize) -> (r: Self)
        ensures
            r.status == TargetBodiesStatus::Skipped,
            r.function_bodies@ == Seq::new(function_count as nat, |i: int| None::<BodyId>),
            r.bodies@.len() == 0,
    {
        TargetBodies {
            status: TargetBodiesStatus::Skipped,
            function_bodies: empty_function_bodies(function_count),
            bodies: Vec::new(),
        }
    }

    pub fn status(&self) -> (r: TargetBodiesStatus)
        ensures
            r == self.status,
    {
        self.status
    }

    /// The body lowered for a module-level function, if any.
    pub fn body_for_function(&self, function: FunctionId) -> (r: Option<BodyId>)
        ensures
            r == if function.0 < self.function_bodies@.len() {
                self.function_bodies@[function.0 as int]
            } else {
                None
            },
    {
        if function.0 < self.function_bodies.len() {
            self.function_bodies[function.0]
        } else {
            None
        }
    }

    pub fn body(&self, body: BodyId) -> (r: Option<&BodyData>)
        ensures
            r == match entry_at(self.bodies@, body.0) {
                Some(b) => Some(&b),
                None => None,
            },
    {
        if body.0 < self.bodies.len() {
            Some(&self.bodies[body.0])
        } else {
            None
        }
    }

    pub fn bodies(&self) -> (r: &Vec<BodyData>)
        ensures
            r == &self.bodies,
    {
        &self.bodies
    }

    /// Stores a lowered body and returns its id.
    pub fn alloc_body(&mut self, data: BodyData) -> (r: BodyId)
        ensures
            r.0 == old(self).bodies@.len(),
            final(self).bodies@ == old(self).bodies@.push(data),
            final(self).status == old(self).status,
            final(self).function_bodies == old(self).function_bodies,
    {
        let body = BodyId(self.bodies.len());
        self.bodies.push(data);
        body
    }

    /// Records the body of a module-level function.
    pub fn set_function_body(&mut self, function: FunctionId, body: BodyId)
        requires
            function.0 < old(self).function_bodies@.len(),
        ensures
            final(self).function_bodies@ == old(self).function_bodies@.update(function.0 as int, Some(body)),
            final(self).status == old(self).status,
            final(self).bodies == old(self).bodies,
    {
        self.function_bodies.set(function.0, Some(body));
    }
}

/// Lowered bodies for all targets inside one parsed package.
#[derive(Debug)]
pub struct PackageBodies {
    pub targets: Vec<TargetBodies>,
}

impl PackageBodies {
    pub fn new(targets: Vec<TargetBodies>) -> (r: Self)
        ensures
            r.targets == targets,
    {
        PackageBodies { targets }
    }

    pub fn targets(&self) -> (r: &Vec<TargetBodies>)
        ensures
            r == &self.targets,
    {
        &self.targets
    }

    pub fn target(&self, target: crate::text::TargetId) -> (r: Option<&TargetBodies>)
        ensures
            r == match entry_at(self.targets@, target.0) {
                Some(t) => Some(&t),
                None => None,
            },
    {
        if target.0 < self.targets.len() {
            Some(&self.targets[target.0])
        } else {
            None
        }
    }
}

/// Which packages get their function bodies lowered.
#[derive(Debug, Clone, Copy, PartialEq, Eq, Structural)]
enum BodyIrPackageScope {
    WorkspacePackages,
    AllPackages,
}

/// Controls which packages get function-body lowering during eager Body IR construction.
#[derive(Debug, Clone, Copy, PartialEq, Eq, Structural)]
pub struct BodyIrBuildPolicy {
    package_scope: BodyIrPackageScope,
}

impl BodyIrBuildPolicy {
    /// Whether the policy lowers every package, dependencies included.
    pub closed spec fn lowers_all(self) -> bool {
        self.package_scope == BodyIrPackageScope::AllPackages
    }

    /// A policy is determined by whether it lowers every package: in particular
    /// `workspace_packages()` and `default()` give the same policy.
    pub proof fn lemma_determined_by_scope(a: Self, b: Self)
        requires
            a.lowers_all() == b.lowers_all(),
        ensures
            a == b,
    {
    }

    /// Lowers only workspace packages.
    pub fn workspace_packages() -> (r: Self)
        ensures
            !r.lowers_all(),
    {
        BodyIrBuildPolicy { package_scope: BodyIrPackageScope::WorkspacePackages }
    }

    /// Lowers every parsed package, including dependencies and sysroot crates.
    pub fn all_packages() -> (r: Self)
        ensures
            r.lowers_all(),
    {
        BodyIrBuildPolicy { package_scope: BodyIrPackageScope::AllPackages }
    }

    /// Whether a package, given whether it is a workspace member, gets its bodies lowered.
    pub fn should_lower_package(&self, is_workspace_member: bool) -> (r: bool)
        ensures
            r == (self.lowers_all() || is_workspace_member),
    {
        match self.package_scope {
            BodyIrPackageScope::WorkspacePackages => is_workspace_member,
            BodyIrPackageScope::AllPackages => true,
        }
    }
}

impl Default for BodyIrBuildPolicy {
    /// Workspace packages only: dependency signatures remain available elsewhere, but their
    /// body internals are skipped to keep eager analysis cheaper.
    fn default() -> (r: Self)
        ensures
            !r.lowers_all(),
    {
        BodyIrBuildPolicy::workspace_packages()
    }
}


/// Body-level IR for all analyzed packages and targets.
#[derive(Debug)]
pub struct BodyIrDb {
    packages: Vec<PackageBodies>,
    /// Which slots were offloaded; a slot past the end of this list is resident.
    offloaded: Vec<bool>,
}

/// Coarse totals for reporting that the Body IR phase produced useful data.
#[derive(Debug, Clone, Copy, PartialEq, Eq, Default)]
pub struct BodyIrStats {
    pub target_count: usize,
    pub built_target_count: usize,
    pub skipped_target_count: usize,
    pub body_count: usize,
    pub scope_count: usize,
    pub local_item_count: usize,
    pub local_impl_count: usize,
    pub local_function_count: usize,
    pub binding_count: usize,
    pub statement_count: usize,
    pub expression_count: usize,
}

/// Model of Body IR totals.
pub struct BodyStatsView {
    pub target_count: int,
    pub built_target_count: int,
    pub skipped_target_count: int,
    pub body_count: int,
    pub scope_count: int,
    pub local_item_count: int,
    pub local_impl_count: int,
    pub local_function_count: int,
    pub binding_count: int,
    pub statement_count: int,
    pub expression_count: int,
}

impl View for BodyIrStats {
    type V = BodyStatsView;

    open spec fn view(&self) -> BodyStatsView {
        BodyStatsView {
            target_count: self.target_count as int,
            built_target_count: self.built_target_count as int,
            skipped_target_count: self.skipped_target_count as int,
            body_count: self.body_count as int,
            scope_count: self.scope_count as int,
            local_item_count: self.local_item_count as int,
            local_impl_count: self.local_impl_count as int,
            local_function_count: self.local_function_count as int,
            binding_count: self.binding_count as int,
            statement_count: self.statement_count as int,
            expression_count: self.expression_count as int,
        }
    }
}

pub open spec fn zero_body_stats() -> BodyStatsView {
    BodyStatsView {
        target_count: 0,
        built_target_count: 0,
        skipped_target_count: 0,
        body_count: 0,
        scope_count: 0,
        local_item_count: 0,
        local_impl_count: 0,
        local_function_count: 0,
        binding_count: 0,
        statement_count: 0,
        expression_count: 0,
    }
}

/// `s` with the node counts of one more body added.
pub open spec fn add_body(s: BodyStatsView, body: BodyData) -> BodyStatsView {
    BodyStatsView {
        scope_count: s.scope_count + body.scopes@.len(),
        local_item_count: s.local_item_count + body.local_items@.len(),
        local_impl_count: s.local_impl_count + body.local_impls@.len(),
        local_function_count: s.local_function_count + body.local_functions@.len(),
        binding_count: s.binding_count + body.bindings@.len(),
        statement_count: s.statement_count + body.statements@.len(),
        expression_count: s.expression_count + body.exprs@.len(),
        ..s
    }
}

/// `s` after counting `bodies`.
pub open spec fn add_bodies(s: BodyStatsView, bodies: Seq<BodyData>) -> BodyStatsView
    decreases bodies.len(),
{
    if bodies.len() == 0 {
        s
    } else {
        add_body(add_bodies(s, bodies.drop_last()), bodies.last())
    }
}

/// `s` with one more target counted, before its bodies' nodes.
pub open spec fn add_target_header(s: BodyStatsView, target: TargetBodies) -> BodyStatsView {
    BodyStatsView {
        target_count: s.target_count + 1,
        built_target_count: s.built_target_count + if target.status == TargetBodiesStatus::Built { 1int } else { 0int },
        skipped_target_count: s.skipped_target_count + if target.status == TargetBodiesStatus::Skipped { 1int } else { 0int },
        body_count: s.body_count + target.bodies@.len(),
        ..s
    }
}

/// Totals over `targets`.
pub open spec fn targets_stats(targets: Seq<TargetBodies>) -> BodyStatsView
    decreases targets.len(),
{
    if targets.len() == 0 {
        zero_body_stats()
    } else {
        add_bodies(add_target_header(targets_stats(targets.drop_last()), targets.last()), targets.last().bodies@)
    }
}

/// Every target of every package, in package then target order.
pub open spec fn all_targets(packages: Seq<PackageBodies>) -> Seq<TargetBodies>
    decreases packages.len(),
{
    if packages.len() == 0 {
        Seq::empty()
    } else {
        all_targets(packages.drop_last()) + packages.last().targets@
    }
}

pub open spec fn body_stats_le(a: BodyStatsView, b: BodyStatsView) -> bool {
    &&& 0 <= a.target_count <= b.target_count
    &&& 0 <= a.built_target_count <= b.built_target_count
    &&& 0 <= a.skipped_target_count <= b.skipped_target_count
    &&& 0 <= a.body_count <= b.body_count
    &&& 0 <= a.scope_count <= b.scope_count
    &&& 0 <= a.local_item_count <= b.local_item_count
    &&& 0 <= a.local_impl_count <= b.local_impl_count
    &&& 0 <= a.local_function_count <= b.local_function_count
    &&& 0 <= a.binding_count <= b.binding_count
    &&& 0 <= a.statement_count <= b.statement_count
    &&& 0 <= a.expression_count <= b.expression_count
}

pub open spec fn body_stats_fit(s: BodyStatsView) -> bool {
    &&& s.target_count <= usize::MAX
    &&& s.built_target_count <= usize::MAX
    &&& s.skipped_target_count <= usize::MAX
    &&& s.body_count <= usize::MAX
    &&& s.scope_count <= usize::MAX
    &&& s.local_item_count <= usize::MAX
    &&& s.local_impl_count <= usize::MAX
    &&& s.local_function_count <= usize::MAX
    &&& s.binding_count <= usize::MAX
    &&& s.statement_count <= usize::MAX
    &&& s.expression_count <= usize::MAX
}

proof fn lemma_add_bodies_mono(s: BodyStatsView, bodies: Seq<BodyData>, n: int)
    requires
        0 <= n <= bodies.len(),
        body_stats_le(zero_body_stats(), s),
    ensures
        body_stats_le(s, add_bodies(s, bodies.take(n))),
        body_stats_le(add_bodies(s, bodies.take(n)), add_bodies(s, bodies)),
    decreases bodies.len() - n,
{
    lemma_add_bodies_grow(s, bodies.take(n));
    if n < bodies.len() {
        lemma_add_bodies_mono(s, bodies, n + 1);
        assert(bodies.take(n + 1).drop_last() =~= bodies.take(n));
        assert(bodies.take(n + 1).last() == bodies[n]);
    } else {
        assert(bodies.take(n) =~= bodies);
    }
}

proof fn lemma_add_bodies_grow(s: BodyStatsView, bodies: Seq<BodyData>)
    requires
        body_stats_le(zero_body_stats(), s),
    ensures
        body_stats_le(s, add_bodies(s, bodies)),
    decreases bodies.len(),
{
    if bodies.len() > 0 {
        lemma_add_bodies_grow(s, bodies.drop_last());
    }
}

proof fn lemma_targets_mono(targets: Seq<TargetBodies>, n: int)
    requires
        0 <= n <= targets.len(),
    ensures
        body_stats_le(zero_body_stats(), targets_stats(targets.take(n))),
        body_stats_le(targets_stats(targets.take(n)), targets_stats(targets)),
    decreases targets.len() - n,
{
    lemma_targets_nonneg(targets.take(n));
    if n < targets.len() {
        lemma_targets_mono(targets, n + 1);
        assert(targets.take(n + 1).drop_last() =~= targets.take(n));
        assert(targets.take(n + 1).last() == targets[n]);
        let before = targets_stats(targets.take(n));
        let header = add_target_header(before, targets[n]);
        lemma_add_bodies_grow(header, targets[n].bodies@);
    } else {
        assert(targets.take(n) =~= targets);
    }
}

proof fn lemma_targets_nonneg(targets: Seq<TargetBodies>)
    ensures
        body_stats_le(zero_body_stats(), targets_stats(targets)),
        body_stats_le(targets_stats(targets), targets_stats(targets)),
    decreases targets.len(),
{
    if targets.len() > 0 {
        lemma_targets_nonneg(targets.drop_last());
        let header = add_target_header(targets_stats(targets.drop_last()), targets.last());
        lemma_add_bodies_grow(header, targets.last().bodies@);
    }
}

proof fn lemma_all_targets_prefix(packages: Seq<PackageBodies>, n: int)
    requires
        0 <= n <= packages.len(),
    ensures
        all_targets(packages.take(n)).len() <= all_targets(packages).len(),
        all_targets(packages).take(all_targets(packages.take(n)).len() as int) == all_targets(packages.take(n)),
    decreases packages.len() - n,
{
    if n < packages.len() {
        lemma_all_targets_prefix(packages, n + 1);
        assert(packages.take(n + 1).drop_last() =~= packages.take(n));
        let short = all_targets(packages.take(n));
        let long = all_targets(packages.take(n + 1));
        let all = all_targets(packages);
        assert(all.take(short.len() as int) =~= all.take(long.len() as int).take(short.len() as int));
        assert(long.take(short.len() as int) =~= short);
    } else {
        assert(packages.take(n) =~= packages);
        assert(all_targets(packages).take(all_targets(packages).len() as int) =~= all_targets(packages));
    }
}

impl BodyIrDb {
    /// The package bodies, in package-slot order.
    pub closed spec fn package_list(&self) -> Seq<PackageBodies> {
        self.packages@
    }

    /// The bodies of one target, if its package and target exist.
    pub open spec fn target_spec(&self, target: crate::ids::TargetRef) -> Option<TargetBodies> {
        match entry_at(self.package_list(), target.package.0) {
            Some(p) => entry_at(p.targets@, target.target.0),
            None => None,
        }
    }

    /// One body, if its target and body exist.
    pub open spec fn body_spec(&self, body: BodyRef) -> Option<BodyData> {
        match self.target_spec(body.target) {
            Some(t) => entry_at(t.bodies@, body.body.0),
            None => None,
        }
    }

    /// The offload marks of the package slots; slots past their end are resident.
    pub closed spec fn offloaded_slots(&self) -> Seq<bool> {
        self.offloaded@
    }

    /// The slot exists and its package has not been offloaded.
    pub open spec fn is_resident(&self, slot: crate::ids::PackageSlot) -> bool {
        &&& slot.0 < self.package_list().len()
        &&& !(slot.0 < self.offloaded_slots().len() && self.offloaded_slots()[slot.0 as int])
    }

    /// A database whose packages are all resident.
    pub fn new(packages: Vec<PackageBodies>) -> (r: Self)
        ensures
            r.package_list() == packages@,
            r.offloaded_slots().len() == 0,
    {
        BodyIrDb { packages, offloaded: Vec::new() }
    }

    /// A database from its packages and the offload marks of its slots.
    pub fn from_parts(packages: Vec<PackageBodies>, offloaded: Vec<bool>) -> (r: Self)
        ensures
            r.package_list() == packages@,
            r.offloaded_slots() == offloaded@,
    {
        BodyIrDb { packages, offloaded }
    }

    /// The packages and the offload marks, taken out of the database.
    pub fn into_parts(self) -> (r: (Vec<PackageBodies>, Vec<bool>))
        ensures
            r.0@ == self.package_list(),
            r.1@ == self.offloaded_slots(),
    {
        (self.packages, self.offloaded)
    }

    /// Number of package slots tracked by this snapshot.
    pub fn package_count(&self) -> (r: usize)
        ensures
            r == self.package_list().len(),
    {
        self.packages.len()
    }

    /// Whether a slot exists and its package is resident.
    pub fn resident(&self, slot: crate::ids::PackageSlot) -> (r: bool)
        ensures
            r == self.is_resident(slot),
    {
        slot.0 < self.packages.len() && !(slot.0 < self.offloaded.len() && self.offloaded[slot.0])
    }

    /// Returns one resident package by package slot; an offloaded package is not resident.
    pub fn resident_package(&self, slot: crate::ids::PackageSlot) -> (r: Option<&PackageBodies>)
        ensures
            r == if self.is_resident(slot) {
                Some(&self.package_list()[slot.0 as int])
            } else {
                None::<&PackageBodies>
            },
    {
        if self.resident(slot) {
            Some(&self.packages[slot.0])
        } else {
            None
        }
    }

    /// Offloads one package slot: its bodies leave memory, so the slot holds no targets and is no
    /// longer resident. Every other slot is kept as it was.
    pub fn offload_package(&mut self, slot: crate::ids::PackageSlot) -> (r: Option<()>)
        ensures
            r is Some <==> slot.0 < old(self).package_list().len(),
            r is None ==> final(self).package_list() == old(self).package_list() && final(self).offloaded_slots()
                == old(self).offloaded_slots(),
            r is Some ==> {
                &&& final(self).package_list().len() == old(self).package_list().len()
                &&& final(self).package_list()[slot.0 as int].targets@.len() == 0
                &&& !final(self).is_resident(slot)
                &&& forall|p: int|
                    0 <= p < old(self).package_list().len() && p != slot.0 ==> #[trigger] final(self).package_list()[p]
                        == old(self).package_list()[p] && final(self).is_resident(PackageSlot(p as usize))
                        == old(self).is_resident(PackageSlot(p as usize))
            },
    {
        if slot.0 >= self.packages.len() {
            return None;
        }
        let ghost marks = self.offloaded@;
        while self.offloaded.len() <= slot.0
            invariant
                self.packages@ == old(self).packages@,
                slot.0 < self.packages@.len(),
                marks == old(self).offloaded@,
                self.offloaded@.len() >= marks.len(),
                forall|i: int| 0 <= i < marks.len() ==> self.offloaded@[i] == marks[i],
                forall|i: int| marks.len() <= i < self.offloaded@.len() ==> !self.offloaded@[i],
            decreases slot.0 + 1 - self.offloaded.len(),
        {
            self.offloaded.push(false);
        }
        self.offloaded.set(slot.0, true);
        self.packages.set(slot.0, PackageBodies { targets: Vec::new() });
        Some(())
    }

    /// The package bodies, taken out of the database.
    pub fn into_packages(self) -> (r: Vec<PackageBodies>)
        ensures
            r@ == self.package_list(),
    {
        self.packages
    }

    /// Returns all package-level body sets.
    pub fn packages(&self) -> (r: &Vec<PackageBodies>)
        ensures
            r@ == self.package_list(),
    {
        &self.packages
    }

    /// Returns one package by package slot.
    pub fn package(&self, package: crate::ids::PackageSlot) -> (r: Option<&PackageBodies>)
        ensures
            r == match entry_at(self.package_list(), package.0) {
                Some(p) => Some(&p),
                None => None,
            },
    {
        if package.0 < self.packages.len() {
            Some(&self.packages[package.0])
        } else {
            None
        }
    }

    /// Returns one target's bodies by project-wide target reference.
    pub fn target_bodies(&self, target: crate::ids::TargetRef) -> (r: Option<&TargetBodies>)
        ensures
            r == match self.target_spec(target) {
                Some(t) => Some(&t),
                None => None,
            },
    {
        match self.package(target.package) {
            Some(package) => package.target(target.target),
            None => None,
        }
    }

    /// Returns the body associated with a module-level function, if that function has one.
    pub fn body_for_function(&self, function: FunctionRef) -> (r: Option<BodyRef>)
        ensures
            r == match self.target_spec(function.target) {
                Some(t) => match (if function.id.0 < t.function_bodies@.len() {
                    t.function_bodies@[function.id.0 as int]
                } else {
                    None
                }) {
                    Some(body) => Some(BodyRef { target: function.target, body }),
                    None => None,
                },
                None => None,
            },
    {
        match self.target_bodies(function.target) {
            Some(target) => match target.body_for_function(function.id) {
                Some(body) => Some(BodyRef { target: function.target, body }),
                None => None,
            },
            None => None,
        }
    }

    /// Returns one body by project-wide body reference.
    pub fn body_data(&self, body_ref: BodyRef) -> (r: Option<&BodyData>)
        ensures
            r == match self.body_spec(body_ref) {
                Some(b) => Some(&b),
                None => None,
            },
    {
        match self.target_bodies(body_ref.target) {
            Some(target) => target.body(body_ref.body),
            None => None,
        }
    }

    /// References to every field of a body-local item, in declaration order.
    pub fn fields_for_local_type(&self, item_ref: BodyItemRef) -> (r: Vec<BodyFieldRef>)
        ensures
            r@ == match self.body_spec(item_ref.body) {
                Some(body) => match entry_at(body.local_items@, item_ref.item.0) {
                    Some(item) => Seq::new(item.fields.fields@.len(), |i: int| BodyFieldRef { item: item_ref, index: i as usize }),
                    None => Seq::empty(),
                },
                None => Seq::empty(),
            },
    {
        let mut out: Vec<BodyFieldRef> = Vec::new();
        let body = match self.body_data(item_ref.body) {
            Some(body) => body,
            None => return out,
        };
        let item = match body.local_item(item_ref.item) {
            Some(item) => item,
            None => return out,
        };
        let n = item.fields.fields.len();
        let mut i: usize = 0;
        while i < n
            invariant
                i <= n,
                out@ == Seq::new(i as nat, |k: int| BodyFieldRef { item: item_ref, index: k as usize }),
            decreases n - i,
        {
            out.push(BodyFieldRef { item: item_ref, index: i });
            proof {
                assert(out@ =~= Seq::new((i + 1) as nat, |k: int| BodyFieldRef { item: item_ref, index: k as usize }));
            }
            i = i + 1;
        }
        out
    }

    /// The item and field a body-local field reference denotes.
    pub fn local_field_data(&self, field_ref: BodyFieldRef) -> (r: Option<BodyFieldData<'_>>)
        ensures
            match r {
                Some(data) => match self.body_spec(field_ref.item.body) {
                    Some(body) => field_ref.item.item.0 < body.local_items@.len() && *data.item
                        == body.local_items@[field_ref.item.item.0 as int] && field_ref.index
                        < data.item.fields.fields@.len() && *data.field == data.item.fields.fields@[field_ref.index as int],
                    None => false,
                },
                None => match self.body_spec(field_ref.item.body) {
                    Some(body) => field_ref.item.item.0 >= body.local_items@.len()
                        || field_ref.index >= body.local_items@[field_ref.item.item.0 as int].fields.fields@.len(),
                    None => true,
                },
            },
    {
        let body = match self.body_data(field_ref.item.body) {
            Some(body) => body,
            None => return None,
        };
        let item = match body.local_item(field_ref.item.item) {
            Some(item) => item,
            None => return None,
        };
        match item.field(field_ref.index) {
            Some(field) => Some(BodyFieldData { item, field }),
            None => None,
        }
    }

    /// Functions of the inherent local impls of a body-local type.
    pub fn inherent_functions_for_local_type(&self, item_ref: BodyItemRef) -> (r: Vec<BodyFunctionRef>)
        ensures
            r@ == match self.body_spec(item_ref.body) {
                Some(body) => inherent_functions(body.local_impls@, item_ref, item_ref.body),
                None => Seq::empty(),
            },
    {
        match self.body_data(item_ref.body) {
            Some(body) => body.inherent_functions_for_local_type(item_ref.body, item_ref),
            None => Vec::new(),
        }
    }

    /// Returns one body-local function declaration.
    pub fn local_function_data(&self, function_ref: BodyFunctionRef) -> (r: Option<&BodyFunctionData>)
        ensures
            r == match self.body_spec(function_ref.body) {
                Some(body) => match entry_at(body.local_functions@, function_ref.function.0) {
                    Some(f) => Some(&f),
                    None => None,
                },
                None => None,
            },
    {
        match self.body_data(function_ref.body) {
            Some(body) => body.local_function(function_ref.function),
            None => None,
        }
    }

    /// Coarse totals over every target and body.
    pub fn stats(&self) -> (r: BodyIrStats)
        requires
            body_stats_fit(targets_stats(all_targets(self.package_list()))),
        ensures
            r@ == targets_stats(all_targets(self.package_list())),
    {
        let ghost total = targets_stats(all_targets(self.package_list()));
        let mut stats = BodyIrStats {
            target_count: 0,
            built_target_count: 0,
            skipped_target_count: 0,
            body_count: 0,
            scope_count: 0,
            local_item_count: 0,
            local_impl_count: 0,
            local_function_count: 0,
            binding_count: 0,
            statement_count: 0,
            expression_count: 0,
        };
        proof {
            assert(self.packages@.take(0) =~= Seq::<PackageBodies>::empty());
            lemma_targets_nonneg(all_targets(self.packages@));
        }
        let mut p: usize = 0;
        while p < self.packages.len()
            invariant
                p <= self.packages@.len(),
                total == targets_stats(all_targets(self.packages@)),
                body_stats_fit(total),
                stats@ == targets_stats(all_targets(self.packages@.take(p as int))),
            decreases self.packages.len() - p,
        {
            let package = &self.packages[p];
            let ghost done = all_targets(self.packages@.take(p as int));
            proof {
                assert(self.packages@.take(p + 1).drop_last() =~= self.packages@.take(p as int));
                assert(all_targets(self.packages@.take(p + 1)) == done + package.targets@);
                lemma_all_targets_prefix(self.packages@, p + 1);
            }
            let ghost all = all_targets(self.packages@);
            let mut t: usize = 0;
            proof {
                assert(done + package.targets@.take(0) =~= done);
            }
            while t < package.targets.len()
                invariant
                    t <= package.targets@.len(),
                    body_stats_fit(total),
                    total == targets_stats(all),
                    all.take((done + package.targets@).len() as int) == done + package.targets@,
                    (done + package.targets@).len() <= all.len(),
                    stats@ == targets_stats(done + package.targets@.take(t as int)),
                decreases package.targets.len() - t,
            {
                let target = &package.targets[t];
                let ghost prefix = done + package.targets@.take(t + 1);
                proof {
                    assert(prefix.drop_last() =~= done + package.targets@.take(t as int));
                    assert(all.take(prefix.len() as int) =~= prefix);
                    lemma_targets_mono(all, prefix.len() as int);
                    let header = add_target_header(targets_stats(prefix.drop_last()), *target);
                    lemma_add_bodies_mono(header, target.bodies@, 0);
                    assert(target.bodies@.take(0) =~= Seq::<BodyData>::empty());
                }
                stats.target_count = stats.target_count + 1;
                match target.status {
                    TargetBodiesStatus::Built => {
                        stats.built_target_count = stats.built_target_count + 1;
                    },
                    TargetBodiesStatus::Skipped => {
                        stats.skipped_target_count = stats.skipped_target_count + 1;
                    },
                }
                stats.body_count = stats.body_count + target.bodies.len();
                let ghost header = stats@;
                let mut b: usize = 0;
                while b < target.bodies.len()
                    invariant
                        b <= target.bodies@.len(),
                        body_stats_fit(total),
                        body_stats_le(add_bodies(header, target.bodies@), total),
                        body_stats_le(zero_body_stats(), header),
                        stats@ == add_bodies(header, target.bodies@.take(b as int)),
                    decreases target.bodies.len() - b,
                {
                    let body = &target.bodies[b];
                    proof {
                        assert(target.bodies@.take(b + 1).drop_last() =~= target.bodies@.take(b as int));
                        lemma_add_bodies_mono(header, target.bodies@, b + 1);
                    }
                    stats.scope_count = stats.scope_count + body.scopes.len();
                    stats.local_item_count = stats.local_item_count + body.local_items.len();
                    stats.local_impl_count = stats.local_impl_count + body.local_impls.len();
                    stats.local_function_count = stats.local_function_count + body.local_functions.len();
                    stats.binding_count = stats.binding_count + body.bindings.len();
                    stats.statement_count = stats.statement_count + body.statements.len();
                    stats.expression_count = stats.expression_count + body.exprs.len();
                    b = b + 1;
                }
                proof {
                    assert(target.bodies@.take(target.bodies@.len() as int) =~= target.bodies@);
                }
                t = t + 1;
            }
            proof {
                assert(package.targets@.take(package.targets@.len() as int) =~= package.targets@);
            }
            p = p + 1;
        }
        proof {
            assert(self.packages@.take(self.packages@.len() as int) =~= self.packages@);
        }
        stats
    }
}

} // verus!
