//! Lowering of function bodies: parameters, blocks, statements, body-local items and
//! expressions, allocated into a body builder children first.

use vstd::prelude::*;

use crate::body::{
    BindingData, BindingKind, BodyBuilder, BodyData, BodyIrBuildPolicy, PackageBodies, TargetBodies, BodyFunctionData, BodyFunctionOwner, BodyImplData, BodyItemData,
    BodyItemKind, BodyResolution, BodySource, BodyTy, ExprData, ExprKind, LiteralKind,
    MatchArmData, StmtData, StmtKind,
};
use crate::body_ids::{BindingId, BodyFunctionId, BodyId, BodyImplId, BodyItemId, ExprId, PatId, ScopeId, StmtId};
use crate::ids::ModuleRef;
use crate::item_tree::{FieldKey, FieldList, FunctionItem, FunctionRef, TypeRef};
use crate::literal::literal_kind_of;
use crate::lower::{fresh_names, listed_names, lower_pat, lowering_step, pat_names, pat_root_source, PatSyntax};
use crate::path::Path;
use crate::text::Span;

verus! {

/// An expression as parsed, with its source location and its text with whitespace runs
/// collapsed to single spaces.
#[derive(Debug)]
pub struct ExprSyntax {
    pub source: BodySource,
    pub text: String,
    pub kind: ExprSyntaxKind,
}

/// Expression forms as parsed.
#[derive(Debug)]
pub enum ExprSyntaxKind {
    Block(BlockSyntax),
    Call { callee: Option<Box<ExprSyntax>>, args: Vec<ExprSyntax> },
    /// A field access; `field` is absent when the name cannot be read as a key.
    Field {
        base: Option<Box<ExprSyntax>>,
        dot_span: Option<Span>,
        field: Option<FieldKey>,
        field_span: Option<Span>,
    },
    Literal,
    Match { scrutinee: Option<Box<ExprSyntax>>, arms: Vec<MatchArmSyntax> },
    MethodCall {
        receiver: Option<Box<ExprSyntax>>,
        dot_span: Option<Span>,
        name: Option<NameSyntax>,
        args: Vec<ExprSyntax>,
    },
    /// A path expression; `path` is absent when the path itself is missing.
    Path { path: Option<Path> },
    /// Any other expression with the expressions directly inside it: the operand of a
    /// parenthesized, prefix, reference or `return` expression, and the direct expression
    /// children of the forms the lowering does not model.
    Other { children: Vec<ExprSyntax> },
}

/// The statements and the tail expression of a block.
#[derive(Debug)]
pub struct BlockSyntax {
    pub statements: Vec<StmtSyntax>,
    pub tail: Option<Box<ExprSyntax>>,
}

/// One arm of a `match` as parsed.
#[derive(Debug)]
pub struct MatchArmSyntax {
    pub pat: Option<PatSyntax>,
    pub expr: Option<Box<ExprSyntax>>,
}

/// A statement as parsed, with its location.
#[derive(Debug)]
pub struct StmtSyntax {
    pub source: BodySource,
    pub kind: StmtSyntaxKind,
}

/// Statement forms as parsed; items other than structs and impls are `OtherItem`.
#[derive(Debug)]
pub enum StmtSyntaxKind {
    Let { pat: Option<PatSyntax>, ty: Option<TypeRef>, initializer: Option<Box<ExprSyntax>> },
    Expr { expr: Option<Box<ExprSyntax>>, has_semicolon: bool },
    Struct { name: Option<NameSyntax>, fields: FieldList },
    Impl { trait_ref: Option<TypeRef>, self_ty: TypeRef, items: Vec<AssocItemSyntax> },
    OtherItem,
}

/// An item inside an impl block as parsed.
#[derive(Debug)]
pub enum AssocItemSyntax {
    Fn { source: BodySource, name: Option<NameSyntax>, declaration: FunctionItem },
    Other,
}

/// A function's parameter list as parsed.
#[derive(Debug)]
pub struct ParamListSyntax {
    pub self_param: Option<SelfParamSyntax>,
    pub params: Vec<ParamSyntax>,
}

/// A `self` parameter as parsed, with its collapsed text and its type if written.
#[derive(Debug)]
pub struct SelfParamSyntax {
    pub source: BodySource,
    pub text: String,
    pub ty: Option<TypeRef>,
}

/// An ordinary parameter as parsed.
#[derive(Debug)]
pub struct ParamSyntax {
    pub source: BodySource,
    pub pat: Option<PatSyntax>,
    pub ty: Option<TypeRef>,
}

/// A name token with its location.
#[derive(Debug)]
pub struct NameSyntax {
    pub source: BodySource,
    pub text: String,
}

/// Every item of `old` stays in `new` at its index.
pub open spec fn extends<T>(old: Seq<T>, new: Seq<T>) -> bool {
    &&& old.len() <= new.len()
    &&& forall|i: int| 0 <= i < old.len() ==> #[trigger] new[i] == old[i]
}

/// `new` is `old` after more lowering: nothing allocated before changes but the binding,
/// item and impl lists of existing scopes, and every expression allocated since sees the
/// bindings allocated before it and no binding allocated after it was.
pub open spec fn grows(old: BodyBuilder, new: BodyBuilder) -> bool {
    &&& new.wf()
    &&& old.scopes@.len() <= new.scopes@.len()
    &&& forall|s: int| 0 <= s < old.scopes@.len() ==> (#[trigger] new.scopes@[s]).parent == old.scopes@[s].parent
    &&& extends(old.bindings@, new.bindings@)
    &&& extends(old.local_items@, new.local_items@)
    &&& extends(old.local_impls@, new.local_impls@)
    &&& extends(old.local_functions@, new.local_functions@)
    &&& extends(old.pats@, new.pats@)
    &&& extends(old.statements@, new.statements@)
    &&& extends(old.exprs@, new.exprs@)
    &&& forall|e: int|
        old.exprs@.len() <= e < new.exprs@.len() ==> old.bindings@.len() <= (#[trigger] new.exprs@[e]).visible_bindings
            <= new.bindings@.len()
}

/// Every scope of `old` is unchanged in `new`: nothing was declared in it.
pub open spec fn scopes_kept(old: BodyBuilder, new: BodyBuilder) -> bool {
    forall|s: int| 0 <= s < old.scopes@.len() ==> #[trigger] new.scopes@[s] == old.scopes@[s]
}

/// Every scope of `old` but `scope` is unchanged in `new`.
pub open spec fn scopes_kept_except(old: BodyBuilder, new: BodyBuilder, scope: ScopeId) -> bool {
    forall|s: int| 0 <= s < old.scopes@.len() && s != scope.0 ==> #[trigger] new.scopes@[s] == old.scopes@[s]
}

/// `id` is an expression of `b` lowered from `syntax`.
pub open spec fn expr_lowered(b: BodyBuilder, id: ExprId, syntax: ExprSyntax) -> bool {
    id.0 < b.exprs@.len() && b.exprs@[id.0 as int].source == syntax.source
}

/// `id` is present exactly when `syntax` is, and lowered from it.
pub open spec fn opt_expr_lowered(b: BodyBuilder, id: Option<ExprId>, syntax: Option<Box<ExprSyntax>>) -> bool {
    match syntax {
        Some(s) => id matches Some(i) && expr_lowered(b, i, *s),
        None => id is None,
    }
}

/// `ids` are the expressions lowered from `syntax`, in order.
pub open spec fn exprs_lowered(b: BodyBuilder, ids: Seq<ExprId>, syntax: Seq<ExprSyntax>) -> bool {
    &&& ids.len() == syntax.len()
    &&& forall|i: int| 0 <= i < ids.len() ==> #[trigger] expr_lowered(b, ids[i], syntax[i])
}

/// Scope `s` exists and is nested directly in `parent`.
pub open spec fn child_scope(b: BodyBuilder, s: ScopeId, parent: ScopeId) -> bool {
    s.0 < b.scopes@.len() && b.scopes@[s.0 as int].parent == Some(parent)
}

/// `id` is present exactly when `syntax` is, and is the root node lowered from it.
pub open spec fn pat_lowered(b: BodyBuilder, id: Option<PatId>, syntax: Option<PatSyntax>) -> bool {
    match syntax {
        Some(p) => id matches Some(i) && i.0 < b.pats@.len() && b.pats@[i.0 as int].source == pat_root_source(p),
        None => id is None,
    }
}

/// `ids` are the statements lowered from `syntax`, in order.
pub open spec fn stmts_lowered(b: BodyBuilder, ids: Seq<StmtId>, syntax: Seq<StmtSyntax>) -> bool {
    &&& ids.len() == syntax.len()
    &&& forall|i: int|
        0 <= i < ids.len() ==> (#[trigger] ids[i]).0 < b.statements@.len() && b.statements@[ids[i].0 as int].source
            == syntax[i].source
}

/// `arms` are the arms lowered from `syntax`, each in a scope of its own nested in `parent`.
pub open spec fn arms_lowered(b: BodyBuilder, arms: Seq<MatchArmData>, syntax: Seq<MatchArmSyntax>, parent: ScopeId) -> bool {
    &&& arms.len() == syntax.len()
    &&& forall|i: int|
        0 <= i < arms.len() ==> child_scope(b, (#[trigger] arms[i]).scope, parent) && pat_lowered(
            b,
            arms[i].pat,
            syntax[i].pat,
        ) && opt_expr_lowered(b, arms[i].expr, syntax[i].expr)
}

/// `ids` are the bindings of a `let` with pattern `pat` in `scope`: one per name the pattern
/// binds, first occurrence first.
pub open spec fn let_bindings(b: BodyBuilder, ids: Seq<BindingId>, pat: Option<PatSyntax>, scope: ScopeId) -> bool {
    &&& forall|k: int|
        0 <= k < ids.len() ==> (#[trigger] ids[k]).0 < b.bindings@.len() && b.bindings@[ids[k].0 as int].scope
            == scope && b.bindings@[ids[k].0 as int].kind == BindingKind::Let
    &&& listed_names(b.bindings@, ids) == match pat {
        Some(p) => fresh_names(Seq::empty(), pat_names(p)),
        None => Seq::empty(),
    }
}

/// The associated functions of an impl that are lowered: those with a name, in order.
pub open spec fn named_fns(items: Seq<AssocItemSyntax>) -> Seq<AssocItemSyntax>
    decreases items.len(),
{
    if items.len() == 0 {
        Seq::empty()
    } else {
        let before = named_fns(items.drop_last());
        match items.last() {
            AssocItemSyntax::Fn { name: Some(_), .. } => before.push(items.last()),
            _ => before,
        }
    }
}

/// The body-local function lowered from a named associated function of impl `owner`.
pub open spec fn fn_data_of(item: AssocItemSyntax, owner: BodyImplId) -> BodyFunctionData {
    BodyFunctionData {
        source: item->Fn_source,
        name_source: item->Fn_name->0.source,
        owner: BodyFunctionOwner::LocalImpl(owner),
        name: item->Fn_name->0.text,
        declaration: item->Fn_declaration,
    }
}

/// `impl_id` is the local impl lowered from an impl statement at `source` in `scope`, with
/// one local function per named associated function.
pub open spec fn impl_lowered(
    b: BodyBuilder,
    impl_id: BodyImplId,
    source: BodySource,
    scope: ScopeId,
    trait_ref: Option<TypeRef>,
    self_ty: TypeRef,
    items: Seq<AssocItemSyntax>,
) -> bool {
    let data = b.local_impls@[impl_id.0 as int];
    &&& impl_id.0 < b.local_impls@.len()
    &&& data.source == source
    &&& data.scope == scope
    &&& data.trait_ref == trait_ref
    &&& data.self_ty == self_ty
    &&& data.self_item is None
    &&& data.functions@.len() == named_fns(items).len()
    &&& forall|j: int|
        0 <= j < data.functions@.len() ==> (#[trigger] data.functions@[j]).0 < b.local_functions@.len()
            && b.local_functions@[data.functions@[j].0 as int] == fn_data_of(named_fns(items)[j], impl_id)
}

/// `data` is the statement that lowering `syntax` in `scope` allocates.
pub open spec fn stmt_lowered_from(b: BodyBuilder, data: StmtData, syntax: StmtSyntax, scope: ScopeId) -> bool {
    &&& data.source == syntax.source
    &&& match syntax.kind {
        StmtSyntaxKind::Let { pat, ty, initializer } => match data.kind {
            StmtKind::Let { scope: s, pat: p, bindings, annotation, initializer: i } => s == scope && annotation == ty
                && opt_expr_lowered(b, i, initializer) && pat_lowered(b, p, pat) && let_bindings(
                b,
                bindings@,
                pat,
                scope,
            ),
            _ => false,
        },
        StmtSyntaxKind::Expr { expr, has_semicolon } => match expr {
            Some(e) => match data.kind {
                StmtKind::Expr { expr: id, has_semicolon: h } => h == has_semicolon && expr_lowered(b, id, *e),
                _ => false,
            },
            None => data.kind is ItemIgnored,
        },
        StmtSyntaxKind::Struct { name, fields } => match name {
            Some(n) => match data.kind {
                StmtKind::Item { item } => item.0 < b.local_items@.len() && b.local_items@[item.0 as int] == (BodyItemData {
                    source: syntax.source,
                    name_source: n.source,
                    scope,
                    kind: BodyItemKind::Struct,
                    name: n.text,
                    fields,
                }),
                _ => false,
            },
            None => data.kind is ItemIgnored,
        },
        StmtSyntaxKind::Impl { trait_ref, self_ty, items } => match data.kind {
            StmtKind::Impl { impl_id } => impl_lowered(b, impl_id, syntax.source, scope, trait_ref, self_ty, items@),
            _ => false,
        },
        StmtSyntaxKind::OtherItem => data.kind is ItemIgnored,
    }
}

/// The name under which a method call is recorded.
pub open spec fn method_name_of(name: Option<NameSyntax>) -> Seq<char> {
    match name {
        Some(n) => n.text@,
        None => "<missing>"@,
    }
}

/// `key` and `syntax` are the same field key.
pub open spec fn same_field_key(key: Option<FieldKey>, syntax: Option<FieldKey>) -> bool {
    match syntax {
        Some(s) => key matches Some(k) && k@ == s@,
        None => key is None,
    }
}

/// `data` is a block expression in a scope of its own nested in `parent`, with the statements
/// and the tail of `block` lowered into `b`.
pub open spec fn block_lowered_from(b: BodyBuilder, data: ExprData, block: BlockSyntax, parent: ScopeId) -> bool {
    match data.kind {
        ExprKind::Block { scope: s, statements, tail } => data.scope == s && child_scope(b, s, parent) && stmts_lowered(
            b,
            statements@,
            block.statements@,
        ) && opt_expr_lowered(b, tail, block.tail),
        _ => false,
    }
}

/// `data` is the expression that lowering `syntax` in `scope` allocates, with its children
/// lowered into `b`.
pub open spec fn expr_lowered_from(b: BodyBuilder, data: ExprData, syntax: ExprSyntax, scope: ScopeId) -> bool {
    &&& data.source == syntax.source
    &&& data.resolution is Unknown
    &&& data.ty is Unknown
    &&& match syntax.kind {
        ExprSyntaxKind::Block(block) => block_lowered_from(b, data, block, scope),
        ExprSyntaxKind::Match { scrutinee, arms } => data.scope == scope && match data.kind {
            ExprKind::Match { scrutinee: s, arms: a } => opt_expr_lowered(b, s, scrutinee) && arms_lowered(b, a@, arms@, scope),
            _ => false,
        },
        ExprSyntaxKind::Call { callee, args } => data.scope == scope && match data.kind {
            ExprKind::Call { callee: c, args: a } => opt_expr_lowered(b, c, callee) && exprs_lowered(b, a@, args@),
            _ => false,
        },
        ExprSyntaxKind::Field { base, dot_span, field, field_span } => data.scope == scope && match data.kind {
            ExprKind::Field { base: bb, dot_span: d, field: f, field_span: fs } => opt_expr_lowered(b, bb, base)
                && d == dot_span && same_field_key(f, field) && fs == field_span,
            _ => false,
        },
        ExprSyntaxKind::Literal => data.scope == scope && match data.kind {
            ExprKind::Literal { text, kind } => text@ == syntax.text@ && kind == literal_kind_of(syntax.text@),
            _ => false,
        },
        ExprSyntaxKind::MethodCall { receiver, dot_span, name, args } => data.scope == scope && match data.kind {
            ExprKind::MethodCall { receiver: r, dot_span: d, method_name, method_name_span, args: a } => opt_expr_lowered(
                b,
                r,
                receiver,
            ) && d == dot_span && method_name@ == method_name_of(name) && method_name_span == match name {
                Some(n) => Some(n.source.span),
                None => None,
            } && exprs_lowered(b, a@, args@),
            _ => false,
        },
        ExprSyntaxKind::Path { path } => data.scope == scope && match path {
            Some(p) => data.kind == ExprKind::Path { path: p },
            None => match data.kind {
                ExprKind::Unknown { text, children } => text@ == syntax.text@ && children@.len() == 0,
                _ => false,
            },
        },
        ExprSyntaxKind::Other { children } => data.scope == scope && match data.kind {
            ExprKind::Unknown { text, children: c } => text@ == syntax.text@ && exprs_lowered(b, c@, children@),
            _ => false,
        },
    }
}

pub proof fn lemma_grows_refl(b: BodyBuilder)
    requires
        b.wf(),
    ensures
        grows(b, b),
{
}

pub proof fn lemma_grows_trans(a: BodyBuilder, b: BodyBuilder, c: BodyBuilder)
    requires
        grows(a, b),
        grows(b, c),
    ensures
        grows(a, c),
{
    assert forall|e: int| a.exprs@.len() <= e < c.exprs@.len() implies a.bindings@.len() <= (
    #[trigger] c.exprs@[e]).visible_bindings <= c.bindings@.len() by {
        if e < b.exprs@.len() {
            assert(c.exprs@[e] == b.exprs@[e]);
        }
    }
}

/// What growth keeps of a lowered expression list.
pub proof fn lemma_exprs_lowered_stable(a: BodyBuilder, b: BodyBuilder, ids: Seq<ExprId>, syntax: Seq<ExprSyntax>)
    requires
        grows(a, b),
        exprs_lowered(a, ids, syntax),
    ensures
        exprs_lowered(b, ids, syntax),
{
    assert forall|i: int| 0 <= i < ids.len() implies #[trigger] expr_lowered(b, ids[i], syntax[i]) by {
        assert(expr_lowered(a, ids[i], syntax[i]));
        assert(b.exprs@[ids[i].0 as int] == a.exprs@[ids[i].0 as int]);
    }
}

/// What growth keeps of an optional lowered expression.
pub proof fn lemma_opt_expr_lowered_stable(a: BodyBuilder, b: BodyBuilder, id: Option<ExprId>, syntax: Option<Box<ExprSyntax>>)
    requires
        grows(a, b),
        opt_expr_lowered(a, id, syntax),
    ensures
        opt_expr_lowered(b, id, syntax),
{
    if let Some(i) = id {
        assert(b.exprs@[i.0 as int] == a.exprs@[i.0 as int]);
    }
}

/// A pattern-lowering step is growth.
pub proof fn lemma_step_grows(
    old: BodyBuilder,
    new: BodyBuilder,
    old_ids: Seq<BindingId>,
    new_ids: Seq<BindingId>,
    scope: ScopeId,
    kind: BindingKind,
)
    requires
        lowering_step(old, new, old_ids, new_ids, scope, kind),
    ensures
        grows(old, new),
{
    assert forall|i: int| 0 <= i < old.bindings@.len() implies #[trigger] new.bindings@[i] == old.bindings@[i] by {
        assert(new.bindings@.take(old.bindings@.len() as int)[i] == new.bindings@[i]);
    }
    assert forall|i: int| 0 <= i < old.pats@.len() implies #[trigger] new.pats@[i] == old.pats@[i] by {
        assert(new.pats@.take(old.pats@.len() as int)[i] == new.pats@[i]);
    }
}

/// What growth keeps of the names of listed bindings.
pub proof fn lemma_listed_names_stable(a: Seq<BindingData>, b: Seq<BindingData>, ids: Seq<BindingId>)
    requires
        extends(a, b),
        forall|k: int| 0 <= k < ids.len() ==> (#[trigger] ids[k]).0 < a.len(),
    ensures
        listed_names(b, ids) == listed_names(a, ids),
    decreases ids.len(),
{
    if ids.len() > 0 {
        lemma_listed_names_stable(a, b, ids.drop_last());
        assert(ids[ids.len() - 1] == ids.last());
        assert(b[ids.last().0 as int] == a[ids.last().0 as int]);
    }
}

/// What growth keeps of a lowered pattern.
pub proof fn lemma_pat_lowered_stable(a: BodyBuilder, b: BodyBuilder, id: Option<PatId>, syntax: Option<PatSyntax>)
    requires
        grows(a, b),
        pat_lowered(a, id, syntax),
    ensures
        pat_lowered(b, id, syntax),
{
    if let Some(i) = id {
        assert(b.pats@[i.0 as int] == a.pats@[i.0 as int]);
    }
}

/// What growth keeps of lowered statement lists.
pub proof fn lemma_stmts_lowered_stable(a: BodyBuilder, b: BodyBuilder, ids: Seq<StmtId>, syntax: Seq<StmtSyntax>)
    requires
        grows(a, b),
        stmts_lowered(a, ids, syntax),
    ensures
        stmts_lowered(b, ids, syntax),
{
    assert forall|i: int| 0 <= i < ids.len() implies (#[trigger] ids[i]).0 < b.statements@.len()
        && b.statements@[ids[i].0 as int].source == syntax[i].source by {
        assert(b.statements@[ids[i].0 as int] == a.statements@[ids[i].0 as int]);
    }
}

/// What growth keeps of lowered arms.
pub proof fn lemma_arms_lowered_stable(a: BodyBuilder, b: BodyBuilder, arms: Seq<MatchArmData>, syntax: Seq<MatchArmSyntax>, parent: ScopeId)
    requires
        grows(a, b),
        arms_lowered(a, arms, syntax, parent),
    ensures
        arms_lowered(b, arms, syntax, parent),
{
    assert forall|i: int| 0 <= i < arms.len() implies child_scope(b, (#[trigger] arms[i]).scope, parent) && pat_lowered(
        b,
        arms[i].pat,
        syntax[i].pat,
    ) && opt_expr_lowered(b, arms[i].expr, syntax[i].expr) by {
        lemma_opt_expr_lowered_stable(a, b, arms[i].expr, syntax[i].expr);
        lemma_pat_lowered_stable(a, b, arms[i].pat, syntax[i].pat);
    }
}

/// Allocates an expression that sees every binding allocated so far.
fn alloc_expr(builder: &mut BodyBuilder, source: BodySource, scope: ScopeId, kind: ExprKind) -> (r: ExprId)
    requires
        old(builder).wf(),
    ensures
        grows(*old(builder), *final(builder)),
        r.0 + 1 == final(builder).exprs@.len(),
        final(builder).exprs@[r.0 as int].source == source,
        final(builder).exprs@[r.0 as int].scope == scope,
        final(builder).exprs@[r.0 as int].visible_bindings == old(builder).bindings@.len(),
        final(builder).exprs@[r.0 as int].kind == kind,
        final(builder).exprs@[r.0 as int].resolution is Unknown,
        final(builder).exprs@[r.0 as int].ty is Unknown,
        final(builder).bindings == old(builder).bindings,
        final(builder).scopes == old(builder).scopes,
{
    let visible_bindings = builder.bindings.len();
    builder.alloc_expr(
        ExprData { source, scope, visible_bindings, kind, resolution: BodyResolution::Unknown, ty: BodyTy::Unknown },
    )
}

/// Lowers expressions in order.
pub fn lower_exprs(builder: &mut BodyBuilder, exprs: Vec<ExprSyntax>, scope: ScopeId) -> (r: Vec<ExprId>)
    requires
        old(builder).wf(),
        scope.0 < old(builder).scopes@.len(),
    ensures
        scopes_kept(*old(builder), *final(builder)),
        grows(*old(builder), *final(builder)),
        exprs_lowered(*final(builder), r@, exprs@),
    decreases exprs,
{
    let ghost all = exprs@;
    let ghost b0 = *builder;
    let mut rest = exprs;
    let mut out: Vec<ExprId> = Vec::new();
    proof {
        lemma_grows_refl(b0);
    }
    while rest.len() > 0
        invariant
            grows(b0, *builder),
            scopes_kept(b0, *builder),
            scope.0 < b0.scopes@.len(),
            out@.len() + rest@.len() == all.len(),
            rest@ == all.subrange(out@.len() as int, all.len() as int),
            exprs_lowered(*builder, out@, all.subrange(0, out@.len() as int)),
            all == exprs@,
        decreases rest.len(),
    {
        let ghost k = out@.len() as int;
        let ghost before = *builder;
        let child = rest.remove(0);
        proof {
            assert(child == all[k]);
            assert(decreases_to!(exprs => exprs@));
            assert(decreases_to!(exprs@ => exprs@[k]));
        }
        let id = lower_expr(builder, child, scope);
        proof {
            lemma_grows_trans(b0, before, *builder);
            lemma_exprs_lowered_stable(before, *builder, out@, all.subrange(0, k));
        }
        out.push(id);
        proof {
            assert(all.subrange(0, k + 1) =~= all.subrange(0, k).push(all[k]));
            assert(rest@ =~= all.subrange(k + 1, all.len() as int));
            assert forall|i: int| 0 <= i < out@.len() implies #[trigger] expr_lowered(*builder, out@[i], all.subrange(0, k + 1)[i]) by {
                if i < k {
                    assert(expr_lowered(*builder, out@[i], all.subrange(0, k)[i]));
                }
            }
        }
    }
    proof {
        assert(all.subrange(0, out@.len() as int) =~= all);
    }
    out
}

/// Lowers an optional expression.
fn lower_opt_expr(builder: &mut BodyBuilder, expr: Option<Box<ExprSyntax>>, scope: ScopeId) -> (r: Option<ExprId>)
    requires
        old(builder).wf(),
        scope.0 < old(builder).scopes@.len(),
    ensures
        scopes_kept(*old(builder), *final(builder)),
        grows(*old(builder), *final(builder)),
        opt_expr_lowered(*final(builder), r, expr),
    decreases expr,
{
    match expr {
        Some(e) => {
            proof {
                assert(decreases_to!(expr => expr->0));
            }
            let id = lower_expr(builder, *e, scope);
            Some(id)
        },
        None => {
            proof {
                lemma_grows_refl(*builder);
            }
            None
        },
    }
}

/// Lowers one expression, its children first; the expression itself is the last one
/// allocated and sees every binding allocated before it.
pub fn lower_expr(builder: &mut BodyBuilder, expr: ExprSyntax, scope: ScopeId) -> (r: ExprId)
    requires
        old(builder).wf(),
        scope.0 < old(builder).scopes@.len(),
    ensures
        scopes_kept(*old(builder), *final(builder)),
        grows(*old(builder), *final(builder)),
        r.0 + 1 == final(builder).exprs@.len(),
        expr_lowered_from(*final(builder), final(builder).exprs@[r.0 as int], expr, scope),
        final(builder).exprs@[r.0 as int].visible_bindings == final(builder).bindings@.len(),
    decreases expr,
{
    let ghost e0 = expr;
    let ghost b0 = *builder;
    let ExprSyntax { source, text, kind } = expr;
    match kind {
        ExprSyntaxKind::Block(block) => {
            proof {
                assert(decreases_to!(e0 => e0.kind));
                assert(decreases_to!(e0.kind => e0.kind->Block_0));
            }
            lower_block_expr(builder, source, block, scope)
        },
        ExprSyntaxKind::Match { scrutinee, arms } => {
            proof {
                assert(decreases_to!(e0 => e0.kind));
                assert(decreases_to!(e0.kind => e0.kind->Match_scrutinee));
                assert(decreases_to!(e0.kind => e0.kind->Match_arms));
            }
            let scrutinee = lower_opt_expr(builder, scrutinee, scope);
            let ghost b1 = *builder;
            let arms = lower_match_arms(builder, arms, scope);
            let ghost b2 = *builder;
            let id = alloc_expr(builder, source, scope, ExprKind::Match { scrutinee, arms });
            proof {
                lemma_grows_trans(b0, b1, b2);
                lemma_grows_trans(b0, b2, *builder);
                lemma_grows_trans(b1, b2, *builder);
                lemma_opt_expr_lowered_stable(b1, *builder, scrutinee, e0.kind->Match_scrutinee);
                lemma_arms_lowered_stable(b2, *builder, arms@, e0.kind->Match_arms@, scope);
            }
            id
        },
        ExprSyntaxKind::Call { callee, args } => {
            proof {
                assert(decreases_to!(e0 => e0.kind));
                assert(decreases_to!(e0.kind => e0.kind->Call_callee));
                assert(decreases_to!(e0.kind => e0.kind->Call_args));
            }
            let callee = lower_opt_expr(builder, callee, scope);
            let ghost b1 = *builder;
            let args = lower_exprs(builder, args, scope);
            let ghost b2 = *builder;
            let id = alloc_expr(builder, source, scope, ExprKind::Call { callee, args });
            proof {
                lemma_grows_trans(b0, b1, b2);
                lemma_grows_trans(b0, b2, *builder);
                lemma_grows_trans(b1, b2, *builder);
                lemma_opt_expr_lowered_stable(b1, *builder, callee, e0.kind->Call_callee);
                lemma_exprs_lowered_stable(b2, *builder, args@, e0.kind->Call_args@);
            }
            id
        },
        ExprSyntaxKind::Field { base, dot_span, field, field_span } => {
            proof {
                assert(decreases_to!(e0 => e0.kind));
                assert(decreases_to!(e0.kind => e0.kind->Field_base));
            }
            let base = lower_opt_expr(builder, base, scope);
            let ghost b1 = *builder;
            let id = alloc_expr(builder, source, scope, ExprKind::Field { base, dot_span, field, field_span });
            proof {
                lemma_grows_trans(b0, b1, *builder);
                lemma_opt_expr_lowered_stable(b1, *builder, base, e0.kind->Field_base);
            }
            id
        },
        ExprSyntaxKind::Literal => {
            let literal_kind = LiteralKind::from_text(text.as_str());
            let id = alloc_expr(builder, source, scope, ExprKind::Literal { text, kind: literal_kind });
            id
        },
        ExprSyntaxKind::MethodCall { receiver, dot_span, name, args } => {
            proof {
                assert(decreases_to!(e0 => e0.kind));
                assert(decreases_to!(e0.kind => e0.kind->MethodCall_receiver));
                assert(decreases_to!(e0.kind => e0.kind->MethodCall_args));
            }
            let receiver = lower_opt_expr(builder, receiver, scope);
            let ghost b1 = *builder;
            let (method_name, method_name_span) = match name {
                Some(n) => (n.text, Some(n.source.span)),
                None => {
                    let missing = String::from_str("<missing>");
                    proof {
                        reveal_strlit("<missing>");
                    }
                    (missing, None)
                },
            };
            let args = lower_exprs(builder, args, scope);
            let ghost b2 = *builder;
            let id = alloc_expr(
                builder,
                source,
                scope,
                ExprKind::MethodCall { receiver, dot_span, method_name, method_name_span, args },
            );
            proof {
                lemma_grows_trans(b0, b1, b2);
                lemma_grows_trans(b0, b2, *builder);
                lemma_grows_trans(b1, b2, *builder);
                lemma_opt_expr_lowered_stable(b1, *builder, receiver, e0.kind->MethodCall_receiver);
                lemma_exprs_lowered_stable(b2, *builder, args@, e0.kind->MethodCall_args@);
            }
            id
        },
        ExprSyntaxKind::Path { path } => match path {
            Some(p) => alloc_expr(builder, source, scope, ExprKind::Path { path: p }),
            None => alloc_expr(builder, source, scope, ExprKind::Unknown { text, children: Vec::new() }),
        },
        ExprSyntaxKind::Other { children } => {
            proof {
                assert(decreases_to!(e0 => e0.kind));
                assert(decreases_to!(e0.kind => e0.kind->Other_children));
            }
            let children = lower_exprs(builder, children, scope);
            let ghost b1 = *builder;
            let id = alloc_expr(builder, source, scope, ExprKind::Unknown { text, children });
            proof {
                lemma_grows_trans(b0, b1, *builder);
                lemma_exprs_lowered_stable(b1, *builder, children@, e0.kind->Other_children@);
            }
            id
        },
    }
}

/// Lowers a block in a new scope nested in `parent_scope`: its statements in order, then its
/// tail, then the block expression itself.
pub fn lower_block_expr(builder: &mut BodyBuilder, source: BodySource, block: BlockSyntax, parent_scope: ScopeId) -> (r: ExprId)
    requires
        old(builder).wf(),
        parent_scope.0 < old(builder).scopes@.len(),
    ensures
        scopes_kept(*old(builder), *final(builder)),
        grows(*old(builder), *final(builder)),
        r.0 + 1 == final(builder).exprs@.len(),
        final(builder).exprs@[r.0 as int].source == source,
        final(builder).exprs@[r.0 as int].resolution is Unknown,
        final(builder).exprs@[r.0 as int].ty is Unknown,
        block_lowered_from(*final(builder), final(builder).exprs@[r.0 as int], block, parent_scope),
        final(builder).exprs@[r.0 as int].visible_bindings == final(builder).bindings@.len(),
    decreases block,
{
    let ghost blk = block;
    let ghost b0 = *builder;
    let block_scope = builder.alloc_scope(Some(parent_scope));
    let ghost b1 = *builder;
    proof {
        assert forall|s: int| 0 <= s < b0.scopes@.len() implies (#[trigger] b1.scopes@[s]).parent == b0.scopes@[s].parent by {
            assert(b1.scopes@.drop_last()[s] == b1.scopes@[s]);
        }
        assert(grows(b0, b1));
    }
    let BlockSyntax { statements, tail } = block;
    let ghost all = statements@;
    let mut rest = statements;
    let mut ids: Vec<StmtId> = Vec::new();
    while rest.len() > 0
        invariant
            grows(b0, *builder),
            grows(b1, *builder),
            scopes_kept(b0, *builder),
            block_scope.0 == b0.scopes@.len(),
            child_scope(*builder, block_scope, parent_scope),
            block_scope.0 < builder.scopes@.len(),
            ids@.len() + rest@.len() == all.len(),
            rest@ == all.subrange(ids@.len() as int, all.len() as int),
            stmts_lowered(*builder, ids@, all.subrange(0, ids@.len() as int)),
            all == blk.statements@,
            blk == block,
        decreases rest.len(),
    {
        let ghost k = ids@.len() as int;
        let ghost before = *builder;
        let statement = rest.remove(0);
        proof {
            assert(statement == all[k]);
            assert(decreases_to!(blk => blk.statements));
            assert(decreases_to!(blk.statements => blk.statements@));
            assert(decreases_to!(blk.statements@ => blk.statements@[k]));
        }
        let id = lower_statement(builder, statement, block_scope);
        proof {
            lemma_grows_trans(b0, before, *builder);
            lemma_grows_trans(b1, before, *builder);
            lemma_stmts_lowered_stable(before, *builder, ids@, all.subrange(0, k));
        }
        ids.push(id);
        proof {
            assert(all.subrange(0, k + 1) =~= all.subrange(0, k).push(all[k]));
            assert(rest@ =~= all.subrange(k + 1, all.len() as int));
            assert forall|i: int| 0 <= i < ids@.len() implies (#[trigger] ids@[i]).0 < builder.statements@.len()
                && builder.statements@[ids@[i].0 as int].source == all.subrange(0, k + 1)[i].source by {
                if i < k {
                    assert(all.subrange(0, k)[i] == all.subrange(0, k + 1)[i]);
                }
            }
        }
    }
    proof {
        assert(all.subrange(0, ids@.len() as int) =~= all);
        assert(decreases_to!(blk => blk.tail));
    }
    let ghost b2 = *builder;
    let tail = lower_opt_expr(builder, tail, block_scope);
    let ghost b3 = *builder;
    let id = alloc_expr(builder, source, block_scope, ExprKind::Block { scope: block_scope, statements: ids, tail });
    proof {
        lemma_grows_trans(b2, b3, *builder);
        lemma_grows_trans(b0, b2, *builder);
        lemma_stmts_lowered_stable(b2, *builder, ids@, blk.statements@);
        lemma_opt_expr_lowered_stable(b3, *builder, tail, blk.tail);
    }
    id
}

/// Lowers the arms of a `match` in order, each in a new scope nested in `scope`.
fn lower_match_arms(builder: &mut BodyBuilder, arms: Vec<MatchArmSyntax>, scope: ScopeId) -> (r: Vec<MatchArmData>)
    requires
        old(builder).wf(),
        scope.0 < old(builder).scopes@.len(),
    ensures
        scopes_kept(*old(builder), *final(builder)),
        grows(*old(builder), *final(builder)),
        arms_lowered(*final(builder), r@, arms@, scope),
    decreases arms,
{
    let ghost all = arms@;
    let ghost b0 = *builder;
    let mut rest = arms;
    let mut out: Vec<MatchArmData> = Vec::new();
    proof {
        lemma_grows_refl(b0);
    }
    while rest.len() > 0
        invariant
            grows(b0, *builder),
            scopes_kept(b0, *builder),
            scope.0 < b0.scopes@.len(),
            out@.len() + rest@.len() == all.len(),
            rest@ == all.subrange(out@.len() as int, all.len() as int),
            arms_lowered(*builder, out@, all.subrange(0, out@.len() as int), scope),
            all == arms@,
        decreases rest.len(),
    {
        let ghost k = out@.len() as int;
        let ghost before = *builder;
        let arm = rest.remove(0);
        proof {
            assert(arm == all[k]);
            assert(decreases_to!(arms => arms@));
            assert(decreases_to!(arms@ => arms@[k]));
        }
        let data = lower_match_arm(builder, arm, scope);
        proof {
            lemma_grows_trans(b0, before, *builder);
            lemma_arms_lowered_stable(before, *builder, out@, all.subrange(0, k), scope);
        }
        out.push(data);
        proof {
            assert(all.subrange(0, k + 1) =~= all.subrange(0, k).push(all[k]));
            assert(rest@ =~= all.subrange(k + 1, all.len() as int));
            assert forall|i: int| 0 <= i < out@.len() implies child_scope(*builder, (#[trigger] out@[i]).scope, scope)
                && pat_lowered(*builder, out@[i].pat, all.subrange(0, k + 1)[i].pat) && opt_expr_lowered(
                *builder,
                out@[i].expr,
                all.subrange(0, k + 1)[i].expr,
            ) by {
                if i < k {
                    assert(all.subrange(0, k)[i] == all.subrange(0, k + 1)[i]);
                }
            }
        }
    }
    proof {
        assert(all.subrange(0, out@.len() as int) =~= all);
    }
    out
}

/// Lowers one `match` arm in a new scope nested in `parent_scope`: its pattern binds there,
/// then its expression is lowered there.
pub fn lower_match_arm(builder: &mut BodyBuilder, arm: MatchArmSyntax, parent_scope: ScopeId) -> (r: MatchArmData)
    requires
        old(builder).wf(),
        parent_scope.0 < old(builder).scopes@.len(),
    ensures
        scopes_kept(*old(builder), *final(builder)),
        grows(*old(builder), *final(builder)),
        child_scope(*final(builder), r.scope, parent_scope),
        pat_lowered(*final(builder), r.pat, arm.pat),
        opt_expr_lowered(*final(builder), r.expr, arm.expr),
    decreases arm,
{
    let ghost a0 = arm;
    let ghost b0 = *builder;
    let scope = builder.alloc_scope(Some(parent_scope));
    let ghost b1 = *builder;
    proof {
        assert forall|s: int| 0 <= s < b0.scopes@.len() implies (#[trigger] b1.scopes@[s]).parent == b0.scopes@[s].parent by {
            assert(b1.scopes@.drop_last()[s] == b1.scopes@[s]);
        }
        assert(grows(b0, b1));
    }
    let MatchArmSyntax { pat, expr } = arm;
    let pat_id = match &pat {
        Some(p) => {
            let lowered = lower_pat(builder, p, scope, BindingKind::Let, None);
            proof {
                lemma_step_grows(b1, *builder, Seq::empty(), lowered.1@, scope, BindingKind::Let);
            }
            lowered.0
        },
        None => {
            proof {
                lemma_grows_refl(b1);
            }
            None
        },
    };
    let ghost b2 = *builder;
    proof {
        lemma_grows_trans(b0, b1, b2);
        assert(decreases_to!(a0 => a0.expr));
    }
    let expr = lower_opt_expr(builder, expr, scope);
    proof {
        lemma_grows_trans(b0, b2, *builder);
    }
    MatchArmData { pat: pat_id, scope, expr }
}

/// Lowers one statement in `scope`.
pub fn lower_statement(builder: &mut BodyBuilder, statement: StmtSyntax, scope: ScopeId) -> (r: StmtId)
    requires
        old(builder).wf(),
        scope.0 < old(builder).scopes@.len(),
    ensures
        scopes_kept_except(*old(builder), *final(builder), scope),
        grows(*old(builder), *final(builder)),
        r.0 + 1 == final(builder).statements@.len(),
        stmt_lowered_from(*final(builder), final(builder).statements@[r.0 as int], statement, scope),
    decreases statement,
{
    let ghost s0 = statement;
    let ghost b0 = *builder;
    let StmtSyntax { source, kind } = statement;
    match kind {
        StmtSyntaxKind::Let { pat, ty, initializer } => {
            proof {
                assert(decreases_to!(s0 => s0.kind));
                assert(decreases_to!(s0.kind => s0.kind->Let_initializer));
            }
            lower_let_statement(builder, source, pat, ty, initializer, scope)
        },
        StmtSyntaxKind::Expr { expr, has_semicolon } => {
            proof {
                assert(decreases_to!(s0 => s0.kind));
                assert(decreases_to!(s0.kind => s0.kind->Expr_expr));
            }
            let expr = lower_opt_expr(builder, expr, scope);
            let ghost b1 = *builder;
            let kind = match expr {
                Some(e) => StmtKind::Expr { expr: e, has_semicolon },
                None => StmtKind::ItemIgnored,
            };
            let id = builder.alloc_statement(StmtData { source, kind });
            proof {
                lemma_grows_trans(b0, b1, *builder);
                lemma_opt_expr_lowered_stable(b1, *builder, expr, s0.kind->Expr_expr);
            }
            id
        },
        StmtSyntaxKind::Struct { name, fields } => {
            let item = lower_local_struct_item(builder, source, name, fields, scope);
            let ghost b1 = *builder;
            let kind = match item {
                Some(item) => StmtKind::Item { item },
                None => StmtKind::ItemIgnored,
            };
            let id = builder.alloc_statement(StmtData { source, kind });
            proof {
                lemma_grows_trans(b0, b1, *builder);
                if let Some(i) = item {
                    assert(builder.local_items@[i.0 as int] == b1.local_items@[i.0 as int]);
                }
            }
            id
        },
        StmtSyntaxKind::Impl { trait_ref, self_ty, items } => {
            let impl_id = lower_local_impl_item(builder, source, trait_ref, self_ty, items, scope);
            let ghost b1 = *builder;
            let id = builder.alloc_statement(StmtData { source, kind: StmtKind::Impl { impl_id } });
            proof {
                lemma_grows_trans(b0, b1, *builder);
            }
            id
        },
        StmtSyntaxKind::OtherItem => {
            let id = builder.alloc_statement(StmtData { source, kind: StmtKind::ItemIgnored });
            id
        },
    }
}

/// No expression allocated from `old` to `new` sees a binding of the `let` statement `stmt`.
pub open spec fn let_bindings_hidden(old: BodyBuilder, new: BodyBuilder, stmt: StmtData) -> bool {
    forall|e: int, k: int|
        old.exprs@.len() <= e < new.exprs@.len() && 0 <= k < stmt.kind->Let_bindings@.len()
            ==> (#[trigger] new.exprs@[e]).visible_bindings <= (#[trigger] stmt.kind->Let_bindings@[k]).0
}

/// A `let` initializer cannot see the bindings its own `let` introduces: name lookup from any
/// expression of the statement, in the finished body, never finds one of them.
pub proof fn lemma_let_initializer_cannot_see_own_bindings(
    old: BodyBuilder,
    new: BodyBuilder,
    stmt: StmtData,
    body: BodyData,
    e: int,
    k: int,
    name: Seq<char>,
)
    requires
        let_bindings_hidden(old, new, stmt),
        grows(new, builder_of(body)),
        old.exprs@.len() <= e < new.exprs@.len(),
        0 <= k < stmt.kind->Let_bindings@.len(),
    ensures
        crate::body_resolve::lookup_local_name(body, body.exprs@[e].scope, name, body.exprs@[e].visible_bindings as nat)
            != Some(stmt.kind->Let_bindings@[k]),
{
    assert(body.exprs@[e] == new.exprs@[e]);
    crate::body_resolve::lemma_local_name_found(body, body.exprs@[e].scope, name, body.exprs@[e].visible_bindings as nat);
    assert(new.exprs@[e].visible_bindings <= stmt.kind->Let_bindings@[k].0);
}

/// Lowers a `let` statement in `scope`. The initializer is lowered before the pattern, so no
/// expression of the statement sees the bindings it introduces.
pub fn lower_let_statement(
    builder: &mut BodyBuilder,
    source: BodySource,
    pat: Option<PatSyntax>,
    ty: Option<TypeRef>,
    initializer: Option<Box<ExprSyntax>>,
    scope: ScopeId,
) -> (r: StmtId)
    requires
        old(builder).wf(),
        scope.0 < old(builder).scopes@.len(),
    ensures
        scopes_kept_except(*old(builder), *final(builder), scope),
        grows(*old(builder), *final(builder)),
        r.0 + 1 == final(builder).statements@.len(),
        stmt_lowered_from(
            *final(builder),
            final(builder).statements@[r.0 as int],
            StmtSyntax { source, kind: StmtSyntaxKind::Let { pat, ty, initializer } },
            scope,
        ),
        let_bindings_hidden(*old(builder), *final(builder), final(builder).statements@[r.0 as int]),
    decreases initializer,
{
    let ghost b0 = *builder;
    let ghost init0 = initializer;
    let initializer_id = match initializer {
        Some(e) => {
            proof {
                assert(decreases_to!(init0 => init0->0));
            }
            Some(lower_expr(builder, *e, scope))
        },
        None => {
            proof {
                lemma_grows_refl(b0);
            }
            None
        },
    };
    let ghost b1 = *builder;
    let annotation_copy = match &ty {
        Some(t) => Some(t.duplicate()),
        None => None,
    };
    let (pat_id, bindings) = match &pat {
        Some(p) => {
            let lowered = lower_pat(builder, p, scope, BindingKind::Let, annotation_copy);
            proof {
                lemma_step_grows(b1, *builder, Seq::empty(), lowered.1@, scope, BindingKind::Let);
            }
            lowered
        },
        None => {
            proof {
                lemma_grows_refl(b1);
                assert(listed_names(b1.bindings@, Seq::<BindingId>::empty()) =~= Seq::<Seq<char>>::empty());
            }
            (None, Vec::new())
        },
    };
    let ghost b2 = *builder;
    let binding_count = builder.bindings.len();
    proof {
        if pat is Some {
            assert forall|k: int| 0 <= k < bindings@.len() implies b1.bindings@.len() <= (#[trigger] bindings@[k]).0 < b2.bindings@.len()
                && b2.bindings@[bindings@[k].0 as int].scope == scope && b2.bindings@[bindings@[k].0 as int].kind == BindingKind::Let by {
                assert(bindings@ == Seq::<BindingId>::empty() + Seq::new(
                    (b2.bindings@.len() - b1.bindings@.len()) as nat,
                    |j: int| BindingId((b1.bindings@.len() + j) as usize),
                ));
                assert(bindings@[k] == BindingId((b1.bindings@.len() + k) as usize));
            }
        }
    }
    let id = builder.alloc_statement(
        StmtData {
            source,
            kind: StmtKind::Let { scope, pat: pat_id, bindings, annotation: ty, initializer: initializer_id },
        },
    );
    proof {
        lemma_grows_trans(b0, b1, b2);
        lemma_grows_trans(b0, b2, *builder);
        lemma_grows_trans(b1, b2, *builder);
        lemma_opt_expr_lowered_stable(b1, *builder, initializer_id, init0);
        let st = builder.statements@[id.0 as int];
        assert(st.kind->Let_bindings == bindings);
        assert forall|e: int, k: int|
            b0.exprs@.len() <= e < builder.exprs@.len() && 0 <= k < st.kind->Let_bindings@.len() implies (#[trigger] builder.exprs@[e]).visible_bindings
                <= (#[trigger] st.kind->Let_bindings@[k]).0 by {
            assert(builder.exprs@[e] == b1.exprs@[e]);
            assert(st.kind->Let_bindings@[k] == bindings@[k]);
        }
    }
    id
}

/// Lowers a struct declared in a body into a local item of `scope`; one without a name is
/// left out.
pub fn lower_local_struct_item(
    builder: &mut BodyBuilder,
    source: BodySource,
    name: Option<NameSyntax>,
    fields: FieldList,
    scope: ScopeId,
) -> (r: Option<BodyItemId>)
    requires
        old(builder).wf(),
        scope.0 < old(builder).scopes@.len(),
    ensures
        scopes_kept_except(*old(builder), *final(builder), scope),
        grows(*old(builder), *final(builder)),
        match name {
            Some(n) => r matches Some(item) && item.0 + 1 == final(builder).local_items@.len()
                && final(builder).local_items@[item.0 as int] == (BodyItemData {
                source,
                name_source: n.source,
                scope,
                kind: BodyItemKind::Struct,
                name: n.text,
                fields,
            }),
            None => r is None && *final(builder) == *old(builder),
        },
{
    match name {
        Some(n) => {
            let ghost b0 = *builder;
            let item = builder.alloc_local_item(
                BodyItemData { source, name_source: n.source, scope, kind: BodyItemKind::Struct, name: n.text, fields },
            );
            proof {
                assert forall|s: int| 0 <= s < b0.scopes@.len() implies (#[trigger] builder.scopes@[s]).parent == b0.scopes@[s].parent by {
                    if s != scope.0 {
                        assert(builder.scopes@[s] == b0.scopes@[s]);
                    }
                }
            }
            Some(item)
        },
        None => {
            proof {
                lemma_grows_refl(*builder);
            }
            None
        },
    }
}

/// Lowers an impl declared in a body into a local impl of `scope`, with a local function for
/// every named associated function, in order.
pub fn lower_local_impl_item(
    builder: &mut BodyBuilder,
    source: BodySource,
    trait_ref: Option<TypeRef>,
    self_ty: TypeRef,
    items: Vec<AssocItemSyntax>,
    scope: ScopeId,
) -> (r: BodyImplId)
    requires
        old(builder).wf(),
        scope.0 < old(builder).scopes@.len(),
    ensures
        scopes_kept_except(*old(builder), *final(builder), scope),
        grows(*old(builder), *final(builder)),
        impl_lowered(*final(builder), r, source, scope, trait_ref, self_ty, items@),
{
    let ghost b0 = *builder;
    let ghost all = items@;
    let impl_id = builder.alloc_local_impl(
        BodyImplData { source, scope, trait_ref, self_ty, self_item: None, functions: Vec::new() },
    );
    let ghost b1 = *builder;
    proof {
        assert forall|s: int| 0 <= s < b0.scopes@.len() implies (#[trigger] b1.scopes@[s]).parent == b0.scopes@[s].parent by {
            if s != scope.0 {
                assert(b1.scopes@[s] == b0.scopes@[s]);
            }
        }
        assert(grows(b0, b1));
    }
    let mut rest = items;
    let mut functions: Vec<BodyFunctionId> = Vec::new();
    let ghost mut k: int = 0;
    while rest.len() > 0
        invariant
            grows(b1, *builder),
            scopes_kept_except(b0, *builder, scope),
            impl_id.0 < b1.local_impls@.len(),
            builder.local_impls == b1.local_impls,
            builder.scopes == b1.scopes,
            builder.bindings == b1.bindings,
            builder.exprs == b1.exprs,
            0 <= k <= all.len(),
            k + rest@.len() == all.len(),
            rest@ == all.subrange(k, all.len() as int),
            functions@.len() == named_fns(all.subrange(0, k)).len(),
            forall|j: int|
                0 <= j < functions@.len() ==> (#[trigger] functions@[j]).0 < builder.local_functions@.len()
                    && builder.local_functions@[functions@[j].0 as int] == fn_data_of(named_fns(all.subrange(0, k))[j], impl_id),
        decreases rest.len(),
    {
        let ghost before = *builder;
        let item = rest.remove(0);
        proof {
            assert(item == all[k]);
        }
        let function = lower_local_assoc_function(builder, item, impl_id);
        proof {
            assert(all.subrange(0, k + 1).drop_last() =~= all.subrange(0, k));
            assert(all.subrange(0, k + 1).last() == all[k]);
            assert(rest@ =~= all.subrange(k + 1, all.len() as int));
            assert forall|s: int| 0 <= s < b1.scopes@.len() implies (#[trigger] builder.scopes@[s]).parent == b1.scopes@[s].parent by {}
        }
        match function {
            Some(f) => {
                functions.push(f);
                proof {
                    assert forall|j: int| 0 <= j < functions@.len() implies (#[trigger] functions@[j]).0 < builder.local_functions@.len()
                        && builder.local_functions@[functions@[j].0 as int] == fn_data_of(named_fns(all.subrange(0, k + 1))[j], impl_id) by {
                        if j < functions@.len() - 1 {
                            assert(builder.local_functions@[functions@[j].0 as int] == before.local_functions@[functions@[j].0 as int]);
                        }
                    }
                }
            },
            None => {
                proof {
                    assert(*builder == before);
                }
            },
        }
        proof {
            k = k + 1;
        }
    }
    let ghost b2 = *builder;
    proof {
        assert(all.subrange(0, k) =~= all);
    }
    builder.set_local_impl_functions(impl_id, functions);
    proof {
        lemma_grows_trans(b0, b1, b2);
        assert forall|i: int| 0 <= i < b0.local_impls@.len() implies #[trigger] builder.local_impls@[i] == b0.local_impls@[i] by {
            assert(b2.local_impls@[i] == b1.local_impls@[i]);
        }
        assert(extends(b0.local_impls@, builder.local_impls@));
    }
    impl_id
}

/// Lowers one item of a body-local impl: a named function becomes a local function of the impl;
/// anything else is left out.
pub fn lower_local_assoc_function(builder: &mut BodyBuilder, item: AssocItemSyntax, impl_id: BodyImplId) -> (r: Option<BodyFunctionId>)
    requires
        old(builder).wf(),
    ensures
        match item {
            AssocItemSyntax::Fn { name: Some(_), .. } => r matches Some(f) && f.0 == old(builder).local_functions@.len()
                && final(builder).local_functions@ == old(builder).local_functions@.push(fn_data_of(item, impl_id))
                && final(builder).scopes == old(builder).scopes && final(builder).bindings == old(builder).bindings
                && final(builder).local_items == old(builder).local_items && final(builder).local_impls == old(builder).local_impls
                && final(builder).pats == old(builder).pats && final(builder).statements == old(builder).statements
                && final(builder).exprs == old(builder).exprs,
            _ => r is None && *final(builder) == *old(builder),
        },
{
    match item {
        AssocItemSyntax::Fn { source, name, declaration } => match name {
            Some(n) => {
                let f = builder.alloc_local_function(
                    BodyFunctionData {
                        source,
                        name_source: n.source,
                        owner: BodyFunctionOwner::LocalImpl(impl_id),
                        name: n.text,
                        declaration,
                    },
                );
                Some(f)
            },
            None => None,
        },
        AssocItemSyntax::Other => None,
    }
}

/// The names the first `n` parameters bind: those of each pattern, each once per parameter.
pub open spec fn params_names(params: Seq<ParamSyntax>, n: int) -> Seq<Seq<char>>
    decreases n,
{
    if n <= 0 || n > params.len() {
        Seq::empty()
    } else {
        params_names(params, n - 1) + match params[n - 1].pat {
            Some(p) => fresh_names(Seq::empty(), pat_names(p)),
            None => Seq::empty(),
        }
    }
}

/// The names a parameter list binds, in order: `self` first when there is a `self` parameter.
pub open spec fn param_list_names(list: Option<ParamListSyntax>) -> Seq<Seq<char>> {
    match list {
        Some(l) => (if l.self_param is Some {
            seq!["self"@]
        } else {
            Seq::empty()
        }) + params_names(l.params@, l.params@.len() as int),
        None => Seq::empty(),
    }
}

/// Every listed binding exists, is declared in `scope` and is a parameter.
pub open spec fn param_bindings(b: BodyBuilder, ids: Seq<BindingId>, scope: ScopeId) -> bool {
    forall|k: int|
        0 <= k < ids.len() ==> (#[trigger] ids[k]).0 < b.bindings@.len() && b.bindings@[ids[k].0 as int].scope == scope
            && (b.bindings@[ids[k].0 as int].kind == BindingKind::Param || b.bindings@[ids[k].0 as int].kind
            == BindingKind::SelfParam)
}

/// The names of two lists of bindings, one after the other.
pub proof fn lemma_listed_names_concat(bindings: Seq<BindingData>, a: Seq<BindingId>, b: Seq<BindingId>)
    ensures
        listed_names(bindings, a + b) == listed_names(bindings, a) + listed_names(bindings, b),
    decreases b.len(),
{
    if b.len() == 0 {
        assert(a + b =~= a);
        assert(listed_names(bindings, a) + Seq::<Seq<char>>::empty() =~= listed_names(bindings, a));
    } else {
        lemma_listed_names_concat(bindings, a, b.drop_last());
        assert((a + b).drop_last() =~= a + b.drop_last());
        assert((a + b).last() == b.last());
        let before = listed_names(bindings, a);
        let mid = listed_names(bindings, b.drop_last());
        assert((before + mid).push(bindings[b.last().0 as int].name->0@) =~= before + mid.push(bindings[b.last().0 as int].name->0@));
    }
}

/// Lowers a `self` parameter into a binding named `self` in `scope`.
pub fn lower_self_param(builder: &mut BodyBuilder, param: SelfParamSyntax, scope: ScopeId) -> (r: BindingId)
    requires
        old(builder).wf(),
        scope.0 < old(builder).scopes@.len(),
    ensures
        grows(*old(builder), *final(builder)),
        r.0 == old(builder).bindings@.len(),
        final(builder).bindings@ == old(builder).bindings@.push(
            BindingData {
                source: param.source,
                scope,
                kind: BindingKind::SelfParam,
                name: final(builder).bindings@[r.0 as int].name,
                pat: param.text,
                annotation: param.ty,
                ty: BodyTy::Unknown,
            },
        ),
        final(builder).bindings@[r.0 as int].name matches Some(n) && n@ == "self"@,
        final(builder).exprs == old(builder).exprs,
{
    let ghost b0 = *builder;
    let name = String::from_str("self");
    proof {
        reveal_strlit("self");
    }
    let SelfParamSyntax { source, text, ty } = param;
    let id = builder.alloc_binding(
        BindingData { source, scope, kind: BindingKind::SelfParam, name: Some(name), pat: text, annotation: ty, ty: BodyTy::Unknown },
    );
    proof {
        assert forall|s: int| 0 <= s < b0.scopes@.len() implies (#[trigger] builder.scopes@[s]).parent == b0.scopes@[s].parent by {
            if s != scope.0 {
                assert(builder.scopes@[s] == b0.scopes@[s]);
            }
        }
        assert forall|i: int| 0 <= i < b0.bindings@.len() implies #[trigger] builder.bindings@[i] == b0.bindings@[i] by {
            assert(builder.bindings@[i] == b0.bindings@.push(builder.bindings@.last())[i]);
        }
    }
    id
}

/// Lowers an ordinary parameter: the bindings of its pattern, or one nameless binding when the
/// pattern is missing.
pub fn lower_param(builder: &mut BodyBuilder, param: ParamSyntax, scope: ScopeId) -> (r: Vec<BindingId>)
    requires
        old(builder).wf(),
        scope.0 < old(builder).scopes@.len(),
    ensures
        grows(*old(builder), *final(builder)),
        final(builder).exprs == old(builder).exprs,
        param_bindings(*final(builder), r@, scope),
        forall|k: int| 0 <= k < r@.len() ==> old(builder).bindings@.len() <= (#[trigger] r@[k]).0,
        listed_names(final(builder).bindings@, r@) == match param.pat {
            Some(p) => fresh_names(Seq::empty(), pat_names(p)),
            None => Seq::empty(),
        },
        param.pat is None ==> r@.len() == 1 && final(builder).bindings@[r@[0].0 as int].name is None,
{
    let ghost b0 = *builder;
    let count = builder.bindings.len();
    let ParamSyntax { source, pat, ty } = param;
    match pat {
        Some(p) => {
            let lowered = lower_pat(builder, &p, scope, BindingKind::Param, ty);
            let bound = builder.bindings.len();
            proof {
                lemma_step_grows(b0, *builder, Seq::empty(), lowered.1@, scope, BindingKind::Param);
                assert forall|k: int| 0 <= k < lowered.1@.len() implies b0.bindings@.len() <= (#[trigger] lowered.1@[k]).0
                    && lowered.1@[k].0 < builder.bindings@.len() && builder.bindings@[lowered.1@[k].0 as int].scope == scope
                    && builder.bindings@[lowered.1@[k].0 as int].kind == BindingKind::Param by {
                    assert(lowered.1@[k] == BindingId((b0.bindings@.len() + k) as usize));
                }
            }
            lowered.1
        },
        None => {
            let missing = String::from_str("<missing>");
            let id = builder.alloc_binding(
                BindingData { source, scope, kind: BindingKind::Param, name: None, pat: missing, annotation: ty, ty: BodyTy::Unknown },
            );
            let mut ids: Vec<BindingId> = Vec::new();
            ids.push(id);
            proof {
                assert forall|s: int| 0 <= s < b0.scopes@.len() implies (#[trigger] builder.scopes@[s]).parent == b0.scopes@[s].parent by {
                    if s != scope.0 {
                        assert(builder.scopes@[s] == b0.scopes@[s]);
                    }
                }
                assert forall|i: int| 0 <= i < b0.bindings@.len() implies #[trigger] builder.bindings@[i] == b0.bindings@[i] by {
                    assert(builder.bindings@[i] == b0.bindings@.push(builder.bindings@.last())[i]);
                }
                assert(ids@.drop_last() =~= Seq::<BindingId>::empty());
                assert(listed_names(builder.bindings@, ids@.drop_last()) =~= Seq::<Seq<char>>::empty());
                assert(ids@.last() == id);
                assert(builder.bindings@[id.0 as int].name is None);
            }
            ids
        },
    }
}

/// Lowers a parameter list into bindings of `scope`: the `self` parameter first, then every
/// parameter in order.
pub fn lower_params(builder: &mut BodyBuilder, list: Option<ParamListSyntax>, scope: ScopeId) -> (r: Vec<BindingId>)
    requires
        old(builder).wf(),
        scope.0 < old(builder).scopes@.len(),
    ensures
        grows(*old(builder), *final(builder)),
        final(builder).exprs == old(builder).exprs,
        param_bindings(*final(builder), r@, scope),
        listed_names(final(builder).bindings@, r@) == param_list_names(list),
{
    let ghost b0 = *builder;
    let ghost l0 = list;
    let mut out: Vec<BindingId> = Vec::new();
    match list {
        None => {
            proof {
                lemma_grows_refl(b0);
            }
            out
        },
        Some(ParamListSyntax { self_param, params }) => {
            match self_param {
                Some(sp) => {
                    let id = lower_self_param(builder, sp, scope);
                    out.push(id);
                    proof {
                        assert(out@.drop_last() =~= Seq::<BindingId>::empty());
                        assert(listed_names(builder.bindings@, out@.drop_last()) =~= Seq::<Seq<char>>::empty());
                        assert(out@.last() == id);
                        let n = builder.bindings@[id.0 as int].name->0;
                        assert(Seq::<Seq<char>>::empty().push(n@) =~= seq!["self"@]);
                        assert(listed_names(builder.bindings@, out@) =~= seq!["self"@]);
                    }
                },
                None => {
                    proof {
                        lemma_grows_refl(b0);
                    }
                },
            }
            let ghost b1 = *builder;
            let ghost all = params@;
            let ghost head = listed_names(b1.bindings@, out@);
            proof {
                assert(head == (if l0->0.self_param is Some {
                    seq!["self"@]
                } else {
                    Seq::<Seq<char>>::empty()
                }));
            }
            let mut rest = params;
            let ghost mut k: int = 0;
            while rest.len() > 0
                invariant
                    grows(b0, *builder),
                    grows(b1, *builder),
                    builder.exprs == b0.exprs,
                    scope.0 < b0.scopes@.len(),
                    0 <= k <= all.len(),
                    k + rest@.len() == all.len(),
                    rest@ == all.subrange(k, all.len() as int),
                    param_bindings(*builder, out@, scope),
                    listed_names(builder.bindings@, out@) == head + params_names(all, k),
                decreases rest.len(),
            {
                let ghost before = *builder;
                let ghost before_out = out@;
                let param = rest.remove(0);
                proof {
                    assert(param == all[k]);
                }
                let ids = lower_param(builder, param, scope);
                proof {
                    lemma_grows_trans(b0, before, *builder);
                    lemma_grows_trans(b1, before, *builder);
                    lemma_listed_names_stable(before.bindings@, builder.bindings@, before_out);
                }
                out.append(&mut ids.clone());
                proof {
                    assert(out@ =~= before_out + ids@);
                    lemma_listed_names_concat(builder.bindings@, before_out, ids@);
                    assert(params_names(all, k + 1) == params_names(all, k) + match all[k].pat {
                        Some(p) => fresh_names(Seq::empty(), pat_names(p)),
                        None => Seq::<Seq<char>>::empty(),
                    });
                    assert(head + params_names(all, k + 1) =~= head + params_names(all, k) + listed_names(builder.bindings@, ids@));
                    assert forall|j: int| 0 <= j < out@.len() implies (#[trigger] out@[j]).0 < builder.bindings@.len()
                        && builder.bindings@[out@[j].0 as int].scope == scope && (builder.bindings@[out@[j].0 as int].kind
                        == BindingKind::Param || builder.bindings@[out@[j].0 as int].kind == BindingKind::SelfParam) by {
                        if j < before_out.len() {
                            assert(out@[j] == before_out[j]);
                            assert(builder.bindings@[out@[j].0 as int] == before.bindings@[out@[j].0 as int]);
                        } else {
                            assert(out@[j] == ids@[j - before_out.len()]);
                        }
                    }
                    assert(rest@ =~= all.subrange(k + 1, all.len() as int));
                    k = k + 1;
                }
            }
            out
        },
    }
}

/// Repackages a body's arenas as the builder that allocated them.
pub open spec fn builder_of(body: BodyData) -> BodyBuilder {
    BodyBuilder {
        scopes: body.scopes,
        local_items: body.local_items,
        local_impls: body.local_impls,
        local_functions: body.local_functions,
        bindings: body.bindings,
        pats: body.pats,
        statements: body.statements,
        exprs: body.exprs,
    }
}

/// Lowers the body of one module-level function.
pub struct FunctionBodyLowering {
    pub owner: FunctionRef,
    pub owner_module: ModuleRef,
    pub function_source: BodySource,
    pub builder: BodyBuilder,
}

impl FunctionBodyLowering {
    /// Starts lowering the body of `owner`, declared in `owner_module` at `function_source`.
    pub fn new(owner: FunctionRef, owner_module: ModuleRef, function_source: BodySource) -> (r: Self)
        ensures
            r.owner == owner,
            r.owner_module == owner_module,
            r.function_source == function_source,
            r.builder.wf(),
            r.builder.scopes@.len() == 0,
            r.builder.bindings@.len() == 0,
            r.builder.exprs@.len() == 0,
    {
        FunctionBodyLowering { owner, owner_module, function_source, builder: BodyBuilder::new() }
    }

    /// Lowers the function: its parameters bind in an outer scope of their own, and its body
    /// block in a scope nested in it, so locals never come before the function boundary.
    pub fn lower(self, params: Option<ParamListSyntax>, body_source: BodySource, body: BlockSyntax) -> (r: BodyData)
        requires
            self.builder.wf(),
        ensures
            r.owner == self.owner,
            r.owner_module == self.owner_module,
            r.source == self.function_source,
            grows(self.builder, builder_of(r)),
            r.param_scope.0 == self.builder.scopes@.len(),
            r.scopes@[r.param_scope.0 as int].parent is None,
            param_bindings(builder_of(r), r.params@, r.param_scope),
            listed_names(r.bindings@, r.params@) == param_list_names(params),
            r.root_expr.0 + 1 == r.exprs@.len(),
            r.exprs@[r.root_expr.0 as int].source == body_source,
            block_lowered_from(builder_of(r), r.exprs@[r.root_expr.0 as int], body, r.param_scope),
    {
        let FunctionBodyLowering { owner, owner_module, function_source, builder } = self;
        let mut builder = builder;
        let ghost b0 = builder;
        let param_scope = builder.alloc_scope(None);
        let ghost b1 = builder;
        proof {
            assert forall|s: int| 0 <= s < b0.scopes@.len() implies (#[trigger] b1.scopes@[s]).parent == b0.scopes@[s].parent by {
                assert(b1.scopes@.drop_last()[s] == b1.scopes@[s]);
            }
            assert(grows(b0, b1));
        }
        let params = lower_params(&mut builder, params, param_scope);
        let ghost b2 = builder;
        let root_expr = lower_block_expr(&mut builder, body_source, body, param_scope);
        proof {
            lemma_grows_trans(b0, b1, b2);
            lemma_grows_trans(b0, b2, builder);
            lemma_listed_names_stable(b2.bindings@, builder.bindings@, params@);
            assert forall|k: int| 0 <= k < params@.len() implies (#[trigger] params@[k]).0 < builder.bindings@.len()
                && builder.bindings@[params@[k].0 as int].scope == param_scope && (builder.bindings@[params@[k].0 as int].kind
                == BindingKind::Param || builder.bindings@[params@[k].0 as int].kind == BindingKind::SelfParam) by {
                assert(builder.bindings@[params@[k].0 as int] == b2.bindings@[params@[k].0 as int]);
            }
        }
        let r = BodyData::new(owner, owner_module, function_source, param_scope, root_expr, params, builder);
        proof {
            assert(builder_of(r) == builder);
        }
        r
    }
}

/// A parsed block expression: its location and its block.
#[derive(Debug)]
pub struct BlockExprSyntax {
    pub source: BodySource,
    pub block: BlockSyntax,
}

/// A module-level function of a target as found in source: its identity, the module that owns
/// it when known, its location, and its parameter list and body when the source has them.
#[derive(Debug)]
pub struct FunctionSource {
    pub function: FunctionRef,
    pub owner_module: Option<ModuleRef>,
    pub source: BodySource,
    pub params: Option<ParamListSyntax>,
    pub body: Option<BlockExprSyntax>,
}

/// A function gets a body when its owner module is known and it has a body.
pub open spec fn lowerable(f: FunctionSource) -> bool {
    f.owner_module is Some && f.body is Some
}

/// The functions among the first `n` that get a body, in order.
pub open spec fn lowerable_prefix(functions: Seq<FunctionSource>, n: int) -> Seq<FunctionSource>
    decreases n,
{
    if n <= 0 || n > functions.len() {
        Seq::empty()
    } else if lowerable(functions[n - 1]) {
        lowerable_prefix(functions, n - 1).push(functions[n - 1])
    } else {
        lowerable_prefix(functions, n - 1)
    }
}

/// The function-to-body table after the first `n` functions were lowered into bodies numbered
/// from `base`: a later body of the same function replaces an earlier one.
pub open spec fn slots_after(slots: Seq<Option<BodyId>>, functions: Seq<FunctionSource>, n: int, base: nat) -> Seq<Option<BodyId>>
    decreases n,
{
    if n <= 0 || n > functions.len() {
        slots
    } else {
        let before = slots_after(slots, functions, n - 1, base);
        if lowerable(functions[n - 1]) {
            before.update(
                functions[n - 1].function.id.0 as int,
                Some(BodyId((base + lowerable_prefix(functions, n - 1).len()) as usize)),
            )
        } else {
            before
        }
    }
}

/// `body` is the body lowered for `f`.
pub open spec fn body_of(body: BodyData, f: FunctionSource) -> bool {
    &&& body.owner == f.function
    &&& Some(body.owner_module) == f.owner_module
    &&& body.source == f.source
    &&& body.exprs@[body.root_expr.0 as int].source == f.body->0.source
    &&& listed_names(body.bindings@, body.params@) == param_list_names(f.params)
}

/// Lowers the body of every function of a target whose owner module is known and whose source
/// has a body, in order, and records which body belongs to which function.
pub fn lower_target(bodies: TargetBodies, functions: Vec<FunctionSource>) -> (r: TargetBodies)
    requires
        forall|i: int| 0 <= i < functions@.len() ==> (#[trigger] functions@[i]).function.id.0 < bodies.function_bodies@.len(),
    ensures
        r.status == bodies.status,
        r.bodies@.len() == bodies.bodies@.len() + lowerable_prefix(functions@, functions@.len() as int).len(),
        forall|i: int| 0 <= i < bodies.bodies@.len() ==> #[trigger] r.bodies@[i] == bodies.bodies@[i],
        forall|j: int|
            0 <= j < lowerable_prefix(functions@, functions@.len() as int).len() ==> body_of(
                #[trigger] r.bodies@[bodies.bodies@.len() + j],
                lowerable_prefix(functions@, functions@.len() as int)[j],
            ),
        r.function_bodies@ == slots_after(bodies.function_bodies@, functions@, functions@.len() as int, bodies.bodies@.len()),
{
    let ghost all = functions@;
    let ghost t0 = bodies;
    let mut bodies = bodies;
    let mut rest = functions;
    let ghost mut k: int = 0;
    while rest.len() > 0
        invariant
            0 <= k <= all.len(),
            k + rest@.len() == all.len(),
            rest@ == all.subrange(k, all.len() as int),
            forall|i: int| 0 <= i < all.len() ==> (#[trigger] all[i]).function.id.0 < t0.function_bodies@.len(),
            bodies.status == t0.status,
            bodies.function_bodies@.len() == t0.function_bodies@.len(),
            bodies.bodies@.len() == t0.bodies@.len() + lowerable_prefix(all, k).len(),
            forall|i: int| 0 <= i < t0.bodies@.len() ==> #[trigger] bodies.bodies@[i] == t0.bodies@[i],
            forall|j: int|
                0 <= j < lowerable_prefix(all, k).len() ==> body_of(#[trigger] bodies.bodies@[t0.bodies@.len() + j], lowerable_prefix(all, k)[j]),
            bodies.function_bodies@ == slots_after(t0.function_bodies@, all, k, t0.bodies@.len()),
        decreases rest.len(),
    {
        let f = rest.remove(0);
        proof {
            assert(f == all[k]);
            assert(rest@ =~= all.subrange(k + 1, all.len() as int));
        }
        let ghost before = bodies;
        let ghost fk = f;
        let FunctionSource { function, owner_module, source, params, body } = f;
        match owner_module {
            Some(owner_module) => match body {
                Some(body_expr) => {
                    let BlockExprSyntax { source: body_source, block } = body_expr;
                    let lowering = FunctionBodyLowering::new(function, owner_module, source);
                    let data = lowering.lower(params, body_source, block);
                    let id = bodies.alloc_body(data);
                    bodies.set_function_body(function.id, id);
                    proof {
                        assert(lowerable(fk));
                        assert(lowerable_prefix(all, k + 1) == lowerable_prefix(all, k).push(fk));
                        assert forall|j: int| 0 <= j < lowerable_prefix(all, k + 1).len() implies body_of(
                            #[trigger] bodies.bodies@[t0.bodies@.len() + j],
                            lowerable_prefix(all, k + 1)[j],
                        ) by {
                            if j < lowerable_prefix(all, k).len() {
                                assert(bodies.bodies@[t0.bodies@.len() + j] == before.bodies@[t0.bodies@.len() + j]);
                            }
                        }
                    }
                },
                None => {},
            },
            None => {},
        }
        proof {
            k = k + 1;
        }
    }
    proof {
        assert(all.subrange(0, all.len() as int) =~= all);
    }
    bodies
}

/// The bodies of one target of a package: its function count and its functions.
#[derive(Debug)]
pub struct TargetFunctions {
    pub function_count: usize,
    pub functions: Vec<FunctionSource>,
}

/// The bodies of `target` when its package is lowered (`lower`) or skipped.
pub open spec fn target_lowered(bodies: TargetBodies, target: TargetFunctions, lower: bool) -> bool {
    let functions = target.functions@;
    let empty = Seq::new(target.function_count as nat, |i: int| None::<BodyId>);
    if lower {
        &&& bodies.status == crate::body::TargetBodiesStatus::Built
        &&& bodies.bodies@.len() == lowerable_prefix(functions, functions.len() as int).len()
        &&& forall|j: int|
            0 <= j < bodies.bodies@.len() ==> body_of(#[trigger] bodies.bodies@[j], lowerable_prefix(functions, functions.len() as int)[j])
        &&& bodies.function_bodies@ == slots_after(empty, functions, functions.len() as int, 0)
    } else {
        &&& bodies.status == crate::body::TargetBodiesStatus::Skipped
        &&& bodies.bodies@.len() == 0
        &&& bodies.function_bodies@ == empty
    }
}

/// Lowers the bodies of every target of one package, or marks every target skipped when the
/// policy does not lower this package.
pub fn build_package(policy: BodyIrBuildPolicy, is_workspace_member: bool, targets: Vec<TargetFunctions>) -> (r: PackageBodies)
    requires
        forall|t: int, i: int|
            0 <= t < targets@.len() && 0 <= i < targets@[t].functions@.len() ==> (#[trigger] targets@[t].functions@[i]).function.id.0
                < targets@[t].function_count,
    ensures
        r.targets@.len() == targets@.len(),
        forall|t: int|
            0 <= t < targets@.len() ==> target_lowered(#[trigger] r.targets@[t], targets@[t], policy.lowers_all() || is_workspace_member),
{
    let ghost all = targets@;
    let mut rest = targets;
    let mut out: Vec<TargetBodies> = Vec::new();
    let lower = policy.should_lower_package(is_workspace_member);
    while rest.len() > 0
        invariant
            out@.len() + rest@.len() == all.len(),
            rest@ == all.subrange(out@.len() as int, all.len() as int),
            lower == (policy.lowers_all() || is_workspace_member),
            forall|t: int, i: int|
                0 <= t < all.len() && 0 <= i < all[t].functions@.len() ==> (#[trigger] all[t].functions@[i]).function.id.0
                    < all[t].function_count,
            forall|t: int| 0 <= t < out@.len() ==> target_lowered(#[trigger] out@[t], all[t], lower),
        decreases rest.len(),
    {
        let ghost t = out@.len() as int;
        let target = rest.remove(0);
        let ghost tg = target;
        proof {
            assert(target == all[t]);
            assert(rest@ =~= all.subrange(t + 1, all.len() as int));
        }
        let TargetFunctions { function_count, functions } = target;
        let bodies = if lower {
            let built = lower_target(TargetBodies::new(function_count), functions);
            proof {
                assert forall|j: int| 0 <= j < built.bodies@.len() implies body_of(
                    #[trigger] built.bodies@[j],
                    lowerable_prefix(tg.functions@, tg.functions@.len() as int)[j],
                ) by {
                    assert(built.bodies@[0 + j] == built.bodies@[j]);
                }
            }
            built
        } else {
            TargetBodies::skipped(function_count)
        };
        proof {
            assert(target_lowered(bodies, tg, lower));
        }
        let ghost before = out@;
        out.push(bodies);
        proof {
            assert forall|u: int| 0 <= u < out@.len() implies target_lowered(#[trigger] out@[u], all[u], lower) by {
                if u < t {
                    assert(out@[u] == before[u]);
                }
            }
        }
    }
    PackageBodies::new(out)
}

} // verus!
