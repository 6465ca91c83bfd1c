//! Navigation targets: where an editor jumps for a symbol found at a cursor.
//!
//! A symbol can come from the def maps (modules and module-level definitions), from the
//! semantic index (fields, functions, type paths), or from a lowered body (bindings, local items,
//! resolved expressions). Each source of identity is turned into the same target shape: the
//! target, a kind, a name, a file and the span the editor lands on.

use vstd::prelude::*;

use crate::body::{BindingData, BodyData, BodyItemKind, BodyIrDb, BodyResolution, BodyTy, ResolvedFieldRef, ResolvedFunctionRef, entry_at};
use crate::body_ids::{BindingId, BodyFieldRef, BodyFunctionRef, BodyItemRef, BodyRef, ExprId, ScopeId};
use crate::body_infer::{
    ResolutionView, bare_local_ty, bare_nominal_tys, bare_nominals, db_type_path_in_scope, field_ty, lemma_nominals_of_model,
    model_local_items, model_type_defs, ty_for_type_path, ty_from_body_resolution,
};
use crate::body_ty::{LocalNominalModel, TyModel, ty_model};
use crate::body_resolve::BodyTypePathResolution;
use crate::db::DefMapDb;
use crate::def_map::{LocalDefKind, ModuleOrigin};
use crate::ids::{DefId, LocalDefRef, ModuleRef, TargetRef};
use crate::item_tree::{FieldKey, FieldKeyView, FieldRef, FunctionRef, TraitRef, TypeDefRef};
use crate::path::{Path, PathView};
use crate::resolution::resolve_path;
use crate::semantic::{SemanticIndex, TypePathContext, TypePathView, semantic_type_path};
use crate::text::{FileId, Span, decimal, push_decimal};

verus! {

/// What kind of entity a navigation target denotes.
#[derive(Debug, Clone, Copy, PartialEq, Eq, Structural)]
pub enum NavigationTargetKind {
    Module,
    Const,
    Enum,
    Function,
    MacroDefinition,
    Static,
    Struct,
    Trait,
    TypeAlias,
    Union,
    Field,
    LocalBinding,
}

/// The target kind of a module-level definition kind.
pub open spec fn kind_of_local_def(kind: LocalDefKind) -> NavigationTargetKind {
    match kind {
        LocalDefKind::Const => NavigationTargetKind::Const,
        LocalDefKind::Enum => NavigationTargetKind::Enum,
        LocalDefKind::Function => NavigationTargetKind::Function,
        LocalDefKind::MacroDefinition => NavigationTargetKind::MacroDefinition,
        LocalDefKind::Static => NavigationTargetKind::Static,
        LocalDefKind::Struct => NavigationTargetKind::Struct,
        LocalDefKind::Trait => NavigationTargetKind::Trait,
        LocalDefKind::TypeAlias => NavigationTargetKind::TypeAlias,
        LocalDefKind::Union => NavigationTargetKind::Union,
    }
}

/// The target kind of a body-local item kind.
pub open spec fn kind_of_body_item(kind: BodyItemKind) -> NavigationTargetKind {
    match kind {
        BodyItemKind::Struct => NavigationTargetKind::Struct,
    }
}

impl NavigationTargetKind {
    pub fn from_local_def_kind(kind: LocalDefKind) -> (r: Self)
        ensures
            r == kind_of_local_def(kind),
    {
        match kind {
            LocalDefKind::Const => NavigationTargetKind::Const,
            LocalDefKind::Enum => NavigationTargetKind::Enum,
            LocalDefKind::Function => NavigationTargetKind::Function,
            LocalDefKind::MacroDefinition => NavigationTargetKind::MacroDefinition,
            LocalDefKind::Static => NavigationTargetKind::Static,
            LocalDefKind::Struct => NavigationTargetKind::Struct,
            LocalDefKind::Trait => NavigationTargetKind::Trait,
            LocalDefKind::TypeAlias => NavigationTargetKind::TypeAlias,
            LocalDefKind::Union => NavigationTargetKind::Union,
        }
    }

    pub fn from_body_item_kind(kind: BodyItemKind) -> (r: Self)
        ensures
            r == kind_of_body_item(kind),
    {
        match kind {
            BodyItemKind::Struct => NavigationTargetKind::Struct,
        }
    }
}

/// One place an editor can jump to.
#[derive(Debug)]
pub struct NavigationTarget {
    pub target: TargetRef,
    pub kind: NavigationTargetKind,
    pub name: String,
    pub file_id: FileId,
    /// The span to land on; none for a whole file.
    pub span: Option<Span>,
}

/// Model of a navigation target.
pub struct TargetView {
    pub target: TargetRef,
    pub kind: NavigationTargetKind,
    pub name: Seq<char>,
    pub file_id: FileId,
    pub span: Option<Span>,
}

impl View for NavigationTarget {
    type V = TargetView;

    open spec fn view(&self) -> TargetView {
        TargetView { target: self.target, kind: self.kind, name: self.name@, file_id: self.file_id, span: self.span }
    }
}

/// The models of a list of targets.
pub open spec fn targets_view(targets: Seq<NavigationTarget>) -> Seq<TargetView> {
    targets.map_values(|t: NavigationTarget| t@)
}

/// The model of an optional target.
pub open spec fn target_opt_view(target: Option<NavigationTarget>) -> Option<TargetView> {
    match target {
        Some(t) => Some(t@),
        None => None,
    }
}

/// The present entries of `s`, in order.
pub open spec fn present<T>(s: Seq<Option<T>>) -> Seq<T>
    decreases s.len(),
{
    if s.len() == 0 {
        Seq::empty()
    } else {
        match s.last() {
            Some(x) => present(s.drop_last()).push(x),
            None => present(s.drop_last()),
        }
    }
}

/// An optional target as a list of at most one.
pub open spec fn option_list(target: Option<TargetView>) -> Seq<TargetView> {
    match target {
        Some(t) => seq![t],
        None => Seq::empty(),
    }
}

/// The name under which a field is declared: its name, or its position in decimal.
pub open spec fn field_label(key: FieldKeyView) -> Seq<char> {
    match key {
        FieldKeyView::Named(name) => name,
        FieldKeyView::Tuple(index) => decimal(index),
    }
}

/// The name a root module navigates under.
pub open spec fn crate_label() -> Seq<char> {
    seq!['c', 'r', 'a', 't', 'e']
}

/// The file a module navigates to: a root module's own file, else the file of its declaration.
pub open spec fn origin_file(origin: ModuleOrigin) -> FileId {
    match origin {
        ModuleOrigin::Root { file_id } => file_id,
        ModuleOrigin::Inline { declaration_file, .. } => declaration_file,
        ModuleOrigin::OutOfLine { declaration_file, .. } => declaration_file,
    }
}

/// The span a module navigates to: none for a root module, else its declaration.
pub open spec fn origin_span(origin: ModuleOrigin) -> Option<Span> {
    match origin {
        ModuleOrigin::Root { .. } => None,
        ModuleOrigin::Inline { declaration_span, .. } => Some(declaration_span),
        ModuleOrigin::OutOfLine { declaration_span, .. } => Some(declaration_span),
    }
}

/// Target of a resident module: its name (a root module is "crate") and the `mod` declaration
/// that introduced it, or the file of a root module.
pub open spec fn module_target(db: DefMapDb, module: ModuleRef) -> Option<TargetView> {
    match db.resident_target(module.target) {
        Some(d) => match entry_at(d.modules@, module.module.0) {
            Some(data) => Some(TargetView {
                target: module.target,
                kind: NavigationTargetKind::Module,
                name: match data.name {
                    Some(name) => name@,
                    None => crate_label(),
                },
                file_id: origin_file(data.origin),
                span: origin_span(data.origin),
            }),
            None => None,
        },
        None => None,
    }
}

/// Target of a resident module-level definition: it lands on the declaration's name, or on the
/// whole declaration where it has no name span.
pub open spec fn local_def_target(db: DefMapDb, def: LocalDefRef) -> Option<TargetView> {
    match db.resident_target(def.target) {
        Some(d) => match entry_at(d.local_defs@, def.local_def.0) {
            Some(data) => Some(TargetView {
                target: def.target,
                kind: kind_of_local_def(data.kind),
                name: data.name@,
                file_id: data.file_id,
                span: Some(
                    match data.name_span {
                        Some(span) => span,
                        None => data.span,
                    },
                ),
            }),
            None => None,
        },
        None => None,
    }
}

/// Target of a def-map definition.
pub open spec fn def_target(db: DefMapDb, def: DefId) -> Option<TargetView> {
    match def {
        DefId::Module(module) => module_target(db, module),
        DefId::Local(local) => local_def_target(db, local),
    }
}

/// Target of a body-local item: its name in the body's file.
pub open spec fn body_item_target(bodies: BodyIrDb, item: BodyItemRef) -> Option<TargetView> {
    match bodies.body_spec(item.body) {
        Some(body) => match entry_at(body.local_items@, item.item.0) {
            Some(data) => Some(TargetView {
                target: item.body.target,
                kind: kind_of_body_item(data.kind),
                name: data.name@,
                file_id: data.source.file_id,
                span: Some(data.name_source.span),
            }),
            None => None,
        },
        None => None,
    }
}

/// Target of a field of a module-level type; a field without a key has none.
pub open spec fn field_target(sem: SemanticIndex, field: FieldRef) -> Option<TargetView> {
    match sem.type_def_spec(field.owner) {
        Some(t) => if field.index < t.fields.fields@.len() {
            let data = t.fields.fields@[field.index as int];
            match data.key {
                Some(key) => Some(TargetView {
                    target: field.owner.target,
                    kind: NavigationTargetKind::Field,
                    name: field_label(key@),
                    file_id: t.file_id,
                    span: Some(data.span),
                }),
                None => None,
            }
        } else {
            None
        },
        None => None,
    }
}

/// Target of a field of a body-local item; a field without a key has none.
pub open spec fn local_field_target(bodies: BodyIrDb, field: BodyFieldRef) -> Option<TargetView> {
    match bodies.body_spec(field.item.body) {
        Some(body) => match entry_at(body.local_items@, field.item.item.0) {
            Some(item) => if field.index < item.fields.fields@.len() {
                let data = item.fields.fields@[field.index as int];
                match data.key {
                    Some(key) => Some(TargetView {
                        target: field.item.body.target,
                        kind: NavigationTargetKind::Field,
                        name: field_label(key@),
                        file_id: item.source.file_id,
                        span: Some(data.span),
                    }),
                    None => None,
                }
            } else {
                None
            },
            None => None,
        },
        None => None,
    }
}

/// Target of a module-level function: its name, or the whole declaration without a name span.
pub open spec fn function_target(sem: SemanticIndex, function: FunctionRef) -> Option<TargetView> {
    match sem.function_spec(function) {
        Some(data) => Some(TargetView {
            target: function.target,
            kind: NavigationTargetKind::Function,
            name: data.name@,
            file_id: data.file_id,
            span: Some(
                match data.name_span {
                    Some(span) => span,
                    None => data.span,
                },
            ),
        }),
        None => None,
    }
}

/// Target of a function declared inside a body.
pub open spec fn local_function_target(bodies: BodyIrDb, function: BodyFunctionRef) -> Option<TargetView> {
    match bodies.body_spec(function.body) {
        Some(body) => match entry_at(body.local_functions@, function.function.0) {
            Some(data) => Some(TargetView {
                target: function.body.target,
                kind: NavigationTargetKind::Function,
                name: data.name@,
                file_id: data.source.file_id,
                span: Some(data.name_source.span),
            }),
            None => None,
        },
        None => None,
    }
}

pub open spec fn resolved_field_target(sem: SemanticIndex, bodies: BodyIrDb, field: ResolvedFieldRef) -> Option<TargetView> {
    match field {
        ResolvedFieldRef::Semantic(f) => field_target(sem, f),
        ResolvedFieldRef::BodyLocal(f) => local_field_target(bodies, f),
    }
}

pub open spec fn resolved_function_target(sem: SemanticIndex, bodies: BodyIrDb, function: ResolvedFunctionRef) -> Option<TargetView> {
    match function {
        ResolvedFunctionRef::Semantic(f) => function_target(sem, f),
        ResolvedFunctionRef::BodyLocal(f) => local_function_target(bodies, f),
    }
}

/// Target of a trait: that of the definition that declares it.
pub open spec fn trait_target(db: DefMapDb, sem: SemanticIndex, t: TraitRef) -> Option<TargetView> {
    match sem.trait_local_def_spec(t) {
        Some(def) => local_def_target(db, def),
        None => None,
    }
}

/// Target of a module-level type definition: that of the definition that declares it.
pub open spec fn type_def_target(db: DefMapDb, sem: SemanticIndex, ty: TypeDefRef) -> Option<TargetView> {
    match sem.type_def_spec(ty) {
        Some(t) => local_def_target(db, t.local_def),
        None => None,
    }
}

/// Target of a local binding: its name, or its pattern text, at its source.
pub open spec fn binding_target(target: TargetRef, binding: BindingData) -> TargetView {
    TargetView {
        target,
        kind: NavigationTargetKind::LocalBinding,
        name: match binding.name {
            Some(name) => name@,
            None => binding.pat@,
        },
        file_id: binding.source.file_id,
        span: Some(binding.source.span),
    }
}

/// Targets of what a body expression resolves to: a binding, a local item, definitions, fields
/// or methods, in resolution order; nothing for an unknown resolution.
pub open spec fn resolution_targets(
    db: DefMapDb,
    sem: SemanticIndex,
    bodies: BodyIrDb,
    body: BodyData,
    resolution: ResolutionView,
) -> Seq<TargetView> {
    match resolution {
        ResolutionView::Local(binding) => match entry_at(body.bindings@, binding.0) {
            Some(data) => seq![binding_target(body.owner.target, data)],
            None => Seq::empty(),
        },
        ResolutionView::LocalItem(item) => option_list(body_item_target(bodies, item)),
        ResolutionView::Item(defs) => present(defs.map_values(|d: DefId| def_target(db, d))),
        ResolutionView::Field(fields) => present(fields.map_values(|f: ResolvedFieldRef| resolved_field_target(sem, bodies, f))),
        ResolutionView::Method(functions) => present(
            functions.map_values(|f: ResolvedFunctionRef| resolved_function_target(sem, bodies, f)),
        ),
        ResolutionView::Unknown => Seq::empty(),
    }
}

/// Targets of what a type path names: a local item, type definitions or traits.
pub open spec fn type_path_view_targets(db: DefMapDb, sem: SemanticIndex, bodies: BodyIrDb, view: TypePathView) -> Seq<TargetView> {
    match view {
        TypePathView::BodyLocal(item) => option_list(body_item_target(bodies, item)),
        TypePathView::SelfType(types) => present(types.map_values(|t: TypeDefRef| type_def_target(db, sem, t))),
        TypePathView::TypeDefs(types) => present(types.map_values(|t: TypeDefRef| type_def_target(db, sem, t))),
        TypePathView::Traits(traits) => present(traits.map_values(|t: TraitRef| trait_target(db, sem, t))),
        TypePathView::Unknown => Seq::empty(),
    }
}

/// Targets of the definitions a path resolves to from `module`, in resolution order.
pub open spec fn use_path_targets(db: DefMapDb, module: ModuleRef, path: PathView) -> Seq<TargetView> {
    present(
        resolve_path(db.model(), module, path.absolute, path.segments, false).resolved.map_values(
            |d: DefId| def_target(db, d),
        ),
    )
}

/// Targets of a type path in a signature context; where it names no type or trait (a module
/// prefix such as `helper` in `helper::Tool`), those of the path resolved from the context's
/// module.
pub open spec fn type_path_targets(
    db: DefMapDb,
    sem: SemanticIndex,
    bodies: BodyIrDb,
    context: TypePathContext,
    path: PathView,
) -> Seq<TargetView> {
    let targets = type_path_view_targets(db, sem, bodies, semantic_type_path(sem, db.model(), context, path));
    if targets.len() == 0 {
        use_path_targets(db, context.module, path)
    } else {
        targets
    }
}

/// Targets of a type path written in a body scope; where it names no type, those of the path
/// resolved from the body's module.
pub open spec fn body_type_path_targets(
    db: DefMapDb,
    sem: SemanticIndex,
    bodies: BodyIrDb,
    body: BodyRef,
    scope: ScopeId,
    path: PathView,
) -> Seq<TargetView> {
    let targets = type_path_view_targets(
        db,
        sem,
        bodies,
        db_type_path_in_scope(bodies, sem, db.model(), body, scope, path),
    );
    if targets.len() == 0 {
        match bodies.body_spec(body) {
            Some(data) => use_path_targets(db, data.owner_module, path),
            None => Seq::empty(),
        }
    } else {
        targets
    }
}

/// Targets of the types a type denotes once references are peeled: its body-local items, else
/// its module-level type definitions.
pub open spec fn ty_targets(db: DefMapDb, sem: SemanticIndex, bodies: BodyIrDb, ty: TyModel) -> Seq<TargetView> {
    let local = present(model_local_items(ty).map_values(|i: BodyItemRef| body_item_target(bodies, i)));
    if local.len() > 0 {
        local
    } else {
        present(model_type_defs(ty).map_values(|d: TypeDefRef| type_def_target(db, sem, d)))
    }
}

/// A symbol found at a cursor position.
#[derive(Debug)]
pub enum SymbolAt {
    /// A whole body, with nothing more precise under the cursor.
    Body { body: BodyRef },
    Binding { body: BodyRef, binding: BindingId },
    /// A type path written inside a body.
    BodyPath { body: BodyRef, scope: ScopeId, path: Path },
    Def { def: DefId },
    Expr { body: BodyRef, expr: ExprId },
    Field { field: FieldRef },
    Function { function: FunctionRef },
    LocalItem { item: BodyItemRef },
    /// A type path written in a signature.
    TypePath { context: TypePathContext, path: Path },
    /// A path in a `use` item or a module-level path.
    UsePath { module: ModuleRef, path: Path },
}

/// The navigation targets of a symbol.
pub open spec fn navigation_targets(db: DefMapDb, sem: SemanticIndex, bodies: BodyIrDb, symbol: SymbolAt) -> Seq<TargetView> {
    match symbol {
        SymbolAt::Body { .. } => Seq::empty(),
        SymbolAt::Binding { body, binding } => match bodies.body_spec(body) {
            Some(data) => match entry_at(data.bindings@, binding.0) {
                Some(b) => seq![binding_target(body.target, b)],
                None => Seq::empty(),
            },
            None => Seq::empty(),
        },
        SymbolAt::BodyPath { body, scope, path } => body_type_path_targets(db, sem, bodies, body, scope, path@),
        SymbolAt::Def { def } => option_list(def_target(db, def)),
        SymbolAt::Expr { body, expr } => match bodies.body_spec(body) {
            Some(data) => match entry_at(data.exprs@, expr.0) {
                Some(e) => resolution_targets(db, sem, bodies, data, e.resolution@),
                None => Seq::empty(),
            },
            None => Seq::empty(),
        },
        SymbolAt::Field { field } => option_list(field_target(sem, field)),
        SymbolAt::Function { function } => option_list(function_target(sem, function)),
        SymbolAt::LocalItem { item } => option_list(body_item_target(bodies, item)),
        SymbolAt::TypePath { context, path } => type_path_targets(db, sem, bodies, context, path@),
        SymbolAt::UsePath { module, path } => use_path_targets(db, module, path@),
    }
}

/// One more entry of `s` adds its value, if present, to the present entries.
pub proof fn lemma_present_take<T>(s: Seq<Option<T>>, i: int)
    requires
        0 <= i < s.len(),
    ensures
        present(s.take(i + 1)) == match s[i] {
            Some(x) => present(s.take(i)).push(x),
            None => present(s.take(i)),
        },
{
    assert(s.take(i + 1).drop_last() =~= s.take(i));
}

proof fn lemma_targets_view_push(targets: Seq<NavigationTarget>, t: NavigationTarget)
    ensures
        targets_view(targets.push(t)) == targets_view(targets).push(t@),
{
    assert(targets_view(targets.push(t)) =~= targets_view(targets).push(t@));
}

fn crate_name() -> (r: String)
    ensures
        r@ == crate_label(),
{
    let r = String::from_str("crate");
    proof {
        reveal_strlit("crate");
        assert("crate"@ =~= crate_label());
    }
    r
}

/// The declared name of a field key.
pub fn declaration_label(key: &FieldKey) -> (r: String)
    ensures
        r@ == field_label(key@),
{
    match key {
        FieldKey::Named(name) => name.clone(),
        FieldKey::Tuple(index) => {
            let mut out = String::new();
            push_decimal(&mut out, *index);
            proof {
                assert(out@ =~= decimal(*index as nat));
            }
            out
        },
    }
}

/// Turns def-map, semantic and body identities into navigation targets.
pub struct NavigationTargetResolver<'a> {
    pub def_map: &'a DefMapDb,
    pub semantic_ir: &'a SemanticIndex,
    pub body_ir: &'a BodyIrDb,
}

impl<'a> NavigationTargetResolver<'a> {
    pub fn new(def_map: &'a DefMapDb, semantic_ir: &'a SemanticIndex, body_ir: &'a BodyIrDb) -> (r: Self)
        ensures
            r.def_map == def_map,
            r.semantic_ir == semantic_ir,
            r.body_ir == body_ir,
    {
        NavigationTargetResolver { def_map, semantic_ir, body_ir }
    }

    pub fn navigation_target_for_def(&self, def: DefId) -> (r: Option<NavigationTarget>)
        ensures
            target_opt_view(r) == def_target(*self.def_map, def),
    {
        match def {
            DefId::Module(module_ref) => self.navigation_target_for_module(module_ref),
            DefId::Local(local_def) => self.navigation_target_for_local_def(local_def),
        }
    }

    pub fn navigation_target_for_module(&self, module_ref: ModuleRef) -> (r: Option<NavigationTarget>)
        ensures
            target_opt_view(r) == module_target(*self.def_map, module_ref),
    {
        let def_map = match self.def_map.resident_target_map(module_ref.target) {
            Some(d) => d,
            None => return None,
        };
        let module = match def_map.module(module_ref.module) {
            Some(m) => m,
            None => return None,
        };
        // Root modules have no declaration name to jump to, so they navigate to the owning file.
        // Named modules navigate to the `mod` declaration that introduced them.
        let (file_id, span) = match module.origin {
            ModuleOrigin::Root { file_id } => (file_id, None),
            ModuleOrigin::Inline { declaration_file, declaration_span } => (declaration_file, Some(declaration_span)),
            ModuleOrigin::OutOfLine { declaration_file, declaration_span, .. } => (
                declaration_file,
                Some(declaration_span),
            ),
        };
        let name = match &module.name {
            Some(name) => name.clone(),
            None => crate_name(),
        };
        Some(NavigationTarget { target: module_ref.target, kind: NavigationTargetKind::Module, name, file_id, span })
    }

    pub fn navigation_target_for_local_def(&self, local_def: LocalDefRef) -> (r: Option<NavigationTarget>)
        ensures
            target_opt_view(r) == local_def_target(*self.def_map, local_def),
    {
        let def_map = match self.def_map.resident_target_map(local_def.target) {
            Some(d) => d,
            None => return None,
        };
        let data = match def_map.local_def(local_def.local_def) {
            Some(d) => d,
            None => return None,
        };
        // Goto lands on the declaration's name rather than the whole item, whose span includes
        // its doc comments.
        let span = match data.name_span {
            Some(span) => span,
            None => data.span,
        };
        Some(
            NavigationTarget {
                target: local_def.target,
                kind: NavigationTargetKind::from_local_def_kind(data.kind),
                name: data.name.clone(),
                file_id: data.file_id,
                span: Some(span),
            },
        )
    }

    pub fn navigation_target_for_body_item(&self, item_ref: BodyItemRef) -> (r: Option<NavigationTarget>)
        ensures
            target_opt_view(r) == body_item_target(*self.body_ir, item_ref),
    {
        let body = match self.body_ir.body_data(item_ref.body) {
            Some(b) => b,
            None => return None,
        };
        let item = match body.local_item(item_ref.item) {
            Some(i) => i,
            None => return None,
        };
        Some(
            NavigationTarget {
                target: item_ref.body.target,
                kind: NavigationTargetKind::from_body_item_kind(item.kind),
                name: item.name.clone(),
                file_id: item.source.file_id,
                span: Some(item.name_source.span),
            },
        )
    }

    pub fn navigation_target_for_field(&self, field_ref: FieldRef) -> (r: Option<NavigationTarget>)
        ensures
            target_opt_view(r) == field_target(*self.semantic_ir, field_ref),
    {
        let t = match self.semantic_ir.type_def_data(field_ref.owner) {
            Some(t) => t,
            None => return None,
        };
        if field_ref.index >= t.fields.fields.len() {
            return None;
        }
        let field = &t.fields.fields[field_ref.index];
        let key = match &field.key {
            Some(key) => key,
            None => return None,
        };
        Some(
            NavigationTarget {
                target: field_ref.owner.target,
                kind: NavigationTargetKind::Field,
                name: declaration_label(key),
                file_id: t.file_id,
                span: Some(field.span),
            },
        )
    }

    pub fn navigation_target_for_resolved_field(&self, field_ref: ResolvedFieldRef) -> (r: Option<NavigationTarget>)
        ensures
            target_opt_view(r) == resolved_field_target(*self.semantic_ir, *self.body_ir, field_ref),
    {
        match field_ref {
            ResolvedFieldRef::Semantic(field) => self.navigation_target_for_field(field),
            ResolvedFieldRef::BodyLocal(field) => self.navigation_target_for_local_field(field),
        }
    }

    pub fn navigation_target_for_local_field(&self, field_ref: BodyFieldRef) -> (r: Option<NavigationTarget>)
        ensures
            target_opt_view(r) == local_field_target(*self.body_ir, field_ref),
    {
        let body = match self.body_ir.body_data(field_ref.item.body) {
            Some(b) => b,
            None => return None,
        };
        let item = match body.local_item(field_ref.item.item) {
            Some(i) => i,
            None => return None,
        };
        let field = match item.field(field_ref.index) {
            Some(f) => f,
            None => return None,
        };
        let key = match &field.key {
            Some(key) => key,
            None => return None,
        };
        Some(
            NavigationTarget {
                target: field_ref.item.body.target,
                kind: NavigationTargetKind::Field,
                name: declaration_label(key),
                file_id: item.source.file_id,
                span: Some(field.span),
            },
        )
    }

    pub fn navigation_target_for_function(&self, function_ref: FunctionRef) -> (r: Option<NavigationTarget>)
        ensures
            target_opt_view(r) == function_target(*self.semantic_ir, function_ref),
    {
        let data = match self.semantic_ir.function_data(function_ref) {
            Some(d) => d,
            None => return None,
        };
        let span = match data.name_span {
            Some(span) => span,
            None => data.span,
        };
        Some(
            NavigationTarget {
                target: function_ref.target,
                kind: NavigationTargetKind::Function,
                name: data.name.clone(),
                file_id: data.file_id,
                span: Some(span),
            },
        )
    }

    pub fn navigation_target_for_resolved_function(&self, function_ref: ResolvedFunctionRef) -> (r: Option<NavigationTarget>)
        ensures
            target_opt_view(r) == resolved_function_target(*self.semantic_ir, *self.body_ir, function_ref),
    {
        match function_ref {
            ResolvedFunctionRef::Semantic(function) => self.navigation_target_for_function(function),
            ResolvedFunctionRef::BodyLocal(function) => {
                let data = match self.body_ir.local_function_data(function) {
                    Some(d) => d,
                    None => return None,
                };
                Some(
                    NavigationTarget {
                        target: function.body.target,
                        kind: NavigationTargetKind::Function,
                        name: data.name.clone(),
                        file_id: data.source.file_id,
                        span: Some(data.name_source.span),
                    },
                )
            },
        }
    }

    pub fn navigation_target_for_trait(&self, trait_ref: TraitRef) -> (r: Option<NavigationTarget>)
        ensures
            target_opt_view(r) == trait_target(*self.def_map, *self.semantic_ir, trait_ref),
    {
        match self.semantic_ir.trait_local_def(trait_ref) {
            Some(local_def) => self.navigation_target_for_local_def(local_def),
            None => None,
        }
    }

    pub fn navigation_target_for_type_def(&self, ty: TypeDefRef) -> (r: Option<NavigationTarget>)
        ensures
            target_opt_view(r) == type_def_target(*self.def_map, *self.semantic_ir, ty),
    {
        match self.semantic_ir.type_def_data(ty) {
            Some(t) => self.navigation_target_for_local_def(t.local_def),
            None => None,
        }
    }

    /// Targets of the types a body type denotes, as [`ty_targets`] states.
    pub fn navigation_targets_for_body_ty(&self, ty: &BodyTy) -> (r: Vec<NavigationTarget>)
        ensures
            targets_view(r@) == ty_targets(*self.def_map, *self.semantic_ir, *self.body_ir, ty_model(*ty)),
    {
        proof {
            lemma_nominals_of_model(*ty);
            assert(ty.local_nominals_spec().map_values(|t: crate::body::BodyLocalNominalTy| body_item_target(*self.body_ir, t.item))
                =~= model_local_items(ty_model(*ty)).map_values(|i: BodyItemRef| body_item_target(*self.body_ir, i)));
            assert(ty.nominal_tys_spec().map_values(|t: crate::body::BodyNominalTy| type_def_target(*self.def_map, *self.semantic_ir, t.def))
                =~= model_type_defs(ty_model(*ty)).map_values(|d: TypeDefRef| type_def_target(*self.def_map, *self.semantic_ir, d)));
        }
        let locals = ty.local_nominals();
        let ghost ls = locals@.map_values(|t: crate::body::BodyLocalNominalTy| body_item_target(*self.body_ir, t.item));
        let mut local_targets: Vec<NavigationTarget> = Vec::new();
        let mut i: usize = 0;
        while i < locals.len()
            invariant
                i <= locals@.len(),
                locals@ == ty.local_nominals_spec(),
                ls == locals@.map_values(|t: crate::body::BodyLocalNominalTy| body_item_target(*self.body_ir, t.item)),
                targets_view(local_targets@) == present(ls.take(i as int)),
            decreases locals.len() - i,
        {
            proof {
                lemma_present_take(ls, i as int);
            }
            let found = self.navigation_target_for_body_item(locals[i].item);
            if let Some(t) = found {
                proof {
                    lemma_targets_view_push(local_targets@, t);
                }
                local_targets.push(t);
            }
            i = i + 1;
        }
        proof {
            assert(ls.take(locals@.len() as int) =~= ls);
        }
        if local_targets.len() > 0 {
            return local_targets;
        }
        let nominals = ty.nominal_tys();
        let ghost ns = nominals@.map_values(|t: crate::body::BodyNominalTy| type_def_target(*self.def_map, *self.semantic_ir, t.def));
        let mut targets: Vec<NavigationTarget> = Vec::new();
        let mut i: usize = 0;
        while i < nominals.len()
            invariant
                i <= nominals@.len(),
                nominals@ == ty.nominal_tys_spec(),
                ns == nominals@.map_values(|t: crate::body::BodyNominalTy| type_def_target(*self.def_map, *self.semantic_ir, t.def)),
                targets_view(targets@) == present(ns.take(i as int)),
            decreases nominals.len() - i,
        {
            proof {
                lemma_present_take(ns, i as int);
            }
            let found = self.navigation_target_for_type_def(nominals[i].def);
            if let Some(t) = found {
                proof {
                    lemma_targets_view_push(targets@, t);
                }
                targets.push(t);
            }
            i = i + 1;
        }
        proof {
            assert(ns.take(nominals@.len() as int) =~= ns);
        }
        targets
    }

    /// Targets of definitions, in order; those without a target are skipped.
    pub fn navigation_targets_for_defs(&self, items: &Vec<DefId>) -> (r: Vec<NavigationTarget>)
        ensures
            targets_view(r@) == present(items@.map_values(|x: DefId| def_target(*self.def_map, x))),
    {
        let ghost opts = items@.map_values(|x: DefId| def_target(*self.def_map, x));
        let mut out: Vec<NavigationTarget> = Vec::new();
        let mut i: usize = 0;
        while i < items.len()
            invariant
                i <= items@.len(),
                opts == items@.map_values(|x: DefId| def_target(*self.def_map, x)),
                targets_view(out@) == present(opts.take(i as int)),
            decreases items.len() - i,
        {
            proof {
                lemma_present_take(opts, i as int);
            }
            let x = items[i];
            let found = self.navigation_target_for_def(x);
            if let Some(t) = found {
                proof {
                    lemma_targets_view_push(out@, t);
                }
                out.push(t);
            }
            i = i + 1;
        }
        proof {
            assert(opts.take(items@.len() as int) =~= opts);
        }
        out
    }

    /// Targets of resolved fields, in order; those without a target are skipped.
    pub fn navigation_targets_for_resolved_fields(&self, items: &Vec<ResolvedFieldRef>) -> (r: Vec<NavigationTarget>)
        ensures
            targets_view(r@) == present(items@.map_values(|x: ResolvedFieldRef| resolved_field_target(*self.semantic_ir, *self.body_ir, x))),
    {
        let ghost opts = items@.map_values(|x: ResolvedFieldRef| resolved_field_target(*self.semantic_ir, *self.body_ir, x));
        let mut out: Vec<NavigationTarget> = Vec::new();
        let mut i: usize = 0;
        while i < items.len()
            invariant
                i <= items@.len(),
                opts == items@.map_values(|x: ResolvedFieldRef| resolved_field_target(*self.semantic_ir, *self.body_ir, x)),
                targets_view(out@) == present(opts.take(i as int)),
            decreases items.len() - i,
        {
            proof {
                lemma_present_take(opts, i as int);
            }
            let x = items[i];
            let found = self.navigation_target_for_resolved_field(x);
            if let Some(t) = found {
                proof {
                    lemma_targets_view_push(out@, t);
                }
                out.push(t);
            }
            i = i + 1;
        }
        proof {
            assert(opts.take(items@.len() as int) =~= opts);
        }
        out
    }

    /// Targets of resolved functions, in order; those without a target are skipped.
    pub fn navigation_targets_for_resolved_functions(&self, items: &Vec<ResolvedFunctionRef>) -> (r: Vec<NavigationTarget>)
        ensures
            targets_view(r@) == present(items@.map_values(|x: ResolvedFunctionRef| resolved_function_target(*self.semantic_ir, *self.body_ir, x))),
    {
        let ghost opts = items@.map_values(|x: ResolvedFunctionRef| resolved_function_target(*self.semantic_ir, *self.body_ir, x));
        let mut out: Vec<NavigationTarget> = Vec::new();
        let mut i: usize = 0;
        while i < items.len()
            invariant
                i <= items@.len(),
                opts == items@.map_values(|x: ResolvedFunctionRef| resolved_function_target(*self.semantic_ir, *self.body_ir, x)),
                targets_view(out@) == present(opts.take(i as int)),
            decreases items.len() - i,
        {
            proof {
                lemma_present_take(opts, i as int);
            }
            let x = items[i];
            let found = self.navigation_target_for_resolved_function(x);
            if let Some(t) = found {
                proof {
                    lemma_targets_view_push(out@, t);
                }
                out.push(t);
            }
            i = i + 1;
        }
        proof {
            assert(opts.take(items@.len() as int) =~= opts);
        }
        out
    }

    /// Targets of type definitions, in order; those without a target are skipped.
    pub fn navigation_targets_for_type_defs(&self, items: &Vec<TypeDefRef>) -> (r: Vec<NavigationTarget>)
        ensures
            targets_view(r@) == present(items@.map_values(|x: TypeDefRef| type_def_target(*self.def_map, *self.semantic_ir, x))),
    {
        let ghost opts = items@.map_values(|x: TypeDefRef| type_def_target(*self.def_map, *self.semantic_ir, x));
        let mut out: Vec<NavigationTarget> = Vec::new();
        let mut i: usize = 0;
        while i < items.len()
            invariant
                i <= items@.len(),
                opts == items@.map_values(|x: TypeDefRef| type_def_target(*self.def_map, *self.semantic_ir, x)),
                targets_view(out@) == present(opts.take(i as int)),
            decreases items.len() - i,
        {
            proof {
                lemma_present_take(opts, i as int);
            }
            let x = items[i];
            let found = self.navigation_target_for_type_def(x);
            if let Some(t) = found {
                proof {
                    lemma_targets_view_push(out@, t);
                }
                out.push(t);
            }
            i = i + 1;
        }
        proof {
            assert(opts.take(items@.len() as int) =~= opts);
        }
        out
    }

    /// Targets of traits, in order; those without a target are skipped.
    pub fn navigation_targets_for_traits(&self, items: &Vec<TraitRef>) -> (r: Vec<NavigationTarget>)
        ensures
            targets_view(r@) == present(items@.map_values(|x: TraitRef| trait_target(*self.def_map, *self.semantic_ir, x))),
    {
        let ghost opts = items@.map_values(|x: TraitRef| trait_target(*self.def_map, *self.semantic_ir, x));
        let mut out: Vec<NavigationTarget> = Vec::new();
        let mut i: usize = 0;
        while i < items.len()
            invariant
                i <= items@.len(),
                opts == items@.map_values(|x: TraitRef| trait_target(*self.def_map, *self.semantic_ir, x)),
                targets_view(out@) == present(opts.take(i as int)),
            decreases items.len() - i,
        {
            proof {
                lemma_present_take(opts, i as int);
            }
            let x = items[i];
            let found = self.navigation_target_for_trait(x);
            if let Some(t) = found {
                proof {
                    lemma_targets_view_push(out@, t);
                }
                out.push(t);
            }
            i = i + 1;
        }
        proof {
            assert(opts.take(items@.len() as int) =~= opts);
        }
        out
    }

    /// The target of a local binding of a body in `target`.
    pub fn navigation_target_for_binding(target: TargetRef, binding: &BindingData) -> (r: NavigationTarget)
        ensures
            r@ == binding_target(target, *binding),
    {
        let name = match &binding.name {
            Some(name) => name.clone(),
            None => binding.pat.clone(),
        };
        NavigationTarget {
            target,
            kind: NavigationTargetKind::LocalBinding,
            name,
            file_id: binding.source.file_id,
            span: Some(binding.source.span),
        }
    }
}

/// Resolves found symbols to navigation targets.
pub struct SymbolResolver<'a> {
    pub def_map: &'a DefMapDb,
    pub semantic_ir: &'a SemanticIndex,
    pub body_ir: &'a BodyIrDb,
}

impl<'a> SymbolResolver<'a> {
    pub fn new(def_map: &'a DefMapDb, semantic_ir: &'a SemanticIndex, body_ir: &'a BodyIrDb) -> (r: Self)
        ensures
            r.def_map == def_map,
            r.semantic_ir == semantic_ir,
            r.body_ir == body_ir,
    {
        SymbolResolver { def_map, semantic_ir, body_ir }
    }

    fn targets(&self) -> (r: NavigationTargetResolver<'a>)
        ensures
            r.def_map == self.def_map,
            r.semantic_ir == self.semantic_ir,
            r.body_ir == self.body_ir,
    {
        NavigationTargetResolver::new(self.def_map, self.semantic_ir, self.body_ir)
    }

    /// Resolves a previously found symbol to navigation targets, as [`navigation_targets`]
    /// states.
    pub fn resolve_symbol(&self, symbol: SymbolAt) -> (r: Vec<NavigationTarget>)
        ensures
            targets_view(r@) == navigation_targets(*self.def_map, *self.semantic_ir, *self.body_ir, symbol),
    {
        let targets = self.targets();
        match symbol {
            SymbolAt::Binding { body, binding } => {
                let mut out: Vec<NavigationTarget> = Vec::new();
                if let Some(body_data) = self.body_ir.body_data(body) {
                    if let Some(binding_data) = body_data.binding(binding) {
                        let t = NavigationTargetResolver::navigation_target_for_binding(body.target, binding_data);
                        out.push(t);
                        proof {
                            assert(targets_view(out@) =~= seq![t@]);
                        }
                    }
                }
                proof {
                    assert(targets_view(out@) =~= navigation_targets(*self.def_map, *self.semantic_ir, *self.body_ir, symbol));
                }
                out
            },
            SymbolAt::BodyPath { body, scope, path } => self.navigation_targets_for_body_type_path(body, scope, &path),
            SymbolAt::Def { def } => one_or_none(targets.navigation_target_for_def(def)),
            SymbolAt::Expr { body, expr } => {
                match self.body_ir.body_data(body) {
                    Some(body_data) => match body_data.expr(expr) {
                        Some(expr_data) => self.navigation_targets_for_resolution(body_data, &expr_data.resolution),
                        None => Vec::new(),
                    },
                    None => Vec::new(),
                }
            },
            SymbolAt::Field { field } => one_or_none(targets.navigation_target_for_field(field)),
            SymbolAt::Function { function } => one_or_none(targets.navigation_target_for_function(function)),
            SymbolAt::LocalItem { item } => one_or_none(targets.navigation_target_for_body_item(item)),
            SymbolAt::TypePath { context, path } => self.navigation_targets_for_type_path(context, &path),
            SymbolAt::UsePath { module, path } => self.navigation_targets_for_use_path(module, &path),
            SymbolAt::Body { .. } => Vec::new(),
        }
    }

    /// Targets of what a body expression resolves to, as [`resolution_targets`] states.
    pub fn navigation_targets_for_resolution(&self, body: &BodyData, resolution: &BodyResolution) -> (r: Vec<NavigationTarget>)
        ensures
            targets_view(r@) == resolution_targets(*self.def_map, *self.semantic_ir, *self.body_ir, *body, resolution@),
    {
        // Body resolution can point at lexical bindings, body-local items, or semantic items.
        // Each source of identity becomes the same navigation payload.
        let targets = self.targets();
        match resolution {
            BodyResolution::Local(binding) => {
                let mut out: Vec<NavigationTarget> = Vec::new();
                if let Some(binding_data) = body.binding(*binding) {
                    let t = NavigationTargetResolver::navigation_target_for_binding(body.owner.target, binding_data);
                    out.push(t);
                    proof {
                        assert(targets_view(out@) =~= seq![t@]);
                    }
                }
                proof {
                    assert(targets_view(out@) =~= resolution_targets(*self.def_map, *self.semantic_ir, *self.body_ir, *body, resolution@));
                }
                out
            },
            BodyResolution::LocalItem(item) => one_or_none(targets.navigation_target_for_body_item(*item)),
            BodyResolution::Item(defs) => targets.navigation_targets_for_defs(defs),
            BodyResolution::Field(fields) => targets.navigation_targets_for_resolved_fields(fields),
            BodyResolution::Method(functions) => targets.navigation_targets_for_resolved_functions(functions),
            BodyResolution::Unknown => Vec::new(),
        }
    }

    /// Targets of a type path in a signature context, as [`type_path_targets`] states.
    pub fn navigation_targets_for_type_path(&self, context: TypePathContext, path: &Path) -> (r: Vec<NavigationTarget>)
        ensures
            targets_view(r@) == type_path_targets(*self.def_map, *self.semantic_ir, *self.body_ir, context, path@),
    {
        let resolution = self.semantic_ir.resolve_type_path(self.def_map, context, path);
        let targets = self.navigation_targets_for_body_type_path_resolution(resolution);
        if targets.len() == 0 {
            // A cursor can sit on a non-type prefix inside a type path, for example `helper` in
            // `helper::Tool`: the path names no type, but navigation still jumps to the module.
            self.navigation_targets_for_use_path(context.module, path)
        } else {
            targets
        }
    }

    /// Targets of the definitions a path resolves to from `module`, as [`use_path_targets`]
    /// states.
    pub fn navigation_targets_for_use_path(&self, module: ModuleRef, path: &Path) -> (r: Vec<NavigationTarget>)
        ensures
            targets_view(r@) == use_path_targets(*self.def_map, module, path@),
    {
        let resolved = self.def_map.resolve_path(module, path).resolved;
        self.targets().navigation_targets_for_defs(&resolved)
    }

    /// Targets of a type path written in a body scope, as [`body_type_path_targets`] states.
    pub fn navigation_targets_for_body_type_path(&self, body_ref: BodyRef, scope: ScopeId, path: &Path) -> (r: Vec<NavigationTarget>)
        ensures
            targets_view(r@) == body_type_path_targets(*self.def_map, *self.semantic_ir, *self.body_ir, body_ref, scope, path@),
    {
        let resolution = self.body_ir.resolve_type_path_in_scope(self.def_map, self.semantic_ir, body_ref, scope, path);
        let targets = self.navigation_targets_for_body_type_path_resolution(resolution);
        if targets.len() == 0 {
            // Body-local resolution owns `Self` and local items; where it fails the path may still
            // be a module prefix, resolved from the body's module.
            match self.body_ir.body_data(body_ref) {
                Some(body) => self.navigation_targets_for_use_path(body.owner_module, path),
                None => Vec::new(),
            }
        } else {
            targets
        }
    }

    /// Targets of what a type path names, as [`type_path_view_targets`] states.
    pub fn navigation_targets_for_body_type_path_resolution(&self, resolution: BodyTypePathResolution) -> (r: Vec<NavigationTarget>)
        ensures
            targets_view(r@) == type_path_view_targets(*self.def_map, *self.semantic_ir, *self.body_ir, resolution@),
    {
        // Type paths can resolve to traits in bound positions; those navigate to the trait.
        let targets = self.targets();
        match resolution {
            BodyTypePathResolution::BodyLocal(item) => one_or_none(targets.navigation_target_for_body_item(item)),
            BodyTypePathResolution::SelfType(types) => targets.navigation_targets_for_type_defs(&types),
            BodyTypePathResolution::TypeDefs(types) => targets.navigation_targets_for_type_defs(&types),
            BodyTypePathResolution::Traits(traits) => targets.navigation_targets_for_traits(&traits),
            BodyTypePathResolution::Unknown => Vec::new(),
        }
    }
}

/// An optional target as a list of at most one.
fn one_or_none(target: Option<NavigationTarget>) -> (r: Vec<NavigationTarget>)
    ensures
        targets_view(r@) == option_list(target_opt_view(target)),
{
    let mut out: Vec<NavigationTarget> = Vec::new();
    match target {
        Some(t) => {
            out.push(t);
            proof {
                assert(targets_view(out@) =~= seq![t@]);
            }
        },
        None => {
            assert(targets_view(out@) =~= Seq::<TargetView>::empty());
        },
    }
    out
}

/// The type of a symbol: that of an expression or binding, the type a type path names, the type
/// a definition declares, the type of a field, or a local item's; none for a `use` path, a
/// function, a whole body, or what the body database does not hold.
pub open spec fn symbol_ty(db: DefMapDb, sem: SemanticIndex, bodies: BodyIrDb, symbol: SymbolAt) -> Option<TyModel> {
    match symbol {
        SymbolAt::Expr { body, expr } => match bodies.body_spec(body) {
            Some(data) => match entry_at(data.exprs@, expr.0) {
                Some(e) => Some(ty_model(e.ty)),
                None => None,
            },
            None => None,
        },
        SymbolAt::Binding { body, binding } => match bodies.body_spec(body) {
            Some(data) => match entry_at(data.bindings@, binding.0) {
                Some(b) => Some(ty_model(b.ty)),
                None => None,
            },
            None => None,
        },
        SymbolAt::BodyPath { body, scope, path } => Some(
            ty_for_type_path(db_type_path_in_scope(bodies, sem, db.model(), body, scope, path@), TyModel::Unknown),
        ),
        SymbolAt::Def { def } => match def {
            DefId::Local(local) => match sem.type_def_for_local_def_spec(local) {
                Some(t) => Some(TyModel::Nominal(bare_nominals(seq![t]))),
                None => None,
            },
            DefId::Module(_) => None,
        },
        SymbolAt::Field { field } => field_ty(sem, db.model(), field),
        SymbolAt::LocalItem { item } => Some(TyModel::LocalNominal(seq![LocalNominalModel { item, args: Seq::empty() }])),
        SymbolAt::TypePath { context, path } => Some(
            ty_for_type_path(semantic_type_path(sem, db.model(), context, path@), TyModel::Unknown),
        ),
        SymbolAt::UsePath { .. } => None,
        SymbolAt::Function { .. } => None,
        SymbolAt::Body { .. } => None,
    }
}

/// Gives the types of found symbols.
pub struct TypeResolver<'a> {
    pub def_map: &'a DefMapDb,
    pub semantic_ir: &'a SemanticIndex,
    pub body_ir: &'a BodyIrDb,
}

impl<'a> TypeResolver<'a> {
    pub fn new(def_map: &'a DefMapDb, semantic_ir: &'a SemanticIndex, body_ir: &'a BodyIrDb) -> (r: Self)
        ensures
            r.def_map == def_map,
            r.semantic_ir == semantic_ir,
            r.body_ir == body_ir,
    {
        TypeResolver { def_map, semantic_ir, body_ir }
    }

    /// The type of a found symbol, as [`symbol_ty`] states.
    pub fn type_of_symbol(&self, symbol: &SymbolAt) -> (r: Option<BodyTy>)
        ensures
            match r {
                Some(t) => symbol_ty(*self.def_map, *self.semantic_ir, *self.body_ir, *symbol) == Some(ty_model(t)),
                None => symbol_ty(*self.def_map, *self.semantic_ir, *self.body_ir, *symbol) is None,
            },
    {
        match symbol {
            SymbolAt::Expr { body, expr } => match self.body_ir.body_data(*body) {
                Some(data) => match data.expr(*expr) {
                    Some(e) => Some(e.ty.duplicate()),
                    None => None,
                },
                None => None,
            },
            SymbolAt::Binding { body, binding } => match self.body_ir.body_data(*body) {
                Some(data) => match data.binding(*binding) {
                    Some(b) => Some(b.ty.duplicate()),
                    None => None,
                },
                None => None,
            },
            SymbolAt::BodyPath { body, scope, path } => Some(self.ty_for_body_type_path(*body, *scope, path)),
            SymbolAt::Def { def } => self.ty_for_def(*def),
            SymbolAt::Field { field } => self.body_ir.ty_for_field(self.def_map, self.semantic_ir, *field),
            SymbolAt::LocalItem { item } => Some(bare_local_ty(*item)),
            SymbolAt::TypePath { context, path } => Some(self.ty_for_type_path(*context, path)),
            SymbolAt::UsePath { .. } => None,
            SymbolAt::Function { .. } => None,
            SymbolAt::Body { .. } => None,
        }
    }

    /// The type a type path names in a signature context; traits and unknown paths give the
    /// unknown type.
    pub fn ty_for_type_path(&self, context: TypePathContext, path: &Path) -> (r: BodyTy)
        ensures
            ty_model(r) == ty_for_type_path(semantic_type_path(*self.semantic_ir, self.def_map.model(), context, path@), TyModel::Unknown),
    {
        ty_from_body_resolution(self.semantic_ir.resolve_type_path(self.def_map, context, path), BodyTy::Unknown)
    }

    /// The type a type path written in a body scope names; traits and unknown paths give the
    /// unknown type.
    pub fn ty_for_body_type_path(&self, body_ref: BodyRef, scope: ScopeId, path: &Path) -> (r: BodyTy)
        ensures
            ty_model(r) == ty_for_type_path(
                db_type_path_in_scope(*self.body_ir, *self.semantic_ir, self.def_map.model(), body_ref, scope, path@),
                TyModel::Unknown,
            ),
    {
        ty_from_body_resolution(
            self.body_ir.resolve_type_path_in_scope(self.def_map, self.semantic_ir, body_ref, scope, path),
            BodyTy::Unknown,
        )
    }

    /// The type a definition declares: that of a type definition; none otherwise.
    fn ty_for_def(&self, def: DefId) -> (r: Option<BodyTy>)
        ensures
            match r {
                Some(t) => symbol_ty(*self.def_map, *self.semantic_ir, *self.body_ir, SymbolAt::Def { def }) == Some(ty_model(t)),
                None => symbol_ty(*self.def_map, *self.semantic_ir, *self.body_ir, SymbolAt::Def { def }) is None,
            },
    {
        let local_def = match def {
            DefId::Local(local_def) => local_def,
            DefId::Module(_) => return None,
        };
        match self.semantic_ir.type_def_for_local_def(local_def) {
            Some(ty) => {
                let mut defs: Vec<TypeDefRef> = Vec::new();
                defs.push(ty);
                proof {
                    assert(defs@ =~= seq![ty]);
                }
                Some(BodyTy::Nominal(bare_nominal_tys(&defs)))
            },
            None => None,
        }
    }
}

/// Where "go to type definition" jumps: the definitions of the type of a found symbol.
pub struct TypeDefinitionResolver<'a> {
    pub def_map: &'a DefMapDb,
    pub semantic_ir: &'a SemanticIndex,
    pub body_ir: &'a BodyIrDb,
}

impl<'a> TypeDefinitionResolver<'a> {
    pub fn new(def_map: &'a DefMapDb, semantic_ir: &'a SemanticIndex, body_ir: &'a BodyIrDb) -> (r: Self)
        ensures
            r.def_map == def_map,
            r.semantic_ir == semantic_ir,
            r.body_ir == body_ir,
    {
        TypeDefinitionResolver { def_map, semantic_ir, body_ir }
    }

    /// The targets of the type of a found symbol, as [`ty_targets`] states; none for a symbol
    /// without a type.
    pub fn goto_type_definition(&self, symbol: &SymbolAt) -> (r: Vec<NavigationTarget>)
        ensures
            targets_view(r@) == match symbol_ty(*self.def_map, *self.semantic_ir, *self.body_ir, *symbol) {
                Some(ty) => ty_targets(*self.def_map, *self.semantic_ir, *self.body_ir, ty),
                None => Seq::empty(),
            },
    {
        let ty = match TypeResolver::new(self.def_map, self.semantic_ir, self.body_ir).type_of_symbol(symbol) {
            Some(ty) => ty,
            None => return Vec::new(),
        };
        NavigationTargetResolver::new(self.def_map, self.semantic_ir, self.body_ir).navigation_targets_for_body_ty(&ty)
    }
}

} // verus!
