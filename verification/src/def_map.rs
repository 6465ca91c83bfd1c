//! Frozen namespace maps: modules, local definitions, impls and imports of one target.

use vstd::prelude::*;

use crate::ids::{ImportId, LocalDefId, LocalImplId, ModuleId, ModuleRef};
use crate::path::{Path, PathSegment, PathView, SegmentView, segments_view};
use crate::scope::{ModuleScope, Namespace, ScopeView, VisibilityLevel, names_map};
use crate::text::{FileId, Span};

verus! {

/// Kind tag of one item-tree item.
#[derive(Debug, Clone, Copy, PartialEq, Eq, Structural)]
pub enum ItemTag {
    AsmExpr,
    Const,
    Enum,
    ExternBlock,
    ExternCrate,
    Function,
    Impl,
    MacroDefinition,
    Module,
    Static,
    Struct,
    Trait,
    TypeAlias,
    Union,
    Use,
}

/// Module-scope definition kind that participates in def-map namespaces.
#[derive(Debug, Clone, Copy, PartialEq, Eq, Structural)]
pub enum LocalDefKind {
    Const,
    Enum,
    Function,
    MacroDefinition,
    Static,
    Struct,
    Trait,
    TypeAlias,
    Union,
}

impl LocalDefKind {
    pub open spec fn spec_namespace(self) -> Namespace {
        match self {
            LocalDefKind::Const | LocalDefKind::Function | LocalDefKind::Static => Namespace::Values,
            LocalDefKind::Enum
            | LocalDefKind::Struct
            | LocalDefKind::Trait
            | LocalDefKind::TypeAlias
            | LocalDefKind::Union => Namespace::Types,
            LocalDefKind::MacroDefinition => Namespace::Macros,
        }
    }

    /// Namespace bucket the definition occupies in its module scope.
    pub fn namespace(self) -> (r: Namespace)
        ensures
            r == self.spec_namespace(),
    {
        match self {
            LocalDefKind::Const | LocalDefKind::Function | LocalDefKind::Static => Namespace::Values,
            LocalDefKind::Enum
            | LocalDefKind::Struct
            | LocalDefKind::Trait
            | LocalDefKind::TypeAlias
            | LocalDefKind::Union => Namespace::Types,
            LocalDefKind::MacroDefinition => Namespace::Macros,
        }
    }

    pub open spec fn spec_from_item_tag(tag: ItemTag) -> Option<LocalDefKind> {
        match tag {
            ItemTag::Const => Some(LocalDefKind::Const),
            ItemTag::Enum => Some(LocalDefKind::Enum),
            ItemTag::Function => Some(LocalDefKind::Function),
            ItemTag::MacroDefinition => Some(LocalDefKind::MacroDefinition),
            ItemTag::Static => Some(LocalDefKind::Static),
            ItemTag::Struct => Some(LocalDefKind::Struct),
            ItemTag::Trait => Some(LocalDefKind::Trait),
            ItemTag::TypeAlias => Some(LocalDefKind::TypeAlias),
            ItemTag::Union => Some(LocalDefKind::Union),
            ItemTag::AsmExpr
            | ItemTag::ExternBlock
            | ItemTag::ExternCrate
            | ItemTag::Impl
            | ItemTag::Module
            | ItemTag::Use => None,
        }
    }

    /// The definition kind an item-tree item contributes, if it is a namespace item.
    pub fn from_item_tag(tag: ItemTag) -> (r: Option<LocalDefKind>)
        ensures
            r == Self::spec_from_item_tag(tag),
    {
        match tag {
            ItemTag::Const => Some(LocalDefKind::Const),
            ItemTag::Enum => Some(LocalDefKind::Enum),
            ItemTag::Function => Some(LocalDefKind::Function),
            ItemTag::MacroDefinition => Some(LocalDefKind::MacroDefinition),
            ItemTag::Static => Some(LocalDefKind::Static),
            ItemTag::Struct => Some(LocalDefKind::Struct),
            ItemTag::Trait => Some(LocalDefKind::Trait),
            ItemTag::TypeAlias => Some(LocalDefKind::TypeAlias),
            ItemTag::Union => Some(LocalDefKind::Union),
            ItemTag::AsmExpr
            | ItemTag::ExternBlock
            | ItemTag::ExternCrate
            | ItemTag::Impl
            | ItemTag::Module
            | ItemTag::Use => None,
        }
    }

    pub open spec fn spec_label(self) -> Seq<char> {
        match self {
            LocalDefKind::Const => "const"@,
            LocalDefKind::Enum => "enum"@,
            LocalDefKind::Function => "fn"@,
            LocalDefKind::MacroDefinition => "macro_definition"@,
            LocalDefKind::Static => "static"@,
            LocalDefKind::Struct => "struct"@,
            LocalDefKind::Trait => "trait"@,
            LocalDefKind::TypeAlias => "type_alias"@,
            LocalDefKind::Union => "union"@,
        }
    }

    /// Display label of the kind, as shown in snapshots and hovers.
    pub fn label(self) -> (r: &'static str)
        ensures
            r@ == self.spec_label(),
    {
        match self {
            LocalDefKind::Const => "const",
            LocalDefKind::Enum => "enum",
            LocalDefKind::Function => "fn",
            LocalDefKind::MacroDefinition => "macro_definition",
            LocalDefKind::Static => "static",
            LocalDefKind::Struct => "struct",
            LocalDefKind::Trait => "trait",
            LocalDefKind::TypeAlias => "type_alias",
            LocalDefKind::Union => "union",
        }
    }
}

/// Reference to one item inside a file's item tree.
#[derive(Debug, Clone, Copy, PartialEq, Eq, Structural)]
pub struct ItemTreeRef {
    pub file_id: FileId,
    pub item: usize,
}

/// Where a module came from in source code.
#[derive(Debug, Clone, Copy, PartialEq, Eq, Structural)]
pub enum ModuleOrigin {
    Root { file_id: FileId },
    Inline { declaration_file: FileId, declaration_span: Span },
    OutOfLine { declaration_file: FileId, declaration_span: Span, definition_file: Option<FileId> },
}

impl ModuleOrigin {
    pub open spec fn spec_contains_file(self, file_id: FileId) -> bool {
        match self {
            ModuleOrigin::Root { file_id: root_file } => root_file == file_id,
            ModuleOrigin::Inline { declaration_file, .. } => declaration_file == file_id,
            ModuleOrigin::OutOfLine { declaration_file, definition_file, .. } => declaration_file
                == file_id || definition_file == Some(file_id),
        }
    }

    /// Returns whether this module's source touches the requested file.
    pub fn contains_file(&self, file_id: FileId) -> (r: bool)
        ensures
            r == self.spec_contains_file(file_id),
    {
        match self {
            ModuleOrigin::Root { file_id: root_file } => *root_file == file_id,
            ModuleOrigin::Inline { declaration_file, .. } => *declaration_file == file_id,
            ModuleOrigin::OutOfLine { declaration_file, definition_file, .. } => {
                *declaration_file == file_id || match definition_file {
                    Some(file) => *file == file_id,
                    None => false,
                }
            },
        }
    }
}

/// One named child module.
#[derive(Debug)]
pub struct ModuleChild {
    pub name: String,
    pub module: ModuleId,
}

/// One module in the frozen namespace graph.
#[derive(Debug)]
pub struct ModuleData {
    pub name: Option<String>,
    pub name_span: Option<Span>,
    pub parent: Option<ModuleId>,
    pub children: Vec<ModuleChild>,
    pub local_defs: Vec<LocalDefId>,
    pub impls: Vec<LocalImplId>,
    pub imports: Vec<ImportId>,
    pub unresolved_imports: Vec<ImportId>,
    pub scope: ModuleScope,
    pub origin: ModuleOrigin,
}

/// Model of a module's place in the module tree.
pub struct ModuleModel {
    pub parent: Option<ModuleId>,
    pub children: Seq<(Seq<char>, ModuleId)>,
}

pub open spec fn children_view(children: Seq<ModuleChild>) -> Seq<(Seq<char>, ModuleId)> {
    children.map_values(|c: ModuleChild| (c.name@, c.module))
}

impl ModuleData {
    pub open spec fn model(&self) -> ModuleModel {
        ModuleModel { parent: self.parent, children: children_view(self.children@) }
    }

    /// The first child module declared under `name`.
    pub fn child(&self, name: &String) -> (r: Option<ModuleId>)
        ensures
            r == first_child(self.model().children, name@),
    {
        let ghost children = children_view(self.children@);
        let mut i: usize = 0;
        assert(children.subrange(0, children.len() as int) =~= children);
        while i < self.children.len()
            invariant
                i <= self.children.len(),
                children == children_view(self.children@),
                first_child(children, name@) == first_child(children.subrange(i as int, children.len() as int), name@),
            decreases self.children.len() - i,
        {
            proof {
                let rest = children.subrange(i as int, children.len() as int);
                assert(rest[0] == children[i as int]);
                assert(rest.drop_first() =~= children.subrange(i + 1, children.len() as int));
            }
            if self.children[i].name == *name {
                return Some(self.children[i].module);
            }
            i = i + 1;
        }
        None
    }
}

/// The first child of `children` with the given name.
pub open spec fn first_child(children: Seq<(Seq<char>, ModuleId)>, name: Seq<char>) -> Option<ModuleId>
    decreases children.len(),
{
    if children.len() == 0 {
        None
    } else if children[0].0 == name {
        Some(children[0].1)
    } else {
        first_child(children.drop_first(), name)
    }
}

/// One module-scope definition collected from source.
#[derive(Debug)]
pub struct LocalDefData {
    pub module: ModuleId,
    pub name: String,
    pub kind: LocalDefKind,
    pub visibility: VisibilityLevel,
    pub source: ItemTreeRef,
    pub file_id: FileId,
    pub name_span: Option<Span>,
    pub span: Span,
}

/// One module-owned impl block collected from source.
#[derive(Debug, Clone, Copy, PartialEq, Eq, Structural)]
pub struct LocalImplData {
    pub module: ModuleId,
    pub source: ItemTreeRef,
    pub file_id: FileId,
    pub span: Span,
}

/// Shape of one lowered import.
#[derive(Debug, Clone, Copy, PartialEq, Eq, Structural)]
pub enum ImportKind {
    /// `use a::b;` or `use a::b as c;`
    Named,
    /// `use a::b::{self};`
    SelfImport,
    /// `use a::b::*;`
    Glob,
}

/// One source segment of an import path together with its span.
#[derive(Debug)]
pub struct ImportSourcePathSegment {
    pub segment: PathSegment,
    pub span: Span,
}

/// Import path as written in source, with spans for cursor queries.
#[derive(Debug)]
pub struct ImportSourcePath {
    pub absolute: bool,
    pub segments: Vec<ImportSourcePathSegment>,
    pub source_span: Option<Span>,
}

pub open spec fn source_segments_view(segments: Seq<ImportSourcePathSegment>) -> Seq<SegmentView> {
    segments.map_values(|s: ImportSourcePathSegment| s.segment@)
}

impl ImportSourcePath {
    /// Returns the source segments.
    pub fn segments(&self) -> (r: &Vec<ImportSourcePathSegment>)
        ensures
            r == &self.segments,
    {
        &self.segments
    }

    /// Returns the span of the whole written path, if known.
    pub fn source_span(&self) -> (r: Option<Span>)
        ensures
            r == self.source_span,
    {
        self.source_span
    }

    /// The path made of the segments up to and including `idx`.
    pub fn prefix_path(&self, idx: usize) -> (r: Path)
        requires
            idx < self.segments@.len(),
        ensures
            r@ == (PathView {
                absolute: self.absolute,
                segments: source_segments_view(self.segments@).subrange(0, idx + 1),
            }),
    {
        let mut segments: Vec<PathSegment> = Vec::new();
        let mut i: usize = 0;
        while i <= idx
            invariant
                idx < self.segments.len(),
                i <= idx + 1,
                segments.len() == i,
                forall|j: int| 0 <= j < i ==> segments@[j]@ == self.segments@[j].segment@,
            decreases idx + 1 - i,
        {
            segments.push(self.segments[i].segment.duplicate());
            i = i + 1;
        }
        let r = Path { absolute: self.absolute, segments };
        assert(segments_view(r.segments@) =~= source_segments_view(self.segments@).subrange(0, idx + 1));
        r
    }
}

/// One lowered `use` item entry.
#[derive(Debug)]
pub struct ImportData {
    pub module: ModuleId,
    pub kind: ImportKind,
    pub path: Path,
    pub visibility: VisibilityLevel,
    /// Name the import binds in its module; `None` for globs and `as _` imports.
    pub binding: Option<String>,
    pub source: ItemTreeRef,
    pub source_path: ImportSourcePath,
    pub alias_span: Option<Span>,
}

impl ImportData {
    /// Returns the name this import introduces into its module scope, if any.
    pub fn binding_name(&self) -> (r: Option<&String>)
        ensures
            r == match &self.binding {
                Some(name) => Some(name),
                None => None::<&String>,
            },
    {
        match &self.binding {
            Some(name) => Some(name),
            None => None,
        }
    }
}

/// One implicit root name visible to a target, such as a dependency's crate name.
#[derive(Debug)]
pub struct ExternRoot {
    pub name: String,
    pub module: ModuleRef,
}

pub open spec fn extern_root_items(roots: Seq<ExternRoot>) -> Seq<(Seq<char>, ModuleRef)> {
    roots.map_values(|r: ExternRoot| (r.name@, r.module))
}

pub open spec fn extern_roots_view(roots: Seq<ExternRoot>) -> Map<Seq<char>, ModuleRef> {
    names_map(extern_root_items(roots))
}

/// The module an implicit root name refers to; a later root of the same name wins.
pub fn lookup_extern_root(roots: &Vec<ExternRoot>, name: &String) -> (r: Option<ModuleRef>)
    ensures
        r == (if extern_roots_view(roots@).contains_key(name@) {
            Some(extern_roots_view(roots@)[name@])
        } else {
            None
        }),
{
    let ghost items = extern_root_items(roots@);
    let mut i: usize = roots.len();
    while i > 0
        invariant
            i <= roots.len(),
            items == extern_root_items(roots@),
            forall|j: int| i <= j < roots.len() ==> #[trigger] items[j].0 != name@,
        decreases i,
    {
        i = i - 1;
        if roots[i].name == *name {
            proof {
                assert(items[i as int].0 == name@);
                crate::scope::lemma_names_map_last(items, name@, i as int);
            }
            return Some(roots[i].module);
        }
    }
    proof {
        crate::scope::lemma_names_map_absent(items, name@);
    }
    None
}

/// Frozen namespace map for one analyzed target.
#[derive(Debug)]
pub struct DefMap {
    pub root_module: Option<ModuleId>,
    /// Implicit roots visible to this target, including sibling lib roots.
    pub extern_prelude: Vec<ExternRoot>,
    /// Standard prelude module selected for this target, if sysroot sources are available.
    pub prelude: Option<ModuleRef>,
    pub modules: Vec<ModuleData>,
    pub local_defs: Vec<LocalDefData>,
    pub local_impls: Vec<LocalImplData>,
    pub imports: Vec<ImportData>,
}

/// Model of what path resolution reads from one target.
pub struct TargetModel {
    pub root: Option<ModuleId>,
    pub extern_roots: Map<Seq<char>, ModuleRef>,
    pub prelude: Option<ModuleRef>,
    pub modules: Seq<ModuleModel>,
    pub local_def_kinds: Seq<LocalDefKind>,
}

impl TargetModel {
    /// Every module's parent comes before it, so parent chains end.
    pub open spec fn parents_precede(self) -> bool {
        forall|i: int|
            #![trigger self.modules[i]]
            0 <= i < self.modules.len() ==> match self.modules[i].parent {
                Some(p) => p.0 < i,
                None => true,
            }
    }
}

impl DefMap {
    pub open spec fn model(&self) -> TargetModel {
        TargetModel {
            root: self.root_module,
            extern_roots: extern_roots_view(self.extern_prelude@),
            prelude: self.prelude,
            modules: self.modules@.map_values(|m: ModuleData| m.model()),
            local_def_kinds: self.local_defs@.map_values(|d: LocalDefData| d.kind),
        }
    }

    /// Scopes of all modules, in module-id order.
    pub open spec fn scopes(&self) -> Seq<ScopeView> {
        self.modules@.map_values(|m: ModuleData| m.scope@)
    }

    /// An empty map: no modules, definitions or imports.
    pub fn new() -> (r: Self)
        ensures
            r.modules@.len() == 0,
            r.local_defs@.len() == 0,
            r.local_impls@.len() == 0,
            r.imports@.len() == 0,
            r.root_module is None,
            r.prelude is None,
            r.extern_prelude@.len() == 0,
    {
        DefMap {
            root_module: None,
            extern_prelude: Vec::new(),
            prelude: None,
            modules: Vec::new(),
            local_defs: Vec::new(),
            local_impls: Vec::new(),
            imports: Vec::new(),
        }
    }

    /// Returns the root module of this target, if the map has been populated.
    pub fn root_module(&self) -> (r: Option<ModuleId>)
        ensures
            r == self.root_module,
    {
        self.root_module
    }

    /// Returns the implicit root names visible from this target.
    pub fn extern_prelude(&self) -> (r: &Vec<ExternRoot>)
        ensures
            r == &self.extern_prelude,
    {
        &self.extern_prelude
    }

    /// Returns the module an implicit root name refers to.
    pub fn extern_root(&self, name: &String) -> (r: Option<ModuleRef>)
        ensures
            r == (if self.model().extern_roots.contains_key(name@) {
                Some(self.model().extern_roots[name@])
            } else {
                None
            }),
    {
        lookup_extern_root(&self.extern_prelude, name)
    }

    /// Returns the standard prelude module visible from this target, if it was discovered.
    pub fn prelude(&self) -> (r: Option<ModuleRef>)
        ensures
            r == self.prelude,
    {
        self.prelude
    }

    /// Returns all modules in stable module-id order.
    pub fn modules(&self) -> (r: &Vec<ModuleData>)
        ensures
            r == &self.modules,
    {
        &self.modules
    }

    /// Returns module data by id.
    pub fn module(&self, module_id: ModuleId) -> (r: Option<&ModuleData>)
        ensures
            match r {
                Some(m) => module_id.0 < self.modules@.len() && m == &self.modules@[module_id.0 as int],
                None => module_id.0 >= self.modules@.len(),
            },
    {
        if module_id.0 < self.modules.len() {
            Some(&self.modules[module_id.0])
        } else {
            None
        }
    }

    /// Returns local definition data by id.
    pub fn local_def(&self, local_def: LocalDefId) -> (r: Option<&LocalDefData>)
        ensures
            match r {
                Some(d) => local_def.0 < self.local_defs@.len() && d == &self.local_defs@[local_def.0 as int],
                None => local_def.0 >= self.local_defs@.len(),
            },
    {
        if local_def.0 < self.local_defs.len() {
            Some(&self.local_defs[local_def.0])
        } else {
            None
        }
    }

    /// Returns all local definitions in stable local-def-id order.
    pub fn local_defs(&self) -> (r: &Vec<LocalDefData>)
        ensures
            r == &self.local_defs,
    {
        &self.local_defs
    }

    /// Returns impl block data by id.
    pub fn local_impl(&self, local_impl: LocalImplId) -> (r: Option<&LocalImplData>)
        ensures
            match r {
                Some(d) => local_impl.0 < self.local_impls@.len() && d == &self.local_impls@[local_impl.0 as int],
                None => local_impl.0 >= self.local_impls@.len(),
            },
    {
        if local_impl.0 < self.local_impls.len() {
            Some(&self.local_impls[local_impl.0])
        } else {
            None
        }
    }

    /// Returns all impl blocks in stable local-impl-id order.
    pub fn local_impls(&self) -> (r: &Vec<LocalImplData>)
        ensures
            r == &self.local_impls,
    {
        &self.local_impls
    }

    /// Returns import data by id.
    pub fn import(&self, import: ImportId) -> (r: Option<&ImportData>)
        ensures
            match r {
                Some(d) => import.0 < self.imports@.len() && d == &self.imports@[import.0 as int],
                None => import.0 >= self.imports@.len(),
            },
    {
        if import.0 < self.imports.len() {
            Some(&self.imports[import.0])
        } else {
            None
        }
    }

    /// Returns all imports in stable import-id order.
    pub fn imports(&self) -> (r: &Vec<ImportData>)
        ensures
            r == &self.imports,
    {
        &self.imports
    }

    pub fn set_root_module(&mut self, root_module: ModuleId)
        ensures
            final(self).root_module == Some(root_module),
            final(self).extern_prelude == old(self).extern_prelude,
            final(self).prelude == old(self).prelude,
            final(self).modules == old(self).modules,
            final(self).local_defs == old(self).local_defs,
            final(self).local_impls == old(self).local_impls,
            final(self).imports == old(self).imports,
    {
        self.root_module = Some(root_module);
    }

    pub fn set_extern_prelude(&mut self, extern_prelude: Vec<ExternRoot>)
        ensures
            final(self).extern_prelude == extern_prelude,
            final(self).root_module == old(self).root_module,
            final(self).prelude == old(self).prelude,
            final(self).modules == old(self).modules,
            final(self).local_defs == old(self).local_defs,
            final(self).local_impls == old(self).local_impls,
            final(self).imports == old(self).imports,
    {
        self.extern_prelude = extern_prelude;
    }

    pub fn set_prelude(&mut self, prelude: Option<ModuleRef>)
        ensures
            final(self).prelude == prelude,
            final(self).root_module == old(self).root_module,
            final(self).extern_prelude == old(self).extern_prelude,
            final(self).modules == old(self).modules,
            final(self).local_defs == old(self).local_defs,
            final(self).local_impls == old(self).local_impls,
            final(self).imports == old(self).imports,
    {
        self.prelude = prelude;
    }
}


// ---------------------------------------------------------------------------------------------
// Copies
// ---------------------------------------------------------------------------------------------

/// Copies a list of plain values.
pub fn copy_plain<T: Copy>(items: &Vec<T>) -> (r: Vec<T>)
    ensures
        r@ == items@,
{
    let mut out: Vec<T> = Vec::new();
    let mut i: usize = 0;
    while i < items.len()
        invariant
            i <= items.len(),
            out@ == items@.take(i as int),
        decreases items.len() - i,
    {
        out.push(items[i]);
        proof {
            assert(out@ =~= items@.take(i + 1));
        }
        i = i + 1;
    }
    assert(items@.take(items.len() as int) =~= items@);
    out
}

impl ModuleChild {
    pub fn duplicate(&self) -> (r: Self)
        ensures
            r == *self,
    {
        ModuleChild { name: self.name.clone(), module: self.module }
    }
}

fn copy_children(children: &Vec<ModuleChild>) -> (r: Vec<ModuleChild>)
    ensures
        r@ == children@,
{
    let mut out: Vec<ModuleChild> = Vec::new();
    let mut i: usize = 0;
    while i < children.len()
        invariant
            i <= children.len(),
            out@ == children@.take(i as int),
        decreases children.len() - i,
    {
        out.push(children[i].duplicate());
        proof {
            assert(out@ =~= children@.take(i + 1));
        }
        i = i + 1;
    }
    assert(children@.take(children.len() as int) =~= children@);
    out
}

fn copy_name(name: &Option<String>) -> (r: Option<String>)
    ensures
        r == *name,
{
    match name {
        Some(n) => Some(n.clone()),
        None => None,
    }
}

/// `a` is a copy of `b`: the same fields, and a scope with the same model.
pub open spec fn module_copy(a: ModuleData, b: ModuleData) -> bool {
    &&& a.name == b.name
    &&& a.name_span == b.name_span
    &&& a.parent == b.parent
    &&& a.children@ == b.children@
    &&& a.local_defs@ == b.local_defs@
    &&& a.impls@ == b.impls@
    &&& a.imports@ == b.imports@
    &&& a.unresolved_imports@ == b.unresolved_imports@
    &&& a.scope@ == b.scope@
    &&& a.origin == b.origin
}

impl ModuleData {
    pub fn duplicate(&self) -> (r: Self)
        ensures
            module_copy(r, *self),
    {
        ModuleData {
            name: copy_name(&self.name),
            name_span: self.name_span,
            parent: self.parent,
            children: copy_children(&self.children),
            local_defs: copy_plain(&self.local_defs),
            impls: copy_plain(&self.impls),
            imports: copy_plain(&self.imports),
            unresolved_imports: copy_plain(&self.unresolved_imports),
            scope: self.scope.duplicate(),
            origin: self.origin,
        }
    }
}

impl LocalDefData {
    pub fn duplicate(&self) -> (r: Self)
        ensures
            r == *self,
    {
        LocalDefData {
            module: self.module,
            name: self.name.clone(),
            kind: self.kind,
            visibility: self.visibility.duplicate(),
            source: self.source,
            file_id: self.file_id,
            name_span: self.name_span,
            span: self.span,
        }
    }
}

impl ImportSourcePathSegment {
    pub fn duplicate(&self) -> (r: Self)
        ensures
            r == *self,
    {
        ImportSourcePathSegment { segment: self.segment.duplicate(), span: self.span }
    }
}

/// `a` is a copy of `b`.
pub open spec fn source_path_copy(a: ImportSourcePath, b: ImportSourcePath) -> bool {
    &&& a.absolute == b.absolute
    &&& a.segments@ == b.segments@
    &&& a.source_span == b.source_span
}

impl ImportSourcePath {
    pub fn duplicate(&self) -> (r: Self)
        ensures
            source_path_copy(r, *self),
    {
        let mut segments: Vec<ImportSourcePathSegment> = Vec::new();
        let mut i: usize = 0;
        while i < self.segments.len()
            invariant
                i <= self.segments.len(),
                segments@ == self.segments@.take(i as int),
            decreases self.segments.len() - i,
        {
            segments.push(self.segments[i].duplicate());
            proof {
                assert(segments@ =~= self.segments@.take(i + 1));
            }
            i = i + 1;
        }
        assert(self.segments@.take(self.segments.len() as int) =~= self.segments@);
        ImportSourcePath { absolute: self.absolute, segments, source_span: self.source_span }
    }
}

/// `a` is a copy of `b`.
pub open spec fn import_copy(a: ImportData, b: ImportData) -> bool {
    &&& a.module == b.module
    &&& a.kind == b.kind
    &&& a.path.absolute == b.path.absolute
    &&& a.path.segments@ == b.path.segments@
    &&& a.visibility == b.visibility
    &&& a.binding == b.binding
    &&& a.source == b.source
    &&& source_path_copy(a.source_path, b.source_path)
    &&& a.alias_span == b.alias_span
}

impl ImportData {
    pub fn duplicate(&self) -> (r: Self)
        ensures
            import_copy(r, *self),
            r.path@ == self.path@,
    {
        ImportData {
            module: self.module,
            kind: self.kind,
            path: self.path.duplicate(),
            visibility: self.visibility.duplicate(),
            binding: copy_name(&self.binding),
            source: self.source,
            source_path: self.source_path.duplicate(),
            alias_span: self.alias_span,
        }
    }
}

impl ExternRoot {
    pub fn duplicate(&self) -> (r: Self)
        ensures
            r == *self,
    {
        ExternRoot { name: self.name.clone(), module: self.module }
    }
}

/// Copies a list of extern roots.
pub fn copy_extern_roots(roots: &Vec<ExternRoot>) -> (r: Vec<ExternRoot>)
    ensures
        r@ == roots@,
{
    let mut out: Vec<ExternRoot> = Vec::new();
    let mut i: usize = 0;
    while i < roots.len()
        invariant
            i <= roots.len(),
            out@ == roots@.take(i as int),
        decreases roots.len() - i,
    {
        out.push(roots[i].duplicate());
        proof {
            assert(out@ =~= roots@.take(i + 1));
        }
        i = i + 1;
    }
    assert(roots@.take(roots.len() as int) =~= roots@);
    out
}

/// `a` is a copy of `b`: the same fields, modules and imports copied.
pub open spec fn def_map_copy(a: DefMap, b: DefMap) -> bool {
    &&& a.root_module == b.root_module
    &&& a.extern_prelude@ == b.extern_prelude@
    &&& a.prelude == b.prelude
    &&& a.modules@.len() == b.modules@.len()
    &&& forall|m: int| 0 <= m < a.modules@.len() ==> #[trigger] module_copy(a.modules@[m], b.modules@[m])
    &&& a.local_defs@ == b.local_defs@
    &&& a.local_impls@ == b.local_impls@
    &&& a.imports@.len() == b.imports@.len()
    &&& forall|i: int| 0 <= i < a.imports@.len() ==> #[trigger] import_copy(a.imports@[i], b.imports@[i])
}

/// A copy has the same model and scopes.
pub proof fn lemma_def_map_copy(a: DefMap, b: DefMap)
    requires
        def_map_copy(a, b),
    ensures
        a.model() == b.model(),
        a.scopes() == b.scopes(),
{
    assert forall|m: int| 0 <= m < a.modules@.len() implies a.modules@[m].model() == b.modules@[m].model() by {
        assert(module_copy(a.modules@[m], b.modules@[m]));
    }
    assert(a.model().modules =~= b.model().modules);
    assert(a.model().local_def_kinds =~= b.model().local_def_kinds);
    assert forall|m: int| 0 <= m < a.modules@.len() implies a.modules@[m].scope@ == b.modules@[m].scope@ by {
        assert(module_copy(a.modules@[m], b.modules@[m]));
    }
    assert(a.scopes() =~= b.scopes());
}

impl DefMap {
    pub fn duplicate(&self) -> (r: Self)
        ensures
            def_map_copy(r, *self),
    {
        let mut modules: Vec<ModuleData> = Vec::new();
        let mut m: usize = 0;
        while m < self.modules.len()
            invariant
                m <= self.modules.len(),
                modules@.len() == m,
                forall|n: int| 0 <= n < m ==> #[trigger] module_copy(modules@[n], self.modules@[n]),
            decreases self.modules.len() - m,
        {
            modules.push(self.modules[m].duplicate());
            m = m + 1;
        }
        let mut local_defs: Vec<LocalDefData> = Vec::new();
        let mut d: usize = 0;
        while d < self.local_defs.len()
            invariant
                d <= self.local_defs.len(),
                local_defs@ == self.local_defs@.take(d as int),
            decreases self.local_defs.len() - d,
        {
            local_defs.push(self.local_defs[d].duplicate());
            proof {
                assert(local_defs@ =~= self.local_defs@.take(d + 1));
            }
            d = d + 1;
        }
        assert(self.local_defs@.take(self.local_defs.len() as int) =~= self.local_defs@);
        let mut imports: Vec<ImportData> = Vec::new();
        let mut i: usize = 0;
        while i < self.imports.len()
            invariant
                i <= self.imports.len(),
                imports@.len() == i,
                forall|n: int| 0 <= n < i ==> #[trigger] import_copy(imports@[n], self.imports@[n]),
            decreases self.imports.len() - i,
        {
            imports.push(self.imports[i].duplicate());
            i = i + 1;
        }
        DefMap {
            root_module: self.root_module,
            extern_prelude: copy_extern_roots(&self.extern_prelude),
            prelude: self.prelude,
            modules,
            local_defs,
            local_impls: copy_plain(&self.local_impls),
            imports,
        }
    }
}

} // verus!
