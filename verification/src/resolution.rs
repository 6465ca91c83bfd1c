//! Path resolution against module scopes.
//!
//! Resolution here is intentionally narrow:
//! - it works only with already-built module scopes;
//! - it understands module navigation (`self`, `super`, `crate`);
//! - it can return multiple definitions because several namespaces may share one textual name.
//!
//! During def-map construction the resolver reads from the fixed-point scope snapshot; after
//! construction the same path-walking logic reads from frozen def maps. Both sources implement
//! [`PathResolutionEnv`], whose model is an [`EnvModel`].

use vstd::prelude::*;
use vstd::string::*;

use crate::def_map::{LocalDefKind, ModuleData, ModuleModel, TargetModel, first_child};
use crate::ids::{DefId, LocalDefRef, ModuleId, ModuleRef, TargetRef};
use crate::path::{Path, PathSegment, SegmentView, segments_view};
use crate::scope::{
    BindingView, ModuleScope, ScopeBinding, ScopeView, VisibilityLevel, VisibilityView,
    bindings_view,
};

verus! {

/// Model of everything path resolution reads: the targets of all packages and the scope of
/// every module.
pub struct EnvModel {
    pub targets: Seq<Seq<TargetModel>>,
    pub scopes: Seq<Seq<Seq<ScopeView>>>,
}

impl EnvModel {
    pub open spec fn target(self, target: TargetRef) -> Option<TargetModel> {
        if target.package.0 < self.targets.len() && target.target.0
            < self.targets[target.package.0 as int].len() {
            Some(self.targets[target.package.0 as int][target.target.0 as int])
        } else {
            None
        }
    }

    pub open spec fn extern_root(self, target: TargetRef, name: Seq<char>) -> Option<ModuleRef> {
        match self.target(target) {
            Some(t) => if t.extern_roots.contains_key(name) {
                Some(t.extern_roots[name])
            } else {
                None
            },
            None => None,
        }
    }

    pub open spec fn prelude_module(self, target: TargetRef) -> Option<ModuleRef> {
        match self.target(target) {
            Some(t) => t.prelude,
            None => None,
        }
    }

    pub open spec fn root_module(self, target: TargetRef) -> Option<ModuleRef> {
        match self.target(target) {
            Some(t) => match t.root {
                Some(root) => Some(ModuleRef { target, module: root }),
                None => None,
            },
            None => None,
        }
    }

    pub open spec fn module(self, module: ModuleRef) -> Option<ModuleModel> {
        match self.target(module.target) {
            Some(t) => if module.module.0 < t.modules.len() {
                Some(t.modules[module.module.0 as int])
            } else {
                None
            },
            None => None,
        }
    }

    pub open spec fn parent_module(self, target: TargetRef, module: ModuleId) -> Option<ModuleRef> {
        match self.module(ModuleRef { target, module }) {
            Some(m) => match m.parent {
                Some(parent) => Some(ModuleRef { target, module: parent }),
                None => None,
            },
            None => None,
        }
    }

    pub open spec fn child_module(self, module: ModuleRef, name: Seq<char>) -> Option<ModuleRef> {
        match self.module(module) {
            Some(m) => match first_child(m.children, name) {
                Some(child) => Some(ModuleRef { target: module.target, module: child }),
                None => None,
            },
            None => None,
        }
    }

    pub open spec fn module_scope(self, module: ModuleRef) -> Option<ScopeView> {
        let p = module.target.package.0 as int;
        let t = module.target.target.0 as int;
        let m = module.module.0 as int;
        if p < self.scopes.len() && t < self.scopes[p].len() && m < self.scopes[p][t].len() {
            Some(self.scopes[p][t][m])
        } else {
            None
        }
    }

    pub open spec fn local_def_kind(self, def: LocalDefRef) -> Option<LocalDefKind> {
        match self.target(def.target) {
            Some(t) => if def.local_def.0 < t.local_def_kinds.len() {
                Some(t.local_def_kinds[def.local_def.0 as int])
            } else {
                None
            },
            None => None,
        }
    }

    /// Every target's module tree has parents before children.
    pub open spec fn wf(self) -> bool {
        forall|p: int, t: int|
            0 <= p < self.targets.len() && 0 <= t < self.targets[p].len()
                ==> #[trigger] self.targets[p][t].parents_precede()
    }
}

/// Minimal scope graph required by the path resolver.
pub trait PathResolutionEnv {
    spec fn model(&self) -> EnvModel;

    fn extern_root(&self, target: TargetRef, name: &String) -> (r: Option<ModuleRef>)
        ensures
            r == self.model().extern_root(target, name@),
    ;

    fn prelude_module(&self, target: TargetRef) -> (r: Option<ModuleRef>)
        ensures
            r == self.model().prelude_module(target),
    ;

    fn root_module(&self, target: TargetRef) -> (r: Option<ModuleRef>)
        ensures
            r == self.model().root_module(target),
    ;

    fn module_data(&self, module: ModuleRef) -> (r: Option<&ModuleData>)
        ensures
            match r {
                Some(m) => self.model().module(module) == Some(m.model()),
                None => self.model().module(module) is None,
            },
    ;

    fn module_scope(&self, module: ModuleRef) -> (r: Option<&ModuleScope>)
        ensures
            match r {
                Some(s) => self.model().module_scope(module) == Some(s@),
                None => self.model().module_scope(module) is None,
            },
    ;
}

/// Result of resolving a path.
#[derive(Debug)]
pub struct ResolvePathResult {
    pub resolved: Vec<DefId>,
    /// Index of the first segment that resolved to nothing.
    pub unresolved_at: Option<usize>,
}

/// Model of a path resolution result.
pub struct ResolveView {
    pub resolved: Seq<DefId>,
    pub unresolved_at: Option<nat>,
}

impl View for ResolvePathResult {
    type V = ResolveView;

    open spec fn view(&self) -> ResolveView {
        ResolveView {
            resolved: self.resolved@,
            unresolved_at: match self.unresolved_at {
                Some(i) => Some(i as nat),
                None => None,
            },
        }
    }
}

// ---------------------------------------------------------------------------------------------
// Semantics
// ---------------------------------------------------------------------------------------------

/// `defs` with `def` appended unless it is already present.
pub open spec fn push_unique(defs: Seq<DefId>, def: DefId) -> Seq<DefId> {
    if defs.contains(def) {
        defs
    } else {
        defs.push(def)
    }
}

/// `defs` extended, in order, with every element of `more` not already present.
pub open spec fn push_all_unique(defs: Seq<DefId>, more: Seq<DefId>) -> Seq<DefId>
    decreases more.len(),
{
    if more.len() == 0 {
        defs
    } else {
        push_unique(push_all_unique(defs, more.drop_last()), more.last())
    }
}

/// Whether walking parent links from module index `cur` reaches module index `ancestor`.
pub open spec fn chain_reaches(model: EnvModel, target: TargetRef, cur: nat, ancestor: nat) -> bool
    decreases cur,
{
    if cur == ancestor {
        true
    } else {
        match model.module(ModuleRef { target, module: ModuleId(cur as usize) }) {
            Some(m) => match m.parent {
                Some(p) => if (p.0 as nat) < cur {
                    chain_reaches(model, target, p.0 as nat, ancestor)
                } else {
                    false
                },
                None => false,
            },
            None => false,
        }
    }
}

/// Whether `module` is the same as or nested inside `ancestor`.
pub open spec fn is_descendant(model: EnvModel, module: ModuleRef, ancestor: ModuleRef) -> bool {
    module.target == ancestor.target && chain_reaches(
        model,
        module.target,
        module.module.0 as nat,
        ancestor.module.0 as nat,
    )
}

/// The pieces of `s` between non-overlapping `::` separators, scanning left to right from `i`
/// with the current piece starting at `start`.
pub open spec fn split_colons_from(s: Seq<char>, start: int, i: int) -> Seq<Seq<char>>
    decreases s.len() - i,
{
    if i + 1 < s.len() && s[i] == ':' && s[i + 1] == ':' {
        seq![s.subrange(start, i)] + split_colons_from(s, i + 2, i + 2)
    } else if i < s.len() {
        split_colons_from(s, start, i + 1)
    } else {
        seq![s.subrange(start, s.len() as int)]
    }
}

/// The pieces of a `::`-separated path text, as `str::split("::")` yields them.
pub open spec fn split_colons(s: Seq<char>) -> Seq<Seq<char>> {
    split_colons_from(s, 0, 0)
}

/// The module reached from `cur` by following the named children in `names`.
pub open spec fn walk_children(model: EnvModel, cur: ModuleRef, names: Seq<Seq<char>>) -> Option<ModuleRef>
    decreases names.len(),
{
    if names.len() == 0 {
        Some(cur)
    } else {
        match model.child_module(cur, names[0]) {
            Some(child) => walk_children(model, child, names.drop_first()),
            None => None,
        }
    }
}

/// The module that anchors a `pub(in path)` restriction declared in `owner`.
pub open spec fn restricted_owner(model: EnvModel, owner: ModuleRef, path: Seq<char>) -> Option<ModuleRef> {
    let pieces = split_colons(path);
    let first = pieces[0];
    let start = if first == "crate"@ {
        model.root_module(owner.target)
    } else if first == "self"@ {
        Some(owner)
    } else if first == "super"@ {
        model.parent_module(owner.target, owner.module)
    } else {
        None
    };
    match start {
        Some(start) => walk_children(model, start, pieces.drop_first()),
        None => None,
    }
}

/// Whether a binding can be observed from the importing module.
///
/// Public bindings are visible everywhere. Every other visibility is anchored to a module of the
/// target that introduced the binding, so other targets see it only through a public
/// re-export.
pub open spec fn binding_visible(model: EnvModel, importing: ModuleRef, binding: BindingView) -> bool {
    match binding.visibility {
        VisibilityView::Public => true,
        _ => if importing.target != binding.owner.target {
            false
        } else {
            match binding.visibility {
                VisibilityView::Private | VisibilityView::SelfVis => is_descendant(
                    model,
                    importing,
                    binding.owner,
                ),
                VisibilityView::Crate => true,
                VisibilityView::Super => match model.parent_module(
                    binding.owner.target,
                    binding.owner.module,
                ) {
                    Some(parent) => is_descendant(model, importing, parent),
                    None => false,
                },
                VisibilityView::Restricted(path) => match restricted_owner(
                    model,
                    binding.owner,
                    path,
                ) {
                    Some(anchor) => is_descendant(model, importing, anchor),
                    None => false,
                },
                VisibilityView::Public => true,
                VisibilityView::Unknown(_) => false,
            }
        },
    }
}

/// `defs` extended with the definitions of the visible bindings of `bindings`, in order and
/// without duplicates.
pub open spec fn push_visible(
    model: EnvModel,
    importing: ModuleRef,
    defs: Seq<DefId>,
    bindings: Seq<BindingView>,
) -> Seq<DefId>
    decreases bindings.len(),
{
    if bindings.len() == 0 {
        defs
    } else {
        let before = push_visible(model, importing, defs, bindings.drop_last());
        if binding_visible(model, importing, bindings.last()) {
            push_unique(before, bindings.last().def)
        } else {
            before
        }
    }
}

/// Definitions bound to `name` in `module`'s scope and visible from `importing`: types first,
/// then values, then macros; only types when `types_only`.
pub open spec fn resolve_name(
    model: EnvModel,
    importing: ModuleRef,
    module: ModuleRef,
    name: Seq<char>,
    types_only: bool,
) -> Seq<DefId> {
    match model.module_scope(module) {
        Some(scope) => if scope.contains_key(name) {
            let entry = scope[name];
            let types = push_visible(model, importing, Seq::empty(), entry.types);
            if types_only {
                types
            } else {
                push_visible(
                    model,
                    importing,
                    push_visible(model, importing, types, entry.values),
                    entry.macros,
                )
            }
        } else {
            Seq::empty()
        },
        None => Seq::empty(),
    }
}

/// Definitions the first segment of a path denotes.
///
/// Relative names first try the current module scope, then extern roots, then the standard
/// prelude. Absolute names only see extern roots.
pub open spec fn resolve_first(
    model: EnvModel,
    importing: ModuleRef,
    absolute: bool,
    segment: SegmentView,
    types_only: bool,
) -> Seq<DefId> {
    if absolute {
        match segment {
            SegmentView::Name(name) => match model.extern_root(importing.target, name) {
                Some(root) => seq![DefId::Module(root)],
                None => Seq::empty(),
            },
            _ => Seq::empty(),
        }
    } else {
        match segment {
            SegmentView::SelfKw => seq![DefId::Module(importing)],
            SegmentView::SuperKw => match model.parent_module(importing.target, importing.module) {
                Some(parent) => seq![DefId::Module(parent)],
                None => Seq::empty(),
            },
            SegmentView::CrateKw => match model.root_module(importing.target) {
                Some(root) => seq![DefId::Module(root)],
                None => Seq::empty(),
            },
            SegmentView::Name(name) => {
                let local = resolve_name(model, importing, importing, name, types_only);
                if local.len() > 0 {
                    local
                } else {
                    match model.extern_root(importing.target, name) {
                        Some(root) => seq![DefId::Module(root)],
                        None => match model.prelude_module(importing.target) {
                            Some(prelude) => resolve_name(model, importing, prelude, name, types_only),
                            None => Seq::empty(),
                        },
                    }
                }
            },
        }
    }
}

/// Definitions one more segment reaches from `current`; only modules can be walked through.
pub open spec fn resolve_next(
    model: EnvModel,
    importing: ModuleRef,
    current: Seq<DefId>,
    segment: SegmentView,
    types_only: bool,
) -> Seq<DefId>
    decreases current.len(),
{
    if current.len() == 0 {
        Seq::empty()
    } else {
        let before = resolve_next(model, importing, current.drop_last(), segment, types_only);
        match current.last() {
            DefId::Module(module) => match segment {
                SegmentView::SelfKw => push_unique(before, DefId::Module(module)),
                SegmentView::SuperKw => match model.parent_module(module.target, module.module) {
                    Some(parent) => push_unique(before, DefId::Module(parent)),
                    None => before,
                },
                SegmentView::CrateKw => match model.root_module(module.target) {
                    Some(root) => push_unique(before, DefId::Module(root)),
                    None => before,
                },
                SegmentView::Name(name) => push_all_unique(
                    before,
                    resolve_name(model, importing, module, name, types_only),
                ),
            },
            DefId::Local(_) => before,
        }
    }
}

/// Walks the segments from index `idx` on, starting from the definitions `defs`.
pub open spec fn walk_segments(
    model: EnvModel,
    importing: ModuleRef,
    defs: Seq<DefId>,
    segments: Seq<SegmentView>,
    idx: nat,
    terminal_types_only: bool,
) -> ResolveView
    decreases segments.len() - idx,
{
    if idx >= segments.len() {
        ResolveView { resolved: defs, unresolved_at: None }
    } else {
        let next = resolve_next(
            model,
            importing,
            defs,
            segments[idx as int],
            idx + 1 < segments.len() || terminal_types_only,
        );
        if next.len() == 0 {
            ResolveView { resolved: next, unresolved_at: Some(idx) }
        } else {
            walk_segments(model, importing, next, segments, idx + 1, terminal_types_only)
        }
    }
}

/// What a path denotes from `importing`. Prefix segments use only the type namespace; the last
/// segment uses every namespace unless `terminal_types_only`.
pub open spec fn resolve_path(
    model: EnvModel,
    importing: ModuleRef,
    absolute: bool,
    segments: Seq<SegmentView>,
    terminal_types_only: bool,
) -> ResolveView {
    if segments.len() == 0 {
        ResolveView { resolved: Seq::empty(), unresolved_at: Some(0) }
    } else {
        let first = resolve_first(
            model,
            importing,
            absolute,
            segments[0],
            1 < segments.len() || terminal_types_only,
        );
        if first.len() == 0 {
            ResolveView { resolved: first, unresolved_at: Some(0) }
        } else {
            walk_segments(model, importing, first, segments, 1, terminal_types_only)
        }
    }
}

// ---------------------------------------------------------------------------------------------
// Executable resolver
// ---------------------------------------------------------------------------------------------

/// Whether `defs` holds `def`.
pub fn contains_def(defs: &Vec<DefId>, def: DefId) -> (r: bool)
    ensures
        r == defs@.contains(def),
{
    let mut i: usize = 0;
    while i < defs.len()
        invariant
            i <= defs.len(),
            forall|j: int| 0 <= j < i ==> defs@[j] != def,
        decreases defs.len() - i,
    {
        if defs[i] == def {
            assert(defs@[i as int] == def);
            return true;
        }
        i = i + 1;
    }
    false
}

/// Pushes one resolved definition unless it is already present in the result list.
pub fn push_unique_def(defs: &mut Vec<DefId>, def: DefId)
    ensures
        final(defs)@ == push_unique(old(defs)@, def),
{
    if !contains_def(defs, def) {
        defs.push(def);
    }
}

/// Pushes, in order, every definition of `more` that is not already present.
pub fn push_all_unique_defs(defs: &mut Vec<DefId>, more: &Vec<DefId>)
    ensures
        final(defs)@ == push_all_unique(old(defs)@, more@),
{
    let mut i: usize = 0;
    while i < more.len()
        invariant
            i <= more.len(),
            defs@ == push_all_unique(old(defs)@, more@.subrange(0, i as int)),
        decreases more.len() - i,
    {
        proof {
            let next = more@.subrange(0, i + 1);
            assert(next.drop_last() =~= more@.subrange(0, i as int));
        }
        push_unique_def(defs, more[i]);
        i = i + 1;
    }
    assert(more@.subrange(0, more.len() as int) =~= more@);
}

/// Returns whether `module` is the same as or nested inside `ancestor`.
pub fn module_is_descendant_of<E: PathResolutionEnv>(env: &E, module: ModuleRef, ancestor: ModuleRef) -> (r: bool)
    requires
        env.model().wf(),
    ensures
        r == is_descendant(env.model(), module, ancestor),
{
    if module.target != ancestor.target {
        return false;
    }
    let ghost model = env.model();
    let mut current = module.module;
    loop
        invariant
            model == env.model(),
            model.wf(),
            module.target == ancestor.target,
            chain_reaches(model, module.target, module.module.0 as nat, ancestor.module.0 as nat)
                == chain_reaches(model, module.target, current.0 as nat, ancestor.module.0 as nat),
        decreases current.0,
    {
        if current == ancestor.module {
            return true;
        }
        let here = ModuleRef { target: module.target, module: current };
        match env.module_data(here) {
            Some(data) => match data.parent {
                Some(parent) => {
                    proof {
                        let t = model.targets[module.target.package.0 as int][module.target.target.0 as int];
                        assert(t.parents_precede());
                        assert(t.modules[current.0 as int] == data.model());
                    }
                    current = parent;
                },
                None => {
                    return false;
                },
            },
            None => {
                return false;
            },
        }
    }
}

pub open spec fn strings_view(strings: Seq<String>) -> Seq<Seq<char>> {
    strings.map_values(|s: String| s@)
}

proof fn lemma_split_from_nonempty(s: Seq<char>, start: int, i: int)
    ensures
        split_colons_from(s, start, i).len() >= 1,
    decreases s.len() - i,
{
    if i + 1 < s.len() && s[i] == ':' && s[i + 1] == ':' {
        lemma_split_from_nonempty(s, i + 2, i + 2);
    } else if i < s.len() {
        lemma_split_from_nonempty(s, start, i + 1);
    }
}

/// Splits a path text at every `::`, as `str::split("::")` does.
pub fn split_colons_exec(text: &String) -> (r: Vec<String>)
    ensures
        strings_view(r@) == split_colons(text@),
        r@.len() >= 1,
{
    let s = text.as_str();
    let n = s.unicode_len();
    let ghost sv = s@;
    let mut pieces: Vec<String> = Vec::new();
    let mut start: usize = 0;
    let mut i: usize = 0;
    while i < n
        invariant
            sv == s@,
            sv == text@,
            n == sv.len(),
            start <= i <= n,
            strings_view(pieces@) + split_colons_from(sv, start as int, i as int) == split_colons(sv),
        decreases n - i,
    {
        if i + 1 < n && s.get_char(i) == ':' && s.get_char(i + 1) == ':' {
            let piece = String::from_str(s.substring_char(start, i));
            proof {
                assert(strings_view(pieces@.push(piece)) =~= strings_view(pieces@).push(piece@));
                assert(seq![sv.subrange(start as int, i as int)] + split_colons_from(sv, i + 2, i + 2)
                    == split_colons_from(sv, start as int, i as int));
                assert(strings_view(pieces@).push(piece@) + split_colons_from(sv, i + 2, i + 2)
                    =~= strings_view(pieces@) + (seq![sv.subrange(start as int, i as int)]
                    + split_colons_from(sv, i + 2, i + 2)));
            }
            pieces.push(piece);
            start = i + 2;
            i = i + 2;
        } else {
            i = i + 1;
        }
    }
    let piece = String::from_str(s.substring_char(start, n));
    proof {
        assert(split_colons_from(sv, start as int, i as int) == seq![sv.subrange(start as int, sv.len() as int)]);
        assert(strings_view(pieces@.push(piece)) =~= strings_view(pieces@).push(piece@));
        assert(strings_view(pieces@).push(piece@) =~= strings_view(pieces@) + seq![piece@]);
        lemma_split_from_nonempty(sv, 0, 0);
    }
    pieces.push(piece);
    pieces
}

/// Resolves the module that anchors a `pub(in path)` visibility restriction.
pub fn restricted_visibility_owner<E: PathResolutionEnv>(env: &E, owner: ModuleRef, path: &String) -> (r: Option<ModuleRef>)
    ensures
        r == restricted_owner(env.model(), owner, path@),
{
    let ghost model = env.model();
    let pieces = split_colons_exec(path);
    let ghost pv = strings_view(pieces@);
    let first = &pieces[0];
    let crate_kw = String::from_str("crate");
    let self_kw = String::from_str("self");
    let super_kw = String::from_str("super");
    proof {
        reveal_strlit("crate");
        reveal_strlit("self");
        reveal_strlit("super");
        assert(pv[0] == first@);
    }
    let start = if *first == crate_kw {
        env.root_module(owner.target)
    } else if *first == self_kw {
        Some(owner)
    } else if *first == super_kw {
        match env.module_data(owner) {
            Some(data) => match data.parent {
                Some(parent) => Some(ModuleRef { target: owner.target, module: parent }),
                None => None,
            },
            None => None,
        }
    } else {
        None
    };
    let mut current = match start {
        Some(start) => start,
        None => {
            return None;
        },
    };
    let mut k: usize = 1;
    proof {
        assert(pv.drop_first() =~= pv.subrange(1, pv.len() as int));
    }
    while k < pieces.len()
        invariant
            model == env.model(),
            pv == strings_view(pieces@),
            1 <= k <= pieces.len(),
            restricted_owner(model, owner, path@) == walk_children(
                model,
                current,
                pv.subrange(k as int, pv.len() as int),
            ),
        decreases pieces.len() - k,
    {
        proof {
            let rest = pv.subrange(k as int, pv.len() as int);
            assert(rest[0] == pieces@[k as int]@);
            assert(rest.drop_first() =~= pv.subrange(k + 1, pv.len() as int));
        }
        let child = match env.module_data(current) {
            Some(data) => data.child(&pieces[k]),
            None => None,
        };
        match child {
            Some(child) => {
                current = ModuleRef { target: current.target, module: child };
            },
            None => {
                return None;
            },
        }
        k = k + 1;
    }
    Some(current)
}

/// Checks whether a binding can be observed from the importing module.
pub fn binding_is_visible<E: PathResolutionEnv>(env: &E, importing: ModuleRef, binding: &ScopeBinding) -> (r: bool)
    requires
        env.model().wf(),
    ensures
        r == binding_visible(env.model(), importing, binding@),
{
    if let VisibilityLevel::Public = binding.visibility {
        return true;
    }
    // Non-public visibility is always anchored to a module inside the target that introduced the
    // binding. Cross-target access therefore needs a public re-export first.
    if importing.target != binding.owner.target {
        return false;
    }
    match &binding.visibility {
        VisibilityLevel::Private | VisibilityLevel::Self_ => module_is_descendant_of(
            env,
            importing,
            binding.owner,
        ),
        VisibilityLevel::Crate => true,
        VisibilityLevel::Super => {
            let parent = match env.module_data(binding.owner) {
                Some(data) => match data.parent {
                    Some(parent) => Some(ModuleRef { target: binding.owner.target, module: parent }),
                    None => None,
                },
                None => None,
            };
            match parent {
                Some(visible_from) => module_is_descendant_of(env, importing, visible_from),
                None => false,
            }
        },
        VisibilityLevel::Restricted(path) => match restricted_visibility_owner(
            env,
            binding.owner,
            path,
        ) {
            Some(visible_from) => module_is_descendant_of(env, importing, visible_from),
            None => false,
        },
        VisibilityLevel::Public => true,
        VisibilityLevel::Unknown(_) => false,
    }
}

/// Which namespaces a name lookup consults.
#[derive(Debug, Clone, Copy, PartialEq, Eq, Structural)]
pub enum NameResolutionFilter {
    AllNamespaces,
    TypesOnly,
}

impl NameResolutionFilter {
    /// Qualified path prefixes use only the type namespace; terminal segments use every namespace.
    pub fn for_path_prefix(path_prefix: bool) -> (r: Self)
        ensures
            r == (if path_prefix {
                NameResolutionFilter::TypesOnly
            } else {
                NameResolutionFilter::AllNamespaces
            }),
    {
        if path_prefix {
            NameResolutionFilter::TypesOnly
        } else {
            NameResolutionFilter::AllNamespaces
        }
    }
}

/// Pushes the definitions of the visible bindings of a bucket.
fn push_visible_defs<E: PathResolutionEnv>(
    env: &E,
    importing: ModuleRef,
    defs: &mut Vec<DefId>,
    bindings: &Vec<ScopeBinding>,
)
    requires
        env.model().wf(),
    ensures
        final(defs)@ == push_visible(env.model(), importing, old(defs)@, bindings_view(bindings@)),
{
    let mut i: usize = 0;
    while i < bindings.len()
        invariant
            env.model().wf(),
            i <= bindings.len(),
            defs@ == push_visible(
                env.model(),
                importing,
                old(defs)@,
                bindings_view(bindings@.subrange(0, i as int)),
            ),
        decreases bindings.len() - i,
    {
        proof {
            let next = bindings_view(bindings@.subrange(0, i + 1));
            assert(next.drop_last() =~= bindings_view(bindings@.subrange(0, i as int)));
            assert(next.last() == bindings@[i as int]@);
        }
        if binding_is_visible(env, importing, &bindings[i]) {
            push_unique_def(defs, bindings[i].def);
        }
        i = i + 1;
    }
    assert(bindings@.subrange(0, bindings.len() as int) =~= bindings@);
}

/// Resolves one textual name inside one module scope, visibility-filtered from the perspective
/// of the importing module.
pub fn resolve_name_in_module<E: PathResolutionEnv>(
    env: &E,
    importing: ModuleRef,
    module: ModuleRef,
    name: &String,
    filter: NameResolutionFilter,
) -> (r: Vec<DefId>)
    requires
        env.model().wf(),
    ensures
        r@ == resolve_name(env.model(), importing, module, name@, filter == NameResolutionFilter::TypesOnly),
{
    let scope = match env.module_scope(module) {
        Some(scope) => scope,
        None => {
            return Vec::new();
        },
    };
    let entry = match scope.entry(name) {
        Some(entry) => entry,
        None => {
            return Vec::new();
        },
    };
    let mut defs: Vec<DefId> = Vec::new();
    proof {
        assert(defs@ =~= Seq::<DefId>::empty());
    }
    push_visible_defs(env, importing, &mut defs, &entry.types);
    if let NameResolutionFilter::TypesOnly = filter {
        return defs;
    }
    push_visible_defs(env, importing, &mut defs, &entry.values);
    push_visible_defs(env, importing, &mut defs, &entry.macros);
    defs
}

/// Resolves the first path segment, which decides the starting search space.
pub fn resolve_first_segment<E: PathResolutionEnv>(
    env: &E,
    importing: ModuleRef,
    absolute: bool,
    segment: &PathSegment,
    path_prefix: bool,
) -> (r: Vec<DefId>)
    requires
        env.model().wf(),
    ensures
        r@ == resolve_first(env.model(), importing, absolute, segment@, path_prefix),
{
    if absolute {
        return match segment {
            PathSegment::Name(name) => match env.extern_root(importing.target, name) {
                Some(root) => {
                    let r = vec![DefId::Module(root)];
                    assert(r@ =~= seq![DefId::Module(root)]);
                    r
                },
                None => Vec::new(),
            },
            PathSegment::SelfKw | PathSegment::SuperKw | PathSegment::CrateKw => Vec::new(),
        };
    }
    match segment {
        PathSegment::SelfKw => {
            let r = vec![DefId::Module(importing)];
            assert(r@ =~= seq![DefId::Module(importing)]);
            r
        },
        PathSegment::SuperKw => {
            let parent = match env.module_data(importing) {
                Some(data) => match data.parent {
                    Some(parent) => Some(ModuleRef { target: importing.target, module: parent }),
                    None => None,
                },
                None => None,
            };
            match parent {
                Some(parent) => {
                    let r = vec![DefId::Module(parent)];
                    assert(r@ =~= seq![DefId::Module(parent)]);
                    r
                },
                None => Vec::new(),
            }
        },
        PathSegment::CrateKw => match env.root_module(importing.target) {
            Some(root) => {
                let r = vec![DefId::Module(root)];
                assert(r@ =~= seq![DefId::Module(root)]);
                r
            },
            None => Vec::new(),
        },
        PathSegment::Name(name) => {
            // Local type-namespace bindings shadow extern roots for qualified paths. Value and
            // macro bindings do not, because they cannot be used as a `foo::bar` prefix.
            let filter = NameResolutionFilter::for_path_prefix(path_prefix);
            let local_defs = resolve_name_in_module(env, importing, importing, name, filter);
            if local_defs.len() > 0 {
                return local_defs;
            }
            if let Some(root) = env.extern_root(importing.target, name) {
                let r = vec![DefId::Module(root)];
                assert(r@ =~= seq![DefId::Module(root)]);
                return r;
            }
            match env.prelude_module(importing.target) {
                Some(prelude) => resolve_name_in_module(env, importing, prelude, name, filter),
                None => Vec::new(),
            }
        },
    }
}

/// Resolves every path segment after the first one. Only modules can be walked through, so any
/// non-module intermediate definition is discarded.
pub fn resolve_next_segment<E: PathResolutionEnv>(
    env: &E,
    importing: ModuleRef,
    current_defs: &Vec<DefId>,
    segment: &PathSegment,
    path_prefix: bool,
) -> (r: Vec<DefId>)
    requires
        env.model().wf(),
    ensures
        r@ == resolve_next(env.model(), importing, current_defs@, segment@, path_prefix),
{
    let mut next_defs: Vec<DefId> = Vec::new();
    let mut i: usize = 0;
    proof {
        assert(current_defs@.subrange(0, 0) =~= Seq::<DefId>::empty());
    }
    while i < current_defs.len()
        invariant
            env.model().wf(),
            i <= current_defs.len(),
            next_defs@ == resolve_next(
                env.model(),
                importing,
                current_defs@.subrange(0, i as int),
                segment@,
                path_prefix,
            ),
        decreases current_defs.len() - i,
    {
        proof {
            let next = current_defs@.subrange(0, i + 1);
            assert(next.drop_last() =~= current_defs@.subrange(0, i as int));
        }
        match current_defs[i] {
            DefId::Module(module) => match segment {
                PathSegment::SelfKw => {
                    push_unique_def(&mut next_defs, DefId::Module(module));
                },
                PathSegment::SuperKw => {
                    let parent = match env.module_data(module) {
                        Some(data) => match data.parent {
                            Some(parent) => Some(ModuleRef { target: module.target, module: parent }),
                            None => None,
                        },
                        None => None,
                    };
                    if let Some(parent) = parent {
                        push_unique_def(&mut next_defs, DefId::Module(parent));
                    }
                },
                PathSegment::CrateKw => {
                    if let Some(root) = env.root_module(module.target) {
                        push_unique_def(&mut next_defs, DefId::Module(root));
                    }
                },
                PathSegment::Name(name) => {
                    let resolved = resolve_name_in_module(
                        env,
                        importing,
                        module,
                        name,
                        NameResolutionFilter::for_path_prefix(path_prefix),
                    );
                    push_all_unique_defs(&mut next_defs, &resolved);
                },
            },
            DefId::Local(_) => {},
        }
        i = i + 1;
    }
    assert(current_defs@.subrange(0, current_defs.len() as int) =~= current_defs@);
    next_defs
}

/// Walks a path through one resolution environment.
pub fn resolve_path_with_env<E: PathResolutionEnv>(
    env: &E,
    importing: ModuleRef,
    absolute: bool,
    segments: &Vec<PathSegment>,
    terminal_types_only: bool,
) -> (r: ResolvePathResult)
    requires
        env.model().wf(),
    ensures
        r@ == resolve_path(env.model(), importing, absolute, segments_view(segments@), terminal_types_only),
{
    let ghost sv = segments_view(segments@);
    if segments.len() == 0 {
        return ResolvePathResult { resolved: Vec::new(), unresolved_at: Some(0) };
    }
    let n = segments.len();
    let mut current_defs = resolve_first_segment(
        env,
        importing,
        absolute,
        &segments[0],
        1 < n || terminal_types_only,
    );
    if current_defs.len() == 0 {
        return ResolvePathResult { resolved: current_defs, unresolved_at: Some(0) };
    }
    let mut idx: usize = 1;
    while idx < n
        invariant
            env.model().wf(),
            sv == segments_view(segments@),
            n == segments.len(),
            1 <= idx <= n,
            resolve_path(env.model(), importing, absolute, sv, terminal_types_only)
                == walk_segments(env.model(), importing, current_defs@, sv, idx as nat, terminal_types_only),
        decreases n - idx,
    {
        let next_defs = resolve_next_segment(
            env,
            importing,
            &current_defs,
            &segments[idx],
            idx + 1 < n || terminal_types_only,
        );
        if next_defs.len() == 0 {
            return ResolvePathResult { resolved: next_defs, unresolved_at: Some(idx) };
        }
        current_defs = next_defs;
        idx = idx + 1;
    }
    ResolvePathResult { resolved: current_defs, unresolved_at: None }
}

} // verus!
