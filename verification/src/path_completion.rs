//! Qualified-path completion over module scopes: where in an import path the cursor asks for
//! members, and which definitions of a module are visible there, in display order.

use vstd::prelude::*;

use crate::db::{DefMapDb, FrozenResolutionEnv};
use crate::def_map::{DefMap, ImportSourcePath, ImportSourcePathSegment};
use crate::ids::{DefId, ModuleRef, TargetRef};
use crate::imports::{unique_names, visible_module_scope_entry_set, visible_scope};
use crate::scope::{names_map, scope_items, BindingView, EntryView, ScopeBinding};
use crate::path::{Path, PathSegment};
use crate::text::{FileId, Span, TextSpan, decimal, push_decimal};

verus! {

/// Source site selected for a qualified import-path completion query.
#[derive(Debug)]
pub struct DefMapPathCompletionSite {
    pub module: ModuleRef,
    /// Path before the segment being completed.
    pub qualifier: Path,
    /// Segment prefix already typed after `::`.
    pub member_prefix_span: Span,
}

/// The plain segments of source segments.
pub open spec fn plain_segments(segments: Seq<ImportSourcePathSegment>) -> Seq<PathSegment> {
    segments.map_values(|s: ImportSourcePathSegment| s.segment)
}

/// The first segment at index `from` or later whose span touches `offset`.
pub open spec fn first_touching(segments: Seq<ImportSourcePathSegment>, offset: u32, from: int) -> Option<int>
    decreases segments.len() - from,
{
    if from < 0 || from >= segments.len() {
        None
    } else if segments[from].span.spec_touches(offset) {
        Some(from)
    } else {
        first_touching(segments, offset, from + 1)
    }
}

/// Plain model of a completion site: module, qualifier and typed prefix span.
pub struct SiteView {
    pub module: ModuleRef,
    pub absolute: bool,
    pub qualifier: Seq<PathSegment>,
    pub member_prefix_span: Span,
}

impl View for DefMapPathCompletionSite {
    type V = SiteView;

    open spec fn view(&self) -> SiteView {
        SiteView {
            module: self.module,
            absolute: self.qualifier.absolute,
            qualifier: self.qualifier.segments@,
            member_prefix_span: self.member_prefix_span,
        }
    }
}

/// The completion site that an import path of `module` offers at `offset`, with the length of
/// the source it spans: a segment after the first that the cursor touches, completed with the
/// segments before it as qualifier; otherwise an empty segment after a trailing `::`, between
/// the end of the last segment and the end of the path's source.
pub open spec fn import_path_site(module: ModuleRef, path: ImportSourcePath, offset: u32) -> Option<(SiteView, u32)> {
    let segments = path.segments@;
    match first_touching(segments, offset, 1) {
        Some(idx) => Some(
            (
                SiteView {
                    module,
                    absolute: path.absolute,
                    qualifier: plain_segments(segments.take(idx)),
                    member_prefix_span: segments[idx].span,
                },
                match path.source_span {
                    Some(s) => s.spec_len(),
                    None => segments[idx].span.spec_len(),
                },
            ),
        ),
        None => match path.source_span {
            Some(source_span) => if segments.len() == 0 {
                None
            } else {
                let last_end = segments.last().span.text.end;
                if source_span.text.end <= last_end || !(last_end <= offset && offset <= source_span.text.end) {
                    None
                } else {
                    Some(
                        (
                            SiteView {
                                module,
                                absolute: path.absolute,
                                qualifier: plain_segments(segments),
                                member_prefix_span: Span { text: TextSpan { start: offset, end: offset } },
                            },
                            source_span.spec_len(),
                        ),
                    )
                }
            },
            None => None,
        },
    }
}

/// Copies the plain segments of the first `n` source segments.
fn qualifier_segments(segments: &Vec<ImportSourcePathSegment>, n: usize) -> (r: Vec<PathSegment>)
    requires
        n <= segments@.len(),
    ensures
        r@ == plain_segments(segments@.take(n as int)),
{
    let mut out: Vec<PathSegment> = Vec::new();
    let mut i: usize = 0;
    while i < n
        invariant
            i <= n,
            n <= segments@.len(),
            out@ == plain_segments(segments@.take(i as int)),
        decreases n - i,
    {
        out.push(segments[i].segment.duplicate());
        proof {
            assert(segments@.take(i + 1) =~= segments@.take(i as int).push(segments@[i as int]));
            assert(plain_segments(segments@.take(i + 1)) =~= plain_segments(segments@.take(i as int)).push(
                segments@[i as int].segment,
            ));
        }
        i = i + 1;
    }
    out
}

/// Finds either a partially typed path segment or an empty segment after a trailing `::`.
pub fn site_for_import_path(module: ModuleRef, path: &ImportSourcePath, offset: u32) -> (r: Option<(DefMapPathCompletionSite, u32)>)
    ensures
        match r {
            Some((site, len)) => import_path_site(module, *path, offset) == Some((site@, len)),
            None => import_path_site(module, *path, offset) is None,
        },
{
    let mut idx: usize = 1;
    while idx < path.segments.len()
        invariant
            1 <= idx,
            first_touching(path.segments@, offset, 1) == first_touching(path.segments@, offset, idx as int),
        decreases path.segments.len() - idx,
    {
        let segment = &path.segments[idx];
        if segment.span.touches(offset) {
            let qualifier = Path { absolute: path.absolute, segments: qualifier_segments(&path.segments, idx) };
            let len = match path.source_span {
                Some(s) => s.len(),
                None => segment.span.len(),
            };
            return Some((DefMapPathCompletionSite { module, qualifier, member_prefix_span: segment.span }, len));
        }
        idx = idx + 1;
    }
    let source_span = match path.source_span {
        Some(s) => s,
        None => return None,
    };
    if path.segments.len() == 0 {
        return None;
    }
    let last_end = path.segments[path.segments.len() - 1].span.text.end;
    let offset_after_last_segment = last_end <= offset && offset <= source_span.text.end;
    if source_span.text.end <= last_end || !offset_after_last_segment {
        return None;
    }
    let qualifier = Path { absolute: path.absolute, segments: qualifier_segments(&path.segments, path.segments.len()) };
    proof {
        assert(path.segments@.take(path.segments@.len() as int) =~= path.segments@);
    }
    Some(
        (
            DefMapPathCompletionSite {
                module,
                qualifier,
                member_prefix_span: Span { text: TextSpan { start: offset, end: offset } },
            },
            source_span.len(),
        ),
    )
}

/// Among the first `n` imports of `def_map` that come from `file_id`, the completion site whose
/// source is shortest; the first one wins a tie.
pub open spec fn best_import_site(def_map: DefMap, target: TargetRef, file_id: FileId, offset: u32, n: int) -> Option<(SiteView, u32)>
    decreases n,
{
    if n <= 0 || n > def_map.imports@.len() {
        None
    } else {
        let before = best_import_site(def_map, target, file_id, offset, n - 1);
        let import = def_map.imports@[n - 1];
        if import.source.file_id != file_id {
            before
        } else {
            match import_path_site(ModuleRef { target, module: import.module }, import.source_path, offset) {
                Some(candidate) => match before {
                    Some(best) => if candidate.1 < best.1 {
                        Some(candidate)
                    } else {
                        before
                    },
                    None => Some(candidate),
                },
                None => before,
            }
        }
    }
}

/// Scans the import paths of one target for the innermost completion site at `offset`.
pub fn scan_import_paths(def_map: &DefMap, target: TargetRef, file_id: FileId, offset: u32) -> (r: Option<DefMapPathCompletionSite>)
    ensures
        match best_import_site(*def_map, target, file_id, offset, def_map.imports@.len() as int) {
            Some((site, _)) => r matches Some(s) && s@ == site,
            None => r is None,
        },
{
    let mut best: Option<(DefMapPathCompletionSite, u32)> = None;
    let mut i: usize = 0;
    while i < def_map.imports.len()
        invariant
            i <= def_map.imports@.len(),
            match best_import_site(*def_map, target, file_id, offset, i as int) {
                Some((site, len)) => best matches Some(b) && b.0@ == site && b.1 == len,
                None => best is None,
            },
        decreases def_map.imports.len() - i,
    {
        let import = &def_map.imports[i];
        if import.source.file_id == file_id {
            let module = ModuleRef { target, module: import.module };
            match site_for_import_path(module, &import.source_path, offset) {
                Some((site, source_len)) => {
                    let replace = match &best {
                        Some(b) => source_len < b.1,
                        None => true,
                    };
                    if replace {
                        best = Some((site, source_len));
                    }
                },
                None => {},
            }
        }
        i = i + 1;
    }
    match best {
        Some(b) => Some(b.0),
        None => None,
    }
}

impl DefMapDb {
    /// Returns the source site for a qualified import-path completion query, when the target's
    /// def map is resident.
    pub fn path_completion_site(&self, target: TargetRef, file_id: FileId, offset: u32) -> (r: Option<DefMapPathCompletionSite>)
        ensures
            match self.resident_target(target) {
                Some(def_map) => match best_import_site(def_map, target, file_id, offset, def_map.imports@.len() as int) {
                    Some((site, _)) => r matches Some(s) && s@ == site,
                    None => r is None,
                },
                None => r is None,
            },
    {
        match self.resident_def_map(target) {
            Some(def_map) => scan_import_paths(def_map, target, file_id, offset),
            None => None,
        }
    }
}

/// Namespace slot occupied by a visible module-scope definition.
#[derive(Debug, Clone, Copy, PartialEq, Eq, Structural)]
pub enum ScopeNamespace {
    Types,
    Values,
    Macros,
}

/// Display rank of a namespace: types, then values, then macros.
pub open spec fn namespace_rank(namespace: ScopeNamespace) -> u8 {
    match namespace {
        ScopeNamespace::Types => 0,
        ScopeNamespace::Values => 1,
        ScopeNamespace::Macros => 2,
    }
}

impl ScopeNamespace {
    /// Display rank of the namespace: types, then values, then macros.
    pub fn sort_rank(self) -> (r: u8)
        ensures
            r == namespace_rank(self),
    {
        match self {
            ScopeNamespace::Types => 0,
            ScopeNamespace::Values => 1,
            ScopeNamespace::Macros => 2,
        }
    }
}

/// One definition visible from a module through another module's scope.
#[derive(Debug)]
pub struct VisibleScopeDef {
    pub label: String,
    pub namespace: ScopeNamespace,
    pub def: DefId,
}

/// Plain model of a visible definition.
pub struct VisibleDefView {
    pub label: Seq<char>,
    pub namespace: ScopeNamespace,
    pub def: DefId,
}

impl View for VisibleScopeDef {
    type V = VisibleDefView;

    open spec fn view(&self) -> VisibleDefView {
        VisibleDefView { label: self.label@, namespace: self.namespace, def: self.def }
    }
}

/// The definitions of one namespace bucket under `label`.
pub open spec fn bucket_defs(label: Seq<char>, namespace: ScopeNamespace, bucket: Seq<BindingView>) -> Seq<VisibleDefView> {
    bucket.map_values(|b: BindingView| VisibleDefView { label, namespace, def: b.def })
}

/// The definitions of one entry: its types, then its values, then its macros.
pub open spec fn entry_defs(label: Seq<char>, entry: EntryView) -> Seq<VisibleDefView> {
    bucket_defs(label, ScopeNamespace::Types, entry.types) + bucket_defs(label, ScopeNamespace::Values, entry.values)
        + bucket_defs(label, ScopeNamespace::Macros, entry.macros)
}

/// The definitions of every entry, entry by entry.
pub open spec fn scope_defs(items: Seq<(Seq<char>, EntryView)>) -> Seq<VisibleDefView>
    decreases items.len(),
{
    if items.len() == 0 {
        Seq::empty()
    } else {
        scope_defs(items.drop_last()) + entry_defs(items.last().0, items.last().1)
    }
}

/// The text of a target reference, as its derived `Debug` prints it.
pub open spec fn target_ref_text(t: TargetRef) -> Seq<char> {
    "TargetRef { package: PackageSlot("@ + decimal(t.package.0 as nat) + "), target: TargetId("@ + decimal(t.target.0 as nat)
        + ") }"@
}

/// The text of a definition, as its derived `Debug` prints it; it breaks ties between
/// definitions shown under one label.
pub open spec fn def_debug_text(def: DefId) -> Seq<char> {
    match def {
        DefId::Module(m) => "Module(ModuleRef { target: "@ + target_ref_text(m.target) + ", module: ModuleId("@ + decimal(
            m.module.0 as nat,
        ) + ") })"@,
        DefId::Local(l) => "Local(LocalDefRef { target: "@ + target_ref_text(l.target) + ", local_def: LocalDefId("@
            + decimal(l.local_def.0 as nat) + ") })"@,
    }
}

fn push_target_ref_text(out: &mut String, t: TargetRef)
    ensures
        final(out)@ == old(out)@ + target_ref_text(t),
{
    out.append("TargetRef { package: PackageSlot(");
    push_decimal(out, t.package.0);
    out.append("), target: TargetId(");
    push_decimal(out, t.target.0);
    out.append(") }");
    proof {
        assert(out@ =~= old(out)@ + target_ref_text(t));
    }
}

/// The text of a definition, as [`def_debug_text`] states.
pub fn debug_text(def: &DefId) -> (r: String)
    ensures
        r@ == def_debug_text(*def),
{
    match def {
        DefId::Module(m) => {
            let mut out = String::from_str("Module(ModuleRef { target: ");
            push_target_ref_text(&mut out, m.target);
            out.append(", module: ModuleId(");
            push_decimal(&mut out, m.module.0);
            out.append(") })");
            proof {
                assert(out@ =~= def_debug_text(*def));
            }
            out
        },
        DefId::Local(l) => {
            let mut out = String::from_str("Local(LocalDefRef { target: ");
            push_target_ref_text(&mut out, l.target);
            out.append(", local_def: LocalDefId(");
            push_decimal(&mut out, l.local_def.0);
            out.append(") })");
            proof {
                assert(out@ =~= def_debug_text(*def));
            }
            out
        },
    }
}

/// Lexicographic comparison of `a` and `b` from index `i` on, by character: negative, zero or
/// positive.
pub open spec fn chars_order_from(a: Seq<char>, b: Seq<char>, i: int) -> int
    decreases a.len() + b.len() - 2 * i,
{
    if i < 0 {
        0
    } else if i >= a.len() && i >= b.len() {
        0
    } else if i >= a.len() {
        -1
    } else if i >= b.len() {
        1
    } else if (a[i] as u32) < (b[i] as u32) {
        -1
    } else if (a[i] as u32) > (b[i] as u32) {
        1
    } else {
        chars_order_from(a, b, i + 1)
    }
}

/// Lexicographic comparison of two texts by character, as `str` orders them.
pub open spec fn chars_order(a: Seq<char>, b: Seq<char>) -> int {
    chars_order_from(a, b, 0)
}

pub proof fn lemma_chars_order_antisym(a: Seq<char>, b: Seq<char>, i: int)
    requires
        i >= 0,
    ensures
        chars_order_from(a, b, i) == -chars_order_from(b, a, i),
    decreases a.len() + b.len() - 2 * i,
{
    if i < a.len() && i < b.len() && a[i] == b[i] {
        lemma_chars_order_antisym(a, b, i + 1);
    } else if i < a.len() && i < b.len() && (a[i] as u32) == (b[i] as u32) {
        lemma_chars_order_antisym(a, b, i + 1);
    }
}

pub proof fn lemma_chars_order_trans(a: Seq<char>, b: Seq<char>, c: Seq<char>, i: int)
    requires
        i >= 0,
        chars_order_from(a, b, i) <= 0,
        chars_order_from(b, c, i) <= 0,
    ensures
        chars_order_from(a, c, i) <= 0,
        chars_order_from(a, b, i) < 0 || chars_order_from(b, c, i) < 0 ==> chars_order_from(a, c, i) < 0,
    decreases a.len() + b.len() + c.len() - 3 * i,
{
    if i < a.len() && i < b.len() && i < c.len() && (a[i] as u32) == (b[i] as u32) && (b[i] as u32) == (c[i] as u32) {
        lemma_chars_order_trans(a, b, c, i + 1);
    }
}

/// Compares two texts by character.
pub fn text_order(a: &String, b: &String) -> (r: i8)
    ensures
        r as int == chars_order(a@, b@),
{
    let n = a.as_str().unicode_len();
    let m = b.as_str().unicode_len();
    let mut i: usize = 0;
    while i < n && i < m
        invariant
            n == a@.len(),
            m == b@.len(),
            i <= n,
            i <= m,
            chars_order(a@, b@) == chars_order_from(a@, b@, i as int),
        decreases n - i,
    {
        let x = a.as_str().get_char(i);
        let y = b.as_str().get_char(i);
        if (x as u32) < (y as u32) {
            return -1;
        }
        if (x as u32) > (y as u32) {
            return 1;
        }
        i = i + 1;
    }
    if i < n {
        1
    } else if i < m {
        -1
    } else {
        0
    }
}

/// Display order of visible definitions: by label, then namespace rank, then the definition's
/// debug text; negative, zero or positive.
pub open spec fn def_key_order(x: VisibleDefView, y: VisibleDefView) -> int {
    if chars_order(x.label, y.label) != 0 {
        chars_order(x.label, y.label)
    } else if namespace_rank(x.namespace) < namespace_rank(y.namespace) {
        -1
    } else if namespace_rank(x.namespace) > namespace_rank(y.namespace) {
        1
    } else {
        chars_order(def_debug_text(x.def), def_debug_text(y.def))
    }
}

proof fn lemma_key_antisym(x: VisibleDefView, y: VisibleDefView)
    ensures
        def_key_order(x, y) == -def_key_order(y, x),
{
    lemma_chars_order_antisym(x.label, y.label, 0);
    lemma_chars_order_antisym(def_debug_text(x.def), def_debug_text(y.def), 0);
}

proof fn lemma_key_trans(x: VisibleDefView, y: VisibleDefView, z: VisibleDefView)
    requires
        def_key_order(x, y) <= 0,
        def_key_order(y, z) <= 0,
    ensures
        def_key_order(x, z) <= 0,
        def_key_order(x, y) < 0 ==> def_key_order(x, z) < 0,
{
    lemma_chars_order_antisym(x.label, y.label, 0);
    lemma_chars_order_antisym(y.label, z.label, 0);
    lemma_chars_order_antisym(x.label, z.label, 0);
    if chars_order(x.label, y.label) <= 0 && chars_order(y.label, z.label) <= 0 {
        lemma_chars_order_trans(x.label, y.label, z.label, 0);
    }
    let (dx, dy, dz) = (def_debug_text(x.def), def_debug_text(y.def), def_debug_text(z.def));
    if chars_order(dx, dy) <= 0 && chars_order(dy, dz) <= 0 {
        lemma_chars_order_trans(dx, dy, dz, 0);
    }
    if chars_order(x.label, y.label) == 0 && chars_order(y.label, z.label) == 0 {
        lemma_chars_order_trans(x.label, y.label, z.label, 0);
        lemma_chars_order_trans(z.label, y.label, x.label, 0);
        lemma_chars_order_antisym(z.label, x.label, 0);
    }
}

/// Every definition comes no later in display order than the ones after it.
pub open spec fn defs_sorted(defs: Seq<VisibleDefView>) -> bool {
    forall|i: int, j: int| 0 <= i < j < defs.len() ==> def_key_order(#[trigger] defs[i], #[trigger] defs[j]) <= 0
}

/// The views of a list of visible definitions.
pub open spec fn defs_view(defs: Seq<VisibleScopeDef>) -> Seq<VisibleDefView> {
    defs.map_values(|d: VisibleScopeDef| d@)
}

/// Compares two visible definitions in display order.
fn def_order(x: &VisibleScopeDef, y: &VisibleScopeDef) -> (r: i8)
    ensures
        r as int == def_key_order(x@, y@),
{
    let c = text_order(&x.label, &y.label);
    if c != 0 {
        return c;
    }
    let rx = x.namespace.sort_rank();
    let ry = y.namespace.sort_rank();
    if rx < ry {
        return -1;
    }
    if rx > ry {
        return 1;
    }
    text_order(&debug_text(&x.def), &debug_text(&y.def))
}

/// Inserts `def` after every definition that does not come after it.
fn insert_sorted(defs: &mut Vec<VisibleScopeDef>, def: VisibleScopeDef)
    requires
        defs_sorted(defs_view(old(defs)@)),
    ensures
        defs_sorted(defs_view(final(defs)@)),
        defs_view(final(defs)@).to_multiset() == defs_view(old(defs)@).to_multiset().insert(def@),
{
    let ghost old_view = defs_view(defs@);
    let mut pos: usize = 0;
    while pos < defs.len()
        invariant
            pos <= defs@.len(),
            defs_view(defs@) == old_view,
            defs_sorted(old_view),
            forall|k: int| 0 <= k < pos ==> def_key_order(def@, #[trigger] old_view[k]) >= 0,
        ensures
            pos <= defs@.len(),
            defs_view(defs@) == old_view,
            forall|k: int| 0 <= k < pos ==> def_key_order(def@, #[trigger] old_view[k]) >= 0,
            pos < defs@.len() ==> def_key_order(def@, old_view[pos as int]) < 0,
        decreases defs.len() - pos,
    {
        if def_order(&def, &defs[pos]) < 0 {
            break;
        }
        pos = pos + 1;
    }
    let ghost dv = def@;
    defs.insert(pos, def);
    proof {
        let nv = defs_view(defs@);
        assert(nv =~= old_view.insert(pos as int, dv));
        vstd::seq_lib::to_multiset_insert(old_view, pos as int, dv);
        assert forall|i: int, j: int| 0 <= i < j < nv.len() implies def_key_order(#[trigger] nv[i], #[trigger] nv[j]) <= 0 by {
            if j < pos {
                assert(nv[i] == old_view[i] && nv[j] == old_view[j]);
            } else if j == pos {
                assert(nv[i] == old_view[i]);
                lemma_key_antisym(dv, old_view[i]);
            } else if i == pos {
                assert(nv[i] == dv);
                assert(nv[j] == old_view[j - 1]);
                if j - 1 > pos {
                    assert(def_key_order(old_view[pos as int], old_view[j - 1]) <= 0);
                    lemma_key_trans(dv, old_view[pos as int], old_view[j - 1]);
                }
            } else if i < pos {
                assert(nv[i] == old_view[i] && nv[j] == old_view[j - 1]);
            } else {
                assert(nv[i] == old_view[i - 1] && nv[j] == old_view[j - 1]);
            }
        }
    }
}

/// Appends the definitions of one bucket under `label`.
fn push_bucket_defs(defs: &mut Vec<VisibleScopeDef>, label: &String, namespace: ScopeNamespace, bucket: &Vec<ScopeBinding>)
    requires
        defs_sorted(defs_view(old(defs)@)),
    ensures
        defs_sorted(defs_view(final(defs)@)),
        defs_view(final(defs)@).to_multiset() == defs_view(old(defs)@).to_multiset().add(
            bucket_defs(label@, namespace, crate::scope::bindings_view(bucket@)).to_multiset(),
        ),
{
    let ghost start = defs_view(defs@).to_multiset();
    let ghost all = bucket_defs(label@, namespace, crate::scope::bindings_view(bucket@));
    let mut i: usize = 0;
    proof {
        broadcast use vstd::multiset::group_multiset_axioms;
        assert(all.take(0) =~= Seq::<VisibleDefView>::empty());
        vstd::seq_lib::to_multiset_len(Seq::<VisibleDefView>::empty());
        vstd::multiset::lemma_multiset_empty_len(Seq::<VisibleDefView>::empty().to_multiset());
        assert(start.add(Seq::<VisibleDefView>::empty().to_multiset()) =~= start);
    }
    while i < bucket.len()
        invariant
            i <= bucket@.len(),
            all == bucket_defs(label@, namespace, crate::scope::bindings_view(bucket@)),
            defs_sorted(defs_view(defs@)),
            defs_view(defs@).to_multiset() == start.add(all.take(i as int).to_multiset()),
        decreases bucket.len() - i,
    {
        let def = VisibleScopeDef { label: label.clone(), namespace, def: bucket[i].def };
        proof {
            assert(def@ == all[i as int]);
            assert(all.take(i + 1) =~= all.take(i as int).push(all[i as int]));
            vstd::seq_lib::to_multiset_build(all.take(i as int), all[i as int]);
        }
        insert_sorted(defs, def);
        proof {
            assert(start.add(all.take(i + 1).to_multiset()) =~= start.add(all.take(i as int).to_multiset()).insert(all[i as int]));
        }
        i = i + 1;
    }
    proof {
        assert(all.take(bucket@.len() as int) =~= all);
    }
}

impl DefMapDb {
    /// Returns the definitions of `source_module` visible from `importing_module`, one per
    /// binding of each visible namespace bucket, ordered by label, then namespace (types,
    /// values, macros), then the definition's debug text.
    pub fn visible_scope_defs(&self, importing_module: ModuleRef, source_module: ModuleRef) -> (r: Vec<VisibleScopeDef>)
        ensures
            defs_sorted(defs_view(r@)),
            exists|items: Seq<(Seq<char>, EntryView)>|
                unique_names(items) && names_map(items) == visible_scope(self.model(), importing_module, source_module)
                    && defs_view(r@).to_multiset() == #[trigger] scope_defs(items).to_multiset(),
    {
        proof {
            use_type_invariant(self);
            self.lemma_model_wf();
        }
        let env = FrozenResolutionEnv { db: self };
        let entries = visible_module_scope_entry_set(&env, importing_module, source_module);
        let ghost items = scope_items(entries@);
        let mut defs: Vec<VisibleScopeDef> = Vec::new();
        let mut i: usize = 0;
        proof {
            broadcast use vstd::multiset::group_multiset_axioms;
            assert(items.take(0) =~= Seq::<(Seq<char>, EntryView)>::empty());
            vstd::seq_lib::to_multiset_len(defs_view(defs@));
            vstd::multiset::lemma_multiset_empty_len(defs_view(defs@).to_multiset());
            vstd::seq_lib::to_multiset_len(Seq::<VisibleDefView>::empty());
            vstd::multiset::lemma_multiset_empty_len(Seq::<VisibleDefView>::empty().to_multiset());
            assert(scope_defs(items.take(0)) =~= Seq::<VisibleDefView>::empty());
            assert(defs_view(defs@).to_multiset() =~= vstd::multiset::Multiset::empty());
        }
        while i < entries.len()
            invariant
                i <= entries@.len(),
                items == scope_items(entries@),
                defs_sorted(defs_view(defs@)),
                defs_view(defs@).to_multiset() == scope_defs(items.take(i as int)).to_multiset(),
            decreases entries.len() - i,
        {
            let name = &entries[i].name;
            let entry = &entries[i].entry;
            let ghost before = defs_view(defs@).to_multiset();
            push_bucket_defs(&mut defs, name, ScopeNamespace::Types, entry.types());
            push_bucket_defs(&mut defs, name, ScopeNamespace::Values, entry.values());
            push_bucket_defs(&mut defs, name, ScopeNamespace::Macros, entry.macros());
            proof {
                let e = entry@;
                assert(items[i as int] == (name@, e));
                assert(items.take(i + 1).drop_last() =~= items.take(i as int));
                assert(items.take(i + 1).last() == items[i as int]);
                let t = bucket_defs(name@, ScopeNamespace::Types, e.types);
                let v = bucket_defs(name@, ScopeNamespace::Values, e.values);
                let m = bucket_defs(name@, ScopeNamespace::Macros, e.macros);
                vstd::seq_lib::lemma_multiset_commutative(t, v);
                vstd::seq_lib::lemma_multiset_commutative(t + v, m);
                vstd::seq_lib::lemma_multiset_commutative(scope_defs(items.take(i as int)), entry_defs(name@, e));
                assert(defs_view(defs@).to_multiset() =~= before.add(t.to_multiset()).add(v.to_multiset()).add(m.to_multiset()));
            }
            i = i + 1;
        }
        proof {
            assert(items.take(entries@.len() as int) =~= items);
        }
        defs
    }
}

} // verus!
