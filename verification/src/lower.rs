//! Lowering of patterns into a body's pattern arena and its local bindings.

use vstd::prelude::*;
use vstd::string::*;

use crate::body::{
    BindingData, BindingKind, BodyBuilder, BodySource, BodyTy, PatData, PatKind, RecordPatField,
};
use crate::body_ids::{BindingId, PatId, ScopeId};
use crate::item_tree::{FieldKey, FieldKeyView, TypeRef};
use crate::path::{Path, PathView, SegmentView};

verus! {

/// A pattern as parsed: every node carries its source location and its text with whitespace
/// runs collapsed to single spaces.
#[derive(Debug)]
#[allow(inconsistent_fields)]
pub enum PatSyntax {
    Box { source: BodySource, text: String, pat: Option<Box<PatSyntax>> },
    Ident {
        source: BodySource,
        text: String,
        name: Option<String>,
        by_ref: bool,
        mutable: bool,
        pat: Option<Box<PatSyntax>>,
    },
    Or { source: BodySource, text: String, pats: Vec<PatSyntax> },
    Paren { source: BodySource, text: String, pat: Option<Box<PatSyntax>> },
    Record { source: BodySource, text: String, path: Option<Path>, fields: Vec<RecordPatFieldSyntax> },
    Ref { source: BodySource, text: String, pat: Option<Box<PatSyntax>> },
    Slice { source: BodySource, text: String, pats: Vec<PatSyntax> },
    Tuple { source: BodySource, text: String, pats: Vec<PatSyntax> },
    TupleStruct { source: BodySource, text: String, path: Option<Path>, pats: Vec<PatSyntax> },
    Path { source: BodySource, text: String, path: Option<Path> },
    Rest { source: BodySource, text: String },
    Wildcard { source: BodySource, text: String },
    /// Literal, range, macro and const-block patterns.
    Other { source: BodySource, text: String },
}

/// One field of a record pattern as parsed; `pat` is absent for the shorthand `{ name }`.
#[derive(Debug)]
pub struct RecordPatFieldSyntax {
    pub source: BodySource,
    pub text: String,
    pub name: Option<String>,
    pub pat: Option<PatSyntax>,
}

/// Where a pattern was parsed.
pub open spec fn pat_source(pat: PatSyntax) -> BodySource {
    match pat {
        PatSyntax::Box { source, .. } => source,
        PatSyntax::Ident { source, .. } => source,
        PatSyntax::Or { source, .. } => source,
        PatSyntax::Paren { source, .. } => source,
        PatSyntax::Record { source, .. } => source,
        PatSyntax::Ref { source, .. } => source,
        PatSyntax::Slice { source, .. } => source,
        PatSyntax::Tuple { source, .. } => source,
        PatSyntax::TupleStruct { source, .. } => source,
        PatSyntax::Path { source, .. } => source,
        PatSyntax::Rest { source, .. } => source,
        PatSyntax::Wildcard { source, .. } => source,
        PatSyntax::Other { source, .. } => source,
    }
}

/// Where the node lowered for a pattern was parsed: parentheses lower to the pattern inside them.
pub open spec fn pat_root_source(pat: PatSyntax) -> BodySource
    decreases pat,
{
    match pat {
        PatSyntax::Paren { pat: inner, .. } => match inner {
            Some(p) => pat_root_source(*p),
            None => pat_source(pat),
        },
        _ => pat_source(pat),
    }
}

/// The name starts with an ASCII capital letter.
pub open spec fn is_capitalized(name: Seq<char>) -> bool {
    name.len() > 0 && 'A' <= name[0] && name[0] <= 'Z'
}

/// The names a pattern binds, in lowering order, before repeated names are dropped. A bare
/// capitalized identifier such as `None` is a unit-variant path, not a binding.
pub open spec fn pat_names(pat: PatSyntax) -> Seq<Seq<char>>
    decreases pat,
{
    match pat {
        PatSyntax::Box { pat: inner, .. } => match inner {
            Some(p) => pat_names(*p),
            None => Seq::empty(),
        },
        PatSyntax::Ident { name, by_ref, mutable, pat: sub, .. } => match name {
            None => Seq::empty(),
            Some(n) => {
                let sub_names = match sub {
                    Some(p) => pat_names(*p),
                    None => Seq::empty(),
                };
                if sub is None && !by_ref && !mutable && is_capitalized(n@) {
                    sub_names
                } else {
                    sub_names.push(n@)
                }
            },
        },
        PatSyntax::Or { pats, .. } => pats_names(pats@, pats@.len() as int),
        PatSyntax::Paren { pat: inner, .. } => match inner {
            Some(p) => pat_names(*p),
            None => Seq::empty(),
        },
        PatSyntax::Record { fields, .. } => fields_names(fields@, fields@.len() as int),
        PatSyntax::Ref { pat: inner, .. } => match inner {
            Some(p) => pat_names(*p),
            None => Seq::empty(),
        },
        PatSyntax::Slice { pats, .. } => pats_names(pats@, pats@.len() as int),
        PatSyntax::Tuple { pats, .. } => pats_names(pats@, pats@.len() as int),
        PatSyntax::TupleStruct { pats, .. } => pats_names(pats@, pats@.len() as int),
        _ => Seq::empty(),
    }
}

/// The names the first `n` patterns bind, in order.
pub open spec fn pats_names(pats: Seq<PatSyntax>, n: int) -> Seq<Seq<char>>
    decreases pats, n,
{
    if n <= 0 || n > pats.len() {
        Seq::empty()
    } else {
        pats_names(pats, n - 1) + pat_names(pats[n - 1])
    }
}

/// The names the first `n` record fields bind, in order; a field without a name is dropped.
pub open spec fn fields_names(fields: Seq<RecordPatFieldSyntax>, n: int) -> Seq<Seq<char>>
    decreases fields, n,
{
    if n <= 0 || n > fields.len() {
        Seq::empty()
    } else {
        let field = fields[n - 1];
        fields_names(fields, n - 1) + match field.name {
            None => Seq::empty(),
            Some(name) => match field.pat {
                Some(p) => pat_names(p),
                None => seq![name@],
            },
        }
    }
}

/// The names of `candidates` that `existing` lacks, keeping the first of repeated ones.
pub open spec fn fresh_names(existing: Seq<Seq<char>>, candidates: Seq<Seq<char>>) -> Seq<Seq<char>>
    decreases candidates.len(),
{
    if candidates.len() == 0 {
        Seq::empty()
    } else {
        let before = fresh_names(existing, candidates.drop_last());
        let c = candidates.last();
        if (existing + before).contains(c) {
            before
        } else {
            before.push(c)
        }
    }
}

/// Names of the listed bindings that exist and are named, in list order.
pub open spec fn listed_names(bindings: Seq<BindingData>, ids: Seq<BindingId>) -> Seq<Seq<char>>
    decreases ids.len(),
{
    if ids.len() == 0 {
        Seq::empty()
    } else {
        let before = listed_names(bindings, ids.drop_last());
        let id = ids.last();
        if id.0 < bindings.len() {
            match bindings[id.0 as int].name {
                Some(n) => before.push(n@),
                None => before,
            }
        } else {
            before
        }
    }
}

/// Dropping repeated names from a concatenation is done in two steps.
pub proof fn lemma_fresh_concat(e: Seq<Seq<char>>, a: Seq<Seq<char>>, b: Seq<Seq<char>>)
    ensures
        fresh_names(e, a + b) == fresh_names(e, a) + fresh_names(e + fresh_names(e, a), b),
    decreases b.len(),
{
    if b.len() == 0 {
        assert(a + b =~= a);
        assert(fresh_names(e, a) + fresh_names(e + fresh_names(e, a), b) =~= fresh_names(e, a));
    } else {
        lemma_fresh_concat(e, a, b.drop_last());
        assert((a + b).drop_last() =~= a + b.drop_last());
        assert((a + b).last() == b.last());
        let fa = fresh_names(e, a);
        let fb = fresh_names(e + fa, b.drop_last());
        assert(e + (fa + fb) =~= (e + fa) + fb);
    }
}

/// Two optional paths denote the same path.
pub open spec fn same_opt_path(a: Option<Path>, b: Option<Path>) -> bool {
    match (a, b) {
        (Some(x), Some(y)) => x@ == y@,
        (None, None) => true,
        _ => false,
    }
}

/// A node kind that keeps a pattern's text because the Body IR does not model it.
pub open spec fn unsupported_with(kind: PatKind, text: Seq<char>) -> bool {
    kind matches PatKind::Unsupported { text: t } && t@ == text
}

/// The binding slot of a node for `name`, when the pattern being lowered has bound `bound`:
/// a new binding of that name when the name is new, none when it is already bound.
pub open spec fn binding_slot(
    bindings: Seq<BindingData>,
    binding: Option<BindingId>,
    name: Seq<char>,
    bound: Seq<Seq<char>>,
    source: BodySource,
    text: Seq<char>,
    annotation: Option<TypeRef>,
) -> bool {
    match binding {
        Some(id) => !bound.contains(name) && id.0 < bindings.len() && (bindings[id.0 as int].name matches Some(n) && n@ == name)
            && bindings[id.0 as int].source == source && bindings[id.0 as int].pat@ == text && bindings[id.0 as int].annotation
            == annotation,
        None => bound.contains(name),
    }
}

/// The one-segment relative path that names `name`.
pub open spec fn name_path(name: Seq<char>) -> PathView {
    PathView { absolute: false, segments: seq![SegmentView::Name(name)] }
}

/// The number of named fields among the first `n` of `fields`.
pub open spec fn named_count(fields: Seq<RecordPatFieldSyntax>, n: int) -> int
    decreases n,
{
    if n <= 0 {
        0
    } else if fields[n - 1].name is Some {
        named_count(fields, n - 1) + 1
    } else {
        named_count(fields, n - 1)
    }
}

/// Node `r` of the arena `pats` is the lowering of `pat`, when the pattern being lowered had
/// bound the names `bound` before it: parentheses lower to what they hold; a bare capitalized
/// identifier lowers to the one-segment path of its name; any other named identifier lowers to
/// a binding node, which holds a new binding exactly when its name is not bound yet; tuples,
/// slices, or-patterns, tuple-struct and record patterns lower to nodes that list their
/// lowered children, each child lowered after the names its earlier siblings bound; and what
/// the Body IR does not model keeps its text. Children come before their parent.
pub open spec fn lowered_pat(
    pats: Seq<PatData>,
    bindings: Seq<BindingData>,
    r: int,
    pat: PatSyntax,
    bound: Seq<Seq<char>>,
    annotation: Option<TypeRef>,
) -> bool
    decreases pat,
{
    &&& 0 <= r < pats.len()
    &&& match pat {
        PatSyntax::Box { text, pat: inner, .. } => match inner {
            None => unsupported_with(pats[r].kind, text@),
            Some(p) => pats[r].kind matches PatKind::Box { pat: c } && c.0 < r && lowered_pat(pats, bindings, c.0 as int, *p, bound, None),
        },
        PatSyntax::Ref { text, pat: inner, .. } => match inner {
            None => unsupported_with(pats[r].kind, text@),
            Some(p) => pats[r].kind matches PatKind::Ref { pat: c } && c.0 < r && lowered_pat(pats, bindings, c.0 as int, *p, bound, None),
        },
        PatSyntax::Paren { text, pat: inner, .. } => match inner {
            None => unsupported_with(pats[r].kind, text@),
            Some(p) => lowered_pat(pats, bindings, r, *p, bound, annotation),
        },
        PatSyntax::Ident { source, text, name, by_ref, mutable, pat: sub } => match name {
            None => unsupported_with(pats[r].kind, text@),
            Some(n) => if sub is None && !by_ref && !mutable && is_capitalized(n@) {
                pats[r].kind matches PatKind::Path { path: Some(p) } && p@ == name_path(n@)
            } else {
                let sub_names = match sub {
                    Some(p) => pat_names(*p),
                    None => Seq::empty(),
                };
                pats[r].kind matches PatKind::Binding { binding, subpat } && binding_slot(
                    bindings,
                    binding,
                    n@,
                    bound + fresh_names(bound, sub_names),
                    source,
                    text@,
                    annotation,
                ) && (match sub {
                    None => subpat is None,
                    Some(p) => subpat matches Some(c) && c.0 < r && lowered_pat(pats, bindings, c.0 as int, *p, bound, None),
                })
            },
        },
        PatSyntax::Or { pats: children, .. } => pats[r].kind matches PatKind::Or { pats: ids } && lowered_children(
            pats,
            bindings,
            r,
            ids@,
            children@,
            bound,
        ),
        PatSyntax::Slice { pats: children, .. } => pats[r].kind matches PatKind::Slice { fields: ids } && lowered_children(
            pats,
            bindings,
            r,
            ids@,
            children@,
            bound,
        ),
        PatSyntax::Tuple { pats: children, .. } => pats[r].kind matches PatKind::Tuple { fields: ids } && lowered_children(
            pats,
            bindings,
            r,
            ids@,
            children@,
            bound,
        ),
        PatSyntax::TupleStruct { path, pats: children, .. } => pats[r].kind matches PatKind::TupleStruct { path: q, fields: ids }
            && same_opt_path(q, path) && lowered_children(pats, bindings, r, ids@, children@, bound),
        PatSyntax::Record { path, fields, .. } => pats[r].kind matches PatKind::Record { path: q, fields: lowered }
            && same_opt_path(q, path) && lowered_fields(pats, bindings, r, lowered@, fields@, bound),
        PatSyntax::Path { path, .. } => pats[r].kind matches PatKind::Path { path: q } && same_opt_path(q, path),
        PatSyntax::Rest { .. } => pats[r].kind is Wildcard,
        PatSyntax::Wildcard { .. } => pats[r].kind is Wildcard,
        PatSyntax::Other { text, .. } => unsupported_with(pats[r].kind, text@),
    }
}

/// `ids` are the lowered `children`, in order, each before node `r`.
pub open spec fn lowered_children(
    pats: Seq<PatData>,
    bindings: Seq<BindingData>,
    r: int,
    ids: Seq<PatId>,
    children: Seq<PatSyntax>,
    bound: Seq<Seq<char>>,
) -> bool
    decreases children,
{
    &&& ids.len() == children.len()
    &&& forall|k: int|
        0 <= k < children.len() ==> (#[trigger] ids[k]).0 < r && lowered_pat(
            pats,
            bindings,
            ids[k].0 as int,
            children[k],
            bound + fresh_names(bound, pats_names(children, k)), None,
        )
}

/// `f` is the lowering of the named record field `field` before node `r`: keyed by the field's
/// name, with its pattern lowered after the names `bound`, or, for the shorthand `{ name }`, a
/// binding node for the name.
pub open spec fn field_lowered(
    pats: Seq<PatData>,
    bindings: Seq<BindingData>,
    r: int,
    f: RecordPatField,
    field: RecordPatFieldSyntax,
    bound: Seq<Seq<char>>,
) -> bool
    decreases field,
{
    match field.name {
        None => false,
        Some(name) => {
            &&& f.key@ == FieldKeyView::Named(name@)
            &&& f.pat.0 < r
            &&& match field.pat {
                Some(p) => lowered_pat(pats, bindings, f.pat.0 as int, p, bound, None),
                None => 0 <= f.pat.0 < pats.len() && (pats[f.pat.0 as int].kind matches PatKind::Binding { binding, subpat: None }
                    && binding_slot(bindings, binding, name@, bound, field.source, field.text@, None)),
            }
        },
    }
}

/// `lowered` are the named `fields`, in order, each lowered before node `r` after the names its
/// earlier fields bound.
pub open spec fn lowered_fields(
    pats: Seq<PatData>,
    bindings: Seq<BindingData>,
    r: int,
    lowered: Seq<RecordPatField>,
    fields: Seq<RecordPatFieldSyntax>,
    bound: Seq<Seq<char>>,
) -> bool
    decreases fields,
{
    &&& lowered.len() == named_count(fields, fields.len() as int)
    &&& forall|k: int|
        0 <= k < fields.len() && (#[trigger] fields[k]).name is Some ==> field_lowered(
            pats,
            bindings,
            r,
            lowered[named_count(fields, k)],
            fields[k],
            bound + fresh_names(bound, fields_names(fields, k)),
        )
}

/// `b` keeps every element of `a` at its index.
pub open spec fn seq_extends<T>(a: Seq<T>, b: Seq<T>) -> bool {
    a.len() <= b.len() && forall|i: int| 0 <= i < a.len() ==> #[trigger] b[i] == a[i]
}

/// A lowered pattern stays lowered while nodes and bindings are appended.
proof fn lemma_lowered_extend(
    a: Seq<PatData>,
    b: Seq<PatData>,
    ba: Seq<BindingData>,
    bb: Seq<BindingData>,
    r: int,
    pat: PatSyntax,
    bound: Seq<Seq<char>>,
    annotation: Option<TypeRef>,
)
    requires
        lowered_pat(a, ba, r, pat, bound, annotation),
        seq_extends(a, b),
        seq_extends(ba, bb),
    ensures
        lowered_pat(b, bb, r, pat, bound, annotation),
    decreases pat,
{
    assert(b[r] == a[r]);
    match pat {
        PatSyntax::Box { pat: inner, .. } => {
            if let Some(p) = inner {
                if let PatKind::Box { pat: c } = a[r].kind {
                    lemma_lowered_extend(a, b, ba, bb, c.0 as int, *p, bound, None);
                }
            }
        },
        PatSyntax::Ref { pat: inner, .. } => {
            if let Some(p) = inner {
                if let PatKind::Ref { pat: c } = a[r].kind {
                    lemma_lowered_extend(a, b, ba, bb, c.0 as int, *p, bound, None);
                }
            }
        },
        PatSyntax::Paren { pat: inner, .. } => {
            if let Some(p) = inner {
                lemma_lowered_extend(a, b, ba, bb, r, *p, bound, annotation);
            }
        },
        PatSyntax::Ident { name, pat: sub, .. } => {
            if let Some(p) = sub {
                if let PatKind::Binding { binding, subpat } = a[r].kind {
                    if let Some(c) = subpat {
                        lemma_lowered_extend(a, b, ba, bb, c.0 as int, *p, bound, None);
                    }
                    if let Some(id) = binding {
                        assert(bb[id.0 as int] == ba[id.0 as int]);
                    }
                }
            } else {
                if let PatKind::Binding { binding, subpat } = a[r].kind {
                    if let Some(id) = binding {
                        assert(bb[id.0 as int] == ba[id.0 as int]);
                    }
                }
            }
        },
        PatSyntax::Or { pats: children, .. } => {
            if let PatKind::Or { pats: ids } = a[r].kind {
                lemma_children_extend(a, b, ba, bb, r, ids@, children@, bound);
            }
        },
        PatSyntax::Slice { pats: children, .. } => {
            if let PatKind::Slice { fields: ids } = a[r].kind {
                lemma_children_extend(a, b, ba, bb, r, ids@, children@, bound);
            }
        },
        PatSyntax::Tuple { pats: children, .. } => {
            if let PatKind::Tuple { fields: ids } = a[r].kind {
                lemma_children_extend(a, b, ba, bb, r, ids@, children@, bound);
            }
        },
        PatSyntax::TupleStruct { pats: children, .. } => {
            if let PatKind::TupleStruct { fields: ids, .. } = a[r].kind {
                lemma_children_extend(a, b, ba, bb, r, ids@, children@, bound);
            }
        },
        PatSyntax::Record { fields, .. } => {
            if let PatKind::Record { fields: lowered, .. } = a[r].kind {
                lemma_fields_extend(a, b, ba, bb, r, lowered@, fields@, bound);
            }
        },
        _ => {},
    }
}

proof fn lemma_children_extend(
    a: Seq<PatData>,
    b: Seq<PatData>,
    ba: Seq<BindingData>,
    bb: Seq<BindingData>,
    r: int,
    ids: Seq<PatId>,
    children: Seq<PatSyntax>,
    bound: Seq<Seq<char>>,
)
    requires
        lowered_children(a, ba, r, ids, children, bound),
        seq_extends(a, b),
        seq_extends(ba, bb),
    ensures
        lowered_children(b, bb, r, ids, children, bound),
    decreases children,
{
    assert forall|k: int| 0 <= k < children.len() implies (#[trigger] ids[k]).0 < r && lowered_pat(
        b,
        bb,
        ids[k].0 as int,
        children[k],
        bound + fresh_names(bound, pats_names(children, k)), None,
    ) by {
        assert(decreases_to!(children => children[k]));
        lemma_lowered_extend(a, b, ba, bb, ids[k].0 as int, children[k], bound + fresh_names(bound, pats_names(children, k)), None);
    }
}

proof fn lemma_field_extend(
    a: Seq<PatData>,
    b: Seq<PatData>,
    ba: Seq<BindingData>,
    bb: Seq<BindingData>,
    r1: int,
    r2: int,
    f: RecordPatField,
    field: RecordPatFieldSyntax,
    bound: Seq<Seq<char>>,
)
    requires
        field_lowered(a, ba, r1, f, field, bound),
        r1 <= r2,
        seq_extends(a, b),
        seq_extends(ba, bb),
    ensures
        field_lowered(b, bb, r2, f, field, bound),
    decreases field,
{
    match field.pat {
        Some(p) => {
            lemma_lowered_extend(a, b, ba, bb, f.pat.0 as int, p, bound, None);
        },
        None => {
            assert(b[f.pat.0 as int] == a[f.pat.0 as int]);
            if let PatKind::Binding { binding, .. } = a[f.pat.0 as int].kind {
                if let Some(id) = binding {
                    assert(bb[id.0 as int] == ba[id.0 as int]);
                }
            }
        },
    }
}

proof fn lemma_fields_extend(
    a: Seq<PatData>,
    b: Seq<PatData>,
    ba: Seq<BindingData>,
    bb: Seq<BindingData>,
    r: int,
    lowered: Seq<RecordPatField>,
    fields: Seq<RecordPatFieldSyntax>,
    bound: Seq<Seq<char>>,
)
    requires
        lowered_fields(a, ba, r, lowered, fields, bound),
        seq_extends(a, b),
        seq_extends(ba, bb),
    ensures
        lowered_fields(b, bb, r, lowered, fields, bound),
    decreases fields,
{
    assert forall|k: int| 0 <= k < fields.len() && (#[trigger] fields[k]).name is Some implies field_lowered(
        b,
        bb,
        r,
        lowered[named_count(fields, k)],
        fields[k],
        bound + fresh_names(bound, fields_names(fields, k)),
    ) by {
        assert(decreases_to!(fields => fields[k]));
        lemma_field_extend(a, b, ba, bb, r, r, lowered[named_count(fields, k)], fields[k], bound + fresh_names(bound, fields_names(fields, k)));
    }
}

/// `new` extends `old` by bindings of `scope` and `kind` only, listed in order at the end of
/// `new_ids`, and by pattern nodes only.
pub open spec fn lowering_step(
    old: BodyBuilder,
    new: BodyBuilder,
    old_ids: Seq<BindingId>,
    new_ids: Seq<BindingId>,
    scope: ScopeId,
    kind: BindingKind,
) -> bool {
    &&& new.wf()
    &&& new.scopes@.len() == old.scopes@.len()
    &&& forall|s: int| 0 <= s < old.scopes@.len() ==> (#[trigger] new.scopes@[s]).parent == old.scopes@[s].parent
    &&& forall|s: int| 0 <= s < old.scopes@.len() && s != scope.0 ==> #[trigger] new.scopes@[s] == old.scopes@[s]
    &&& new.local_items == old.local_items
    &&& new.local_impls == old.local_impls
    &&& new.local_functions == old.local_functions
    &&& new.statements == old.statements
    &&& new.exprs == old.exprs
    &&& new.bindings@.len() >= old.bindings@.len()
    &&& new.bindings@.take(old.bindings@.len() as int) == old.bindings@
    &&& forall|j: int|
        old.bindings@.len() <= j < new.bindings@.len() ==> (#[trigger] new.bindings@[j]).scope == scope
            && new.bindings@[j].kind == kind && new.bindings@[j].name is Some
    &&& new_ids == old_ids + Seq::new(
        (new.bindings@.len() - old.bindings@.len()) as nat,
        |j: int| BindingId((old.bindings@.len() + j) as usize),
    )
    &&& new.pats@.len() >= old.pats@.len()
    &&& new.pats@.take(old.pats@.len() as int) == old.pats@
}


/// Every listed binding exists.
pub open spec fn ids_exist(bindings: Seq<BindingData>, ids: Seq<BindingId>) -> bool {
    forall|i: int| 0 <= i < ids.len() ==> (#[trigger] ids[i]).0 < bindings.len()
}

proof fn lemma_listed_names_extend(old: Seq<BindingData>, new: Seq<BindingData>, ids: Seq<BindingId>)
    requires
        new.len() >= old.len(),
        new.take(old.len() as int) == old,
        ids_exist(old, ids),
    ensures
        listed_names(new, ids) == listed_names(old, ids),
    decreases ids.len(),
{
    if ids.len() > 0 {
        lemma_listed_names_extend(old, new, ids.drop_last());
        let id = ids.last();
        assert(ids[ids.len() - 1] == id);
        assert(new[id.0 as int] == new.take(old.len() as int)[id.0 as int]);
    }
}

proof fn lemma_step_refl(b: BodyBuilder, ids: Seq<BindingId>, scope: ScopeId, kind: BindingKind)
    requires
        b.wf(),
    ensures
        lowering_step(b, b, ids, ids, scope, kind),
{
    assert(b.bindings@.take(b.bindings@.len() as int) =~= b.bindings@);
    assert(b.pats@.take(b.pats@.len() as int) =~= b.pats@);
    assert(ids + Seq::new(0, |j: int| BindingId((b.bindings@.len() + j) as usize)) =~= ids);
}

proof fn lemma_step_trans(
    a: BodyBuilder,
    b: BodyBuilder,
    c: BodyBuilder,
    ia: Seq<BindingId>,
    ib: Seq<BindingId>,
    ic: Seq<BindingId>,
    scope: ScopeId,
    kind: BindingKind,
)
    requires
        lowering_step(a, b, ia, ib, scope, kind),
        lowering_step(b, c, ib, ic, scope, kind),
    ensures
        lowering_step(a, c, ia, ic, scope, kind),
{
    let la = a.bindings@.len();
    let lb = b.bindings@.len();
    let lc = c.bindings@.len();
    assert(c.bindings@.take(la as int) =~= c.bindings@.take(lb as int).take(la as int));
    assert(c.pats@.take(a.pats@.len() as int) =~= c.pats@.take(b.pats@.len() as int).take(a.pats@.len() as int));
    assert forall|j: int| la <= j < lc implies (#[trigger] c.bindings@[j]).scope == scope && c.bindings@[j].kind == kind
        && c.bindings@[j].name is Some by {
        if j < lb {
            assert(c.bindings@[j] == c.bindings@.take(lb as int)[j]);
            assert(b.bindings@[j].scope == scope);
        }
    }
    let sa = Seq::new((lb - la) as nat, |j: int| BindingId((la + j) as usize));
    let sb = Seq::new((lc - lb) as nat, |j: int| BindingId((lb + j) as usize));
    let sc = Seq::new((lc - la) as nat, |j: int| BindingId((la + j) as usize));
    assert(sa + sb =~= sc);
    assert(ic =~= ia + sc);
}

proof fn lemma_step_ids_exist(old: BodyBuilder, new: BodyBuilder, oi: Seq<BindingId>, ni: Seq<BindingId>, scope: ScopeId, kind: BindingKind)
    requires
        lowering_step(old, new, oi, ni, scope, kind),
        ids_exist(old.bindings@, oi),
    ensures
        ids_exist(new.bindings@, ni),
        listed_names(new.bindings@, oi) == listed_names(old.bindings@, oi),
{
    lemma_listed_names_extend(old.bindings@, new.bindings@, oi);
    assert forall|i: int| 0 <= i < ni.len() implies (#[trigger] ni[i]).0 < new.bindings@.len() by {
        if i < oi.len() {
            assert(ni[i] == oi[i]);
        }
    }
}

/// Binds `name` in the pattern being lowered unless one of its bindings already has that
/// name: in or-patterns the first lowered binding of a name is the one kept.
fn push_pat_binding(
    builder: &mut BodyBuilder,
    source: BodySource,
    scope: ScopeId,
    kind: BindingKind,
    name: String,
    pat: String,
    annotation: Option<TypeRef>,
    bindings: &mut Vec<BindingId>,
) -> (r: Option<BindingId>)
    requires
        old(builder).wf(),
        scope.0 < old(builder).scopes@.len(),
        ids_exist(old(builder).bindings@, old(bindings)@),
    ensures
        lowering_step(*old(builder), *final(builder), old(bindings)@, final(bindings)@, scope, kind),
        ids_exist(final(builder).bindings@, final(bindings)@),
        final(builder).pats == old(builder).pats,
        listed_names(final(builder).bindings@, final(bindings)@) == listed_names(old(builder).bindings@, old(bindings)@) + if listed_names(
            old(builder).bindings@,
            old(bindings)@,
        ).contains(name@) {
            Seq::<Seq<char>>::empty()
        } else {
            seq![name@]
        },
        r is Some <==> !listed_names(old(builder).bindings@, old(bindings)@).contains(name@),
        r matches Some(id) ==> id.0 < final(builder).bindings@.len() && final(builder).bindings@[id.0 as int] == (BindingData {
            source,
            scope,
            kind,
            name: Some(name),
            pat,
            annotation,
            ty: BodyTy::Unknown,
        }),
{
    let ghost names = listed_names(builder.bindings@, bindings@);
    let mut i: usize = 0;
    while i < bindings.len()
        invariant
            i <= bindings@.len(),
            builder.wf(),
            *builder == *old(builder),
            bindings@ == old(bindings)@,
            names == listed_names(builder.bindings@, bindings@),
            ids_exist(builder.bindings@, bindings@),
            !listed_names(builder.bindings@, bindings@.take(i as int)).contains(name@),
        decreases bindings.len() - i,
    {
        let id = bindings[i];
        proof {
            assert(bindings@.take(i + 1).drop_last() =~= bindings@.take(i as int));
            assert(bindings@.take(i + 1).last() == id);
        }
        if id.0 < builder.bindings.len() {
            let same = match &builder.bindings[id.0].name {
                Some(n) => *n == name,
                None => false,
            };
            if same {
                proof {
                    assert(listed_names(builder.bindings@, bindings@.take(i + 1)).contains(name@)) by {
                        let l = listed_names(builder.bindings@, bindings@.take(i + 1));
                        assert(l[l.len() - 1] == name@);
                    }
                    lemma_listed_prefix_contains(builder.bindings@, bindings@, i as int + 1, name@);
                    lemma_step_refl(*builder, bindings@, scope, kind);
                    assert(names + Seq::<Seq<char>>::empty() =~= names);
                }
                return None;
            }
        }
        i = i + 1;
    }
    proof {
        assert(bindings@.take(bindings@.len() as int) =~= bindings@);
    }
    let ghost old_builder = *builder;
    let ghost old_ids = bindings@;
    let binding = builder.alloc_binding(
        BindingData { source, scope, kind, name: Some(name), pat, annotation, ty: BodyTy::Unknown },
    );
    bindings.push(binding);
    proof {
        assert(builder.bindings@.take(old_builder.bindings@.len() as int) =~= old_builder.bindings@);
        assert(bindings@ =~= old_ids + Seq::new(1, |j: int| BindingId((old_builder.bindings@.len() + j) as usize)));
        assert(builder.pats@.take(old_builder.pats@.len() as int) =~= old_builder.pats@);
        lemma_listed_names_extend(old_builder.bindings@, builder.bindings@, old_ids);
        assert(bindings@.drop_last() =~= old_ids);
        assert(ids_exist(builder.bindings@, bindings@)) by {
            assert forall|k: int| 0 <= k < bindings@.len() implies (#[trigger] bindings@[k]).0 < builder.bindings@.len() by {
                if k < old_ids.len() {
                    assert(bindings@[k] == old_ids[k]);
                }
            }
        }
    }
    Some(binding)
}

proof fn lemma_listed_prefix_contains(bindings: Seq<BindingData>, ids: Seq<BindingId>, n: int, name: Seq<char>)
    requires
        0 <= n <= ids.len(),
        listed_names(bindings, ids.take(n)).contains(name),
    ensures
        listed_names(bindings, ids).contains(name),
    decreases ids.len() - n,
{
    if n < ids.len() {
        assert(ids.take(n + 1).drop_last() =~= ids.take(n));
        let before = listed_names(bindings, ids.take(n));
        let after = listed_names(bindings, ids.take(n + 1));
        let k = choose|k: int| 0 <= k < before.len() && before[k] == name;
        assert(after[k] == name);
        lemma_listed_prefix_contains(bindings, ids, n + 1, name);
    } else {
        assert(ids.take(n) =~= ids);
    }
}


proof fn lemma_step_extends(a: BodyBuilder, b: BodyBuilder, ia: Seq<BindingId>, ib: Seq<BindingId>, scope: ScopeId, kind: BindingKind)
    requires
        lowering_step(a, b, ia, ib, scope, kind),
    ensures
        seq_extends(a.pats@, b.pats@),
        seq_extends(a.bindings@, b.bindings@),
{
    assert forall|i: int| 0 <= i < a.pats@.len() implies #[trigger] b.pats@[i] == a.pats@[i] by {
        assert(b.pats@[i] == b.pats@.take(a.pats@.len() as int)[i]);
    }
    assert forall|i: int| 0 <= i < a.bindings@.len() implies #[trigger] b.bindings@[i] == a.bindings@[i] by {
        assert(b.bindings@[i] == b.bindings@.take(a.bindings@.len() as int)[i]);
    }
}

/// Allocating a pattern node is a lowering step that binds nothing.
proof fn lemma_step_alloc_pat(a: BodyBuilder, b: BodyBuilder, ids: Seq<BindingId>, scope: ScopeId, kind: BindingKind, data: PatData)
    requires
        b.wf(),
        b.pats@ == a.pats@.push(data),
        b.scopes == a.scopes,
        b.bindings == a.bindings,
        b.local_items == a.local_items,
        b.local_impls == a.local_impls,
        b.local_functions == a.local_functions,
        b.statements == a.statements,
        b.exprs == a.exprs,
    ensures
        lowering_step(a, b, ids, ids, scope, kind),
{
    assert(b.bindings@.take(a.bindings@.len() as int) =~= a.bindings@);
    assert(b.pats@.take(a.pats@.len() as int) =~= a.pats@);
    assert(ids + Seq::new(0, |j: int| BindingId((a.bindings@.len() + j) as usize)) =~= ids);
}

/// The names a lowering adds after `names`, composed over a further pattern.
proof fn lemma_names_step(l0: Seq<Seq<char>>, so_far: Seq<Seq<char>>, more: Seq<Seq<char>>)
    ensures
        l0 + fresh_names(l0, so_far) + fresh_names(l0 + fresh_names(l0, so_far), more) == l0 + fresh_names(
            l0,
            so_far + more,
        ),
{
    lemma_fresh_concat(l0, so_far, more);
    assert(l0 + fresh_names(l0, so_far) + fresh_names(l0 + fresh_names(l0, so_far), more) =~= l0 + (fresh_names(
        l0,
        so_far,
    ) + fresh_names(l0 + fresh_names(l0, so_far), more)));
}

fn copy_path(path: &Option<Path>) -> (r: Option<Path>)
    ensures
        match path {
            Some(p) => r matches Some(q) && q@ == p@,
            None => r is None,
        },
{
    match path {
        Some(p) => Some(p.duplicate()),
        None => None,
    }
}

/// Lowers a pattern node that the Body IR does not model.
fn alloc_unsupported_pat(builder: &mut BodyBuilder, source: BodySource, text: &String) -> (r: PatId)
    requires
        old(builder).wf(),
    ensures
        final(builder).wf(),
        r.0 == old(builder).pats@.len(),
        final(builder).pats@.len() == old(builder).pats@.len() + 1,
        final(builder).pats@.take(old(builder).pats@.len() as int) == old(builder).pats@,
        final(builder).pats@[r.0 as int].source == source,
        unsupported_with(final(builder).pats@[r.0 as int].kind, text@),
        final(builder).scopes == old(builder).scopes,
        final(builder).bindings == old(builder).bindings,
        final(builder).local_items == old(builder).local_items,
        final(builder).local_impls == old(builder).local_impls,
        final(builder).local_functions == old(builder).local_functions,
        final(builder).statements == old(builder).statements,
        final(builder).exprs == old(builder).exprs,
{
    let r = builder.alloc_pat(PatData { source, kind: PatKind::Unsupported { text: text.clone() } });
    assert(builder.pats@.take(old(builder).pats@.len() as int) =~= old(builder).pats@);
    r
}

/// The identifier pattern is a bare capitalized name such as `None`, which the syntax tree
/// cannot tell from a binding; it is treated as a unit-variant path.
pub fn is_capitalized_bare_pat(name: &String, by_ref: bool, mutable: bool, subpat: Option<PatId>) -> (r: bool)
    ensures
        r == (subpat is None && !by_ref && !mutable && is_capitalized(name@)),
{
    if subpat.is_some() || by_ref || mutable {
        return false;
    }
    let len = name.as_str().unicode_len();
    if len == 0 {
        return false;
    }
    let first = name.as_str().get_char(0);
    'A' <= first && first <= 'Z'
}


/// Allocates the node of a pattern whose children are lowered.
fn finish_pat(
    builder: &mut BodyBuilder,
    source: BodySource,
    pat_kind: PatKind,
    Ghost(start): Ghost<BodyBuilder>,
    Ghost(start_ids): Ghost<Seq<BindingId>>,
    bindings: &Vec<BindingId>,
    scope: ScopeId,
    kind: BindingKind,
) -> (r: PatId)
    requires
        old(builder).wf(),
        lowering_step(start, *old(builder), start_ids, bindings@, scope, kind),
    ensures
        lowering_step(start, *final(builder), start_ids, bindings@, scope, kind),
        r.0 + 1 == final(builder).pats@.len(),
        final(builder).pats@.len() == old(builder).pats@.len() + 1,
        final(builder).pats@[r.0 as int].source == source,
        final(builder).pats@[r.0 as int].kind == pat_kind,
        final(builder).pats@ == old(builder).pats@.push(final(builder).pats@[r.0 as int]),
        final(builder).bindings == old(builder).bindings,
        final(builder).scopes@.len() == old(builder).scopes@.len(),
{
    let ghost before = *builder;
    let ghost data = PatData { source, kind: pat_kind };
    let r = builder.alloc_pat(PatData { source, kind: pat_kind });
    proof {
        lemma_step_alloc_pat(before, *builder, bindings@, scope, kind, data);
        lemma_step_trans(start, before, *builder, start_ids, bindings@, bindings@, scope, kind);
    }
    r
}

/// Lowers one pattern: allocates its nodes in the body's pattern arena, children before
/// parents, and a binding for every identifier that binds a name not yet bound by the
/// pattern. `annotation` reaches the binding of a top-level identifier, through parentheses.
#[verifier::rlimit(60)]
pub fn lower_pat_inner(
    builder: &mut BodyBuilder,
    pat: &PatSyntax,
    scope: ScopeId,
    kind: BindingKind,
    annotation: Option<TypeRef>,
    bindings: &mut Vec<BindingId>,
) -> (r: PatId)
    requires
        old(builder).wf(),
        scope.0 < old(builder).scopes@.len(),
        ids_exist(old(builder).bindings@, old(bindings)@),
    ensures
        lowering_step(*old(builder), *final(builder), old(bindings)@, final(bindings)@, scope, kind),
        ids_exist(final(builder).bindings@, final(bindings)@),
        listed_names(final(builder).bindings@, final(bindings)@) == listed_names(old(builder).bindings@, old(bindings)@)
            + fresh_names(listed_names(old(builder).bindings@, old(bindings)@), pat_names(*pat)),
        r.0 + 1 == final(builder).pats@.len(),
        final(builder).pats@.len() > old(builder).pats@.len(),
        final(builder).pats@[r.0 as int].source == pat_root_source(*pat),
        lowered_pat(final(builder).pats@, final(builder).bindings@, r.0 as int, *pat, listed_names(old(builder).bindings@, old(bindings)@), annotation),
    decreases pat,
{
    let ghost b0 = *builder;
    let ghost i0 = bindings@;
    let ghost l0 = listed_names(b0.bindings@, i0);
    let ghost ann = annotation;
    proof {
        lemma_step_refl(b0, i0, scope, kind);
        assert(fresh_names(l0, Seq::<Seq<char>>::empty()) =~= Seq::<Seq<char>>::empty());
        assert(l0 + Seq::<Seq<char>>::empty() =~= l0);
    }
    match pat {
        PatSyntax::Box { source, text, pat: inner } | PatSyntax::Ref { source, text, pat: inner } => {
            match inner {
                None => {
                    let r = alloc_unsupported_pat(builder, *source, text);
                    proof {
                        assert(builder.bindings@.take(b0.bindings@.len() as int) =~= b0.bindings@);
                        assert(builder.pats@.take(b0.pats@.len() as int) =~= b0.pats@);
                        assert(i0 + Seq::new(0, |j: int| BindingId((b0.bindings@.len() + j) as usize)) =~= i0);
                        assert(l0 + fresh_names(l0, pat_names(*pat)) =~= l0);
                        if pat is Box {
                            assert(lowered_pat(builder.pats@, builder.bindings@, r.0 as int, *pat, l0, ann));
                        } else {
                            assert(lowered_pat(builder.pats@, builder.bindings@, r.0 as int, *pat, l0, ann));
                        }
                    }
                    r
                },
                Some(p) => {
                    proof {
                        if pat is Box {
                            assert(decreases_to!(*pat => pat->Box_pat->0));
                        } else {
                            assert(decreases_to!(*pat => pat->Ref_pat->0));
                        }
                    }
                    let child = lower_pat_inner(builder, p, scope, kind, None, bindings);
                    let ghost mid = *builder;
                    let pk = if let PatSyntax::Box { .. } = pat {
                        PatKind::Box { pat: child }
                    } else {
                        PatKind::Ref { pat: child }
                    };
                    proof {
                        lemma_step_ids_exist(b0, mid, i0, bindings@, scope, kind);
                    }
                    let r = finish_pat(builder, *source, pk, Ghost(b0), Ghost(i0), bindings, scope, kind);
                    proof {
                        assert(seq_extends(mid.pats@, builder.pats@));
                        assert(seq_extends(mid.bindings@, builder.bindings@));
                        lemma_lowered_extend(mid.pats@, builder.pats@, mid.bindings@, builder.bindings@, child.0 as int, **p, l0, None);
                        assert(child.0 < r.0);
                        if pat is Box {
                            assert(builder.pats@[r.0 as int].kind == PatKind::Box { pat: child });
                        } else {
                            assert(builder.pats@[r.0 as int].kind == PatKind::Ref { pat: child });
                        }
                        assert(lowered_pat(builder.pats@, builder.bindings@, r.0 as int, *pat, l0, ann));
                    }
                    r
                },
            }
        },
        PatSyntax::Paren { source, text, pat: inner } => {
            match inner {
                None => {
                    let r = alloc_unsupported_pat(builder, *source, text);
                    proof {
                        assert(builder.bindings@.take(b0.bindings@.len() as int) =~= b0.bindings@);
                        assert(builder.pats@.take(b0.pats@.len() as int) =~= b0.pats@);
                        assert(i0 + Seq::new(0, |j: int| BindingId((b0.bindings@.len() + j) as usize)) =~= i0);
                        assert(l0 + fresh_names(l0, pat_names(*pat)) =~= l0);
                    }
                    r
                },
                Some(p) => {
                    proof {
                        assert(decreases_to!(*pat => pat->Paren_pat->0));
                    }
                    lower_pat_inner(builder, p, scope, kind, annotation, bindings)
                },
            }
        },
        PatSyntax::Ident { source, text, name, by_ref, mutable, pat: sub } => {
            match name {
                None => {
                    let r = alloc_unsupported_pat(builder, *source, text);
                    proof {
                        assert(builder.bindings@.take(b0.bindings@.len() as int) =~= b0.bindings@);
                        assert(builder.pats@.take(b0.pats@.len() as int) =~= b0.pats@);
                        assert(i0 + Seq::new(0, |j: int| BindingId((b0.bindings@.len() + j) as usize)) =~= i0);
                        assert(l0 + fresh_names(l0, pat_names(*pat)) =~= l0);
                    }
                    r
                },
                Some(n) => {
                    let ghost sub_names = match sub {
                        Some(p) => pat_names(**p),
                        None => Seq::<Seq<char>>::empty(),
                    };
                    let subpat = match sub {
                        Some(p) => {
                            proof {
                                assert(decreases_to!(*pat => pat->Ident_pat->0));
                            }
                            let child = lower_pat_inner(builder, p, scope, kind, None, bindings);
                            proof {
                                lemma_step_trans(b0, b0, *builder, i0, i0, bindings@, scope, kind);
                            }
                            Some(child)
                        },
                        None => None,
                    };
                    proof {
                        if sub is None {
                            assert(fresh_names(l0, sub_names) =~= Seq::<Seq<char>>::empty());
                            assert(listed_names(builder.bindings@, bindings@) =~= l0 + fresh_names(l0, sub_names));
                        }
                        lemma_step_ids_exist(b0, *builder, i0, bindings@, scope, kind);
                    }
                    let ghost mid = *builder;
                    let ghost mid_ids = bindings@;
                    proof {
                        match sub {
                            Some(p) => {
                                assert(subpat matches Some(c) && c.0 < mid.pats@.len() && lowered_pat(mid.pats@, mid.bindings@, c.0 as int, **p, l0, None));
                            },
                            None => {
                                assert(subpat is None);
                            },
                        }
                    }
                    let pk = if is_capitalized_bare_pat(n, *by_ref, *mutable, subpat) {
                        let mut segments: Vec<crate::path::PathSegment> = Vec::new();
                        segments.push(crate::path::PathSegment::Name(n.clone()));
                        proof {
                            lemma_step_refl(mid, mid_ids, scope, kind);
                            assert(pat_names(*pat) == sub_names);
                            assert(crate::path::segments_view(segments@) =~= seq![SegmentView::Name(n@)]);
                        }
                        PatKind::Path { path: Some(Path { absolute: false, segments }) }
                    } else {
                        let binding = push_pat_binding(builder, *source, scope, kind, n.clone(), text.clone(), annotation, bindings);
                        proof {
                            lemma_step_trans(b0, mid, *builder, i0, mid_ids, bindings@, scope, kind);
                            assert(pat_names(*pat) == sub_names.push(n@));
                            lemma_names_step(l0, sub_names, seq![n@]);
                            assert(sub_names + seq![n@] =~= sub_names.push(n@));
                            let cur = l0 + fresh_names(l0, sub_names);
                            assert(fresh_names(cur, seq![n@]) == if cur.contains(n@) { Seq::<Seq<char>>::empty() } else { seq![n@] }) by {
                                assert(seq![n@].drop_last() =~= Seq::<Seq<char>>::empty());
                                assert(fresh_names(cur, Seq::<Seq<char>>::empty()) =~= Seq::<Seq<char>>::empty());
                                assert(cur + Seq::<Seq<char>>::empty() =~= cur);
                            }
                        }
                        assert(binding_slot(builder.bindings@, binding, n@, l0 + fresh_names(l0, sub_names), *source, text@, ann));
                        PatKind::Binding { binding, subpat }
                    };
                    proof {
                        lemma_step_ids_exist(b0, *builder, i0, bindings@, scope, kind);
                        assert(builder.pats@ == mid.pats@);
                        assert(seq_extends(mid.bindings@, builder.bindings@)) by {
                            assert forall|i: int| 0 <= i < mid.bindings@.len() implies #[trigger] builder.bindings@[i] == mid.bindings@[i] by {
                                assert(builder.bindings@[i] == builder.bindings@.take(mid.bindings@.len() as int)[i]);
                            }
                        }
                    }
                    let ghost before_node = *builder;
                    let ghost pk_model = pk;
                    let r = finish_pat(builder, *source, pk, Ghost(b0), Ghost(i0), bindings, scope, kind);
                    proof {
                        assert(seq_extends(mid.pats@, builder.pats@));
                        assert(seq_extends(mid.bindings@, builder.bindings@));
                        assert(builder.bindings@ == before_node.bindings@);
                        if let Some(p) = sub {
                            let c = subpat->0;
                            lemma_lowered_extend(mid.pats@, builder.pats@, mid.bindings@, builder.bindings@, c.0 as int, **p, l0, None);
                        }
                        assert(builder.pats@[r.0 as int].kind == pk_model);
                        assert(lowered_pat(builder.pats@, builder.bindings@, r.0 as int, *pat, l0, ann));
                    }
                    r
                },
            }
        },
        PatSyntax::Or { source, pats, .. } | PatSyntax::Slice { source, pats, .. } | PatSyntax::Tuple {
            source,
            pats,
            ..
        } | PatSyntax::TupleStruct { source, pats, .. } => {
            let mut ids: Vec<PatId> = Vec::new();
            let mut i: usize = 0;
            proof {
                assert(pats_names(pats@, 0) =~= Seq::<Seq<char>>::empty());
            }
            while i < pats.len()
                invariant
                    (pat is Or && pat->Or_pats == *pats) || (pat is Slice && pat->Slice_pats == *pats) || (pat is Tuple
                        && pat->Tuple_pats == *pats) || (pat is TupleStruct && pat->TupleStruct_pats == *pats),
                    i <= pats@.len(),
                    builder.wf(),
                    scope.0 < builder.scopes@.len(),
                    l0 == listed_names(b0.bindings@, i0),
                    lowering_step(b0, *builder, i0, bindings@, scope, kind),
                    ids_exist(builder.bindings@, bindings@),
                    listed_names(builder.bindings@, bindings@) == l0 + fresh_names(l0, pats_names(pats@, i as int)),
                    ids@.len() == i,
                    forall|k: int|
                        0 <= k < i ==> (#[trigger] ids@[k]).0 < builder.pats@.len() && lowered_pat(
                            builder.pats@,
                            builder.bindings@,
                            ids@[k].0 as int,
                            pats@[k],
                            l0 + fresh_names(l0, pats_names(pats@, k)), None,
                        ),
                decreases pats.len() - i,
            {
                let ghost mid = *builder;
                let ghost mid_ids = bindings@;
                proof {
                    if pat is Or {
                        assert(decreases_to!(*pat => pat->Or_pats));
                    } else if pat is Slice {
                        assert(decreases_to!(*pat => pat->Slice_pats));
                    } else if pat is Tuple {
                        assert(decreases_to!(*pat => pat->Tuple_pats));
                    } else {
                        assert(decreases_to!(*pat => pat->TupleStruct_pats));
                    }
                    assert(decreases_to!(*pats => pats@));
                    assert(decreases_to!(pats@ => pats@[i as int]));
                }
                let ghost old_ids = ids@;
                let child = lower_pat_inner(builder, &pats[i], scope, kind, None, bindings);
                ids.push(child);
                proof {
                    lemma_step_trans(b0, mid, *builder, i0, mid_ids, bindings@, scope, kind);
                    lemma_names_step(l0, pats_names(pats@, i as int), pat_names(pats@[i as int]));
                    lemma_step_extends(mid, *builder, mid_ids, bindings@, scope, kind);
                    assert forall|k: int| 0 <= k < i + 1 implies (#[trigger] ids@[k]).0 < builder.pats@.len() && lowered_pat(
                        builder.pats@,
                        builder.bindings@,
                        ids@[k].0 as int,
                        pats@[k],
                        l0 + fresh_names(l0, pats_names(pats@, k)), None,
                    ) by {
                        if k < i {
                            assert(ids@[k] == old_ids[k]);
                            lemma_lowered_extend(
                                mid.pats@,
                                builder.pats@,
                                mid.bindings@,
                                builder.bindings@,
                                ids@[k].0 as int,
                                pats@[k],
                                l0 + fresh_names(l0, pats_names(pats@, k)), None,
                            );
                        }
                    }
                }
                i = i + 1;
            }
            let pk = match pat {
                PatSyntax::Or { .. } => PatKind::Or { pats: ids },
                PatSyntax::Slice { .. } => PatKind::Slice { fields: ids },
                PatSyntax::Tuple { .. } => PatKind::Tuple { fields: ids },
                PatSyntax::TupleStruct { path, .. } => PatKind::TupleStruct { path: copy_path(path), fields: ids },
                _ => PatKind::Wildcard,
            };
            proof {
                lemma_step_ids_exist(b0, *builder, i0, bindings@, scope, kind);
            }
            let ghost before_node = *builder;
            let ghost pk_model = pk;
            let r = finish_pat(builder, *source, pk, Ghost(b0), Ghost(i0), bindings, scope, kind);
            proof {
                assert(seq_extends(before_node.pats@, builder.pats@));
                assert(seq_extends(before_node.bindings@, builder.bindings@));
                assert forall|k: int| 0 <= k < pats@.len() implies (#[trigger] ids@[k]).0 < r.0 && lowered_pat(
                    builder.pats@,
                    builder.bindings@,
                    ids@[k].0 as int,
                    pats@[k],
                    l0 + fresh_names(l0, pats_names(pats@, k)), None,
                ) by {
                    lemma_lowered_extend(
                        before_node.pats@,
                        builder.pats@,
                        before_node.bindings@,
                        builder.bindings@,
                        ids@[k].0 as int,
                        pats@[k],
                        l0 + fresh_names(l0, pats_names(pats@, k)), None,
                    );
                }
                assert(lowered_children(builder.pats@, builder.bindings@, r.0 as int, ids@, pats@, l0));
                assert(builder.pats@[r.0 as int].kind == pk_model);
                if pat is Or {
                    assert(lowered_pat(builder.pats@, builder.bindings@, r.0 as int, *pat, l0, ann));
                } else if pat is Slice {
                    assert(lowered_pat(builder.pats@, builder.bindings@, r.0 as int, *pat, l0, ann));
                } else if pat is Tuple {
                    assert(lowered_pat(builder.pats@, builder.bindings@, r.0 as int, *pat, l0, ann));
                } else {
                    assert(lowered_pat(builder.pats@, builder.bindings@, r.0 as int, *pat, l0, ann));
                }
            }
            r
        },
        PatSyntax::Record { source, path, fields, .. } => {
            let mut lowered: Vec<RecordPatField> = Vec::new();
            let mut i: usize = 0;
            proof {
                assert(fields_names(fields@, 0) =~= Seq::<Seq<char>>::empty());
            }
            while i < fields.len()
                invariant
                    pat is Record && pat->fields == *fields,
                    i <= fields@.len(),
                    builder.wf(),
                    scope.0 < builder.scopes@.len(),
                    l0 == listed_names(b0.bindings@, i0),
                    lowering_step(b0, *builder, i0, bindings@, scope, kind),
                    ids_exist(builder.bindings@, bindings@),
                    listed_names(builder.bindings@, bindings@) == l0 + fresh_names(l0, fields_names(fields@, i as int)),
                    lowered@.len() == named_count(fields@, i as int),
                    forall|k: int|
                        0 <= k < i && (#[trigger] fields@[k]).name is Some ==> field_lowered(
                            builder.pats@,
                            builder.bindings@,
                            builder.pats@.len() as int,
                            lowered@[named_count(fields@, k)],
                            fields@[k],
                            l0 + fresh_names(l0, fields_names(fields@, k)),
                        ),
                decreases fields.len() - i,
            {
                let field = &fields[i];
                let ghost mid = *builder;
                let ghost mid_ids = bindings@;
                let ghost old_lowered = lowered@;
                let ghost cur = l0 + fresh_names(l0, fields_names(fields@, i as int));
                match &field.name {
                    None => {
                        proof {
                            assert(fields_names(fields@, i + 1) =~= fields_names(fields@, i as int));
                        }
                    },
                    Some(name) => {
                        let field_pat = match &field.pat {
                            Some(p) => {
                                proof {
                                    assert(decreases_to!(*pat => pat->fields));
                                    assert(decreases_to!(*fields => fields@));
                                    assert(decreases_to!(fields@ => fields@[i as int]));
                                    assert(decreases_to!(fields@[i as int] => fields@[i as int].pat));
                                    assert(decreases_to!(fields@[i as int].pat => fields@[i as int].pat->0));
                                }
                                let child = lower_pat_inner(builder, p, scope, kind, None, bindings);
                                proof {
                                    lemma_step_extends(mid, *builder, mid_ids, bindings@, scope, kind);
                                    lemma_step_trans(b0, mid, *builder, i0, mid_ids, bindings@, scope, kind);
                                    lemma_names_step(l0, fields_names(fields@, i as int), pat_names(*p));
                                    assert(lowered_pat(builder.pats@, builder.bindings@, child.0 as int, *p, cur, None));
                                }
                                child
                            },
                            None => {
                                let binding = push_pat_binding(
                                    builder,
                                    field.source,
                                    scope,
                                    kind,
                                    name.clone(),
                                    field.text.clone(),
                                    None,
                                    bindings,
                                );
                                let ghost after_binding = *builder;
                                proof {
                                    lemma_step_extends(mid, *builder, mid_ids, bindings@, scope, kind);
                                    lemma_step_trans(b0, mid, *builder, i0, mid_ids, bindings@, scope, kind);
                                    lemma_names_step(l0, fields_names(fields@, i as int), seq![name@]);
                                    assert(fresh_names(cur, seq![name@]) == if cur.contains(name@) { Seq::<Seq<char>>::empty() } else { seq![name@] }) by {
                                        assert(seq![name@].drop_last() =~= Seq::<Seq<char>>::empty());
                                        assert(fresh_names(cur, Seq::<Seq<char>>::empty()) =~= Seq::<Seq<char>>::empty());
                                        assert(cur + Seq::<Seq<char>>::empty() =~= cur);
                                    }
                                    assert(binding_slot(builder.bindings@, binding, name@, cur, field.source, field.text@, None));
                                }
                                let node = finish_pat(
                                    builder,
                                    field.source,
                                    PatKind::Binding { binding, subpat: None },
                                    Ghost(b0),
                                    Ghost(i0),
                                    bindings,
                                    scope,
                                    kind,
                                );
                                proof {
                                    assert(builder.bindings@ == after_binding.bindings@);
                                    assert(seq_extends(after_binding.pats@, builder.pats@));
                                    lemma_extends_trans(mid.pats@, after_binding.pats@, builder.pats@);
                                }
                                node
                            },
                        };
                        lowered.push(RecordPatField { key: FieldKey::Named(name.clone()), pat: field_pat });
                        proof {
                            assert(named_count(fields@, i as int) == old_lowered.len());
                            assert(lowered@[named_count(fields@, i as int)].key@ == FieldKeyView::Named(name@));
                            assert(field_lowered(
                                builder.pats@,
                                builder.bindings@,
                                builder.pats@.len() as int,
                                lowered@[named_count(fields@, i as int)],
                                fields@[i as int],
                                cur,
                            ));
                        }
                    },
                }
                proof {
                    assert(seq_extends(mid.pats@, builder.pats@));
                    assert(seq_extends(mid.bindings@, builder.bindings@));
                    assert(seq_extends(old_lowered, lowered@)) by {
                        assert forall|j: int| 0 <= j < old_lowered.len() implies #[trigger] lowered@[j] == old_lowered[j] by {}
                    }
                    assert forall|k: int| 0 <= k < i + 1 && (#[trigger] fields@[k]).name is Some implies field_lowered(
                        builder.pats@,
                        builder.bindings@,
                        builder.pats@.len() as int,
                        lowered@[named_count(fields@, k)],
                        fields@[k],
                        l0 + fresh_names(l0, fields_names(fields@, k)),
                    ) by {
                        if k < i {
                            assert(lowered@[named_count(fields@, k)] == old_lowered[named_count(fields@, k)]) by {
                                lemma_named_count_mono(fields@, k + 1, i as int);
                                lemma_named_count_mono(fields@, 0, k);
                                assert(named_count(fields@, k + 1) == named_count(fields@, k) + 1);
                                assert(old_lowered.len() == named_count(fields@, i as int));
                                assert(seq_extends(old_lowered, lowered@));
                            }
                            lemma_field_extend(
                                mid.pats@,
                                builder.pats@,
                                mid.bindings@,
                                builder.bindings@,
                                mid.pats@.len() as int,
                                builder.pats@.len() as int,
                                lowered@[named_count(fields@, k)],
                                fields@[k],
                                l0 + fresh_names(l0, fields_names(fields@, k)),
                            );
                        }
                    }
                }
                i = i + 1;
            }
            proof {
                lemma_step_ids_exist(b0, *builder, i0, bindings@, scope, kind);
            }
            let ghost before_node = *builder;
            let ghost lowered_model = lowered@;
            let path_copy = copy_path(path);
            let r = finish_pat(
                builder,
                *source,
                PatKind::Record { path: path_copy, fields: lowered },
                Ghost(b0),
                Ghost(i0),
                bindings,
                scope,
                kind,
            );
            proof {
                assert(seq_extends(before_node.pats@, builder.pats@));
                assert(seq_extends(before_node.bindings@, builder.bindings@));
                assert(fields@.len() == i);
                assert forall|k: int| 0 <= k < fields@.len() && (#[trigger] fields@[k]).name is Some implies field_lowered(
                    builder.pats@,
                    builder.bindings@,
                    r.0 as int,
                    lowered_model[named_count(fields@, k)],
                    fields@[k],
                    l0 + fresh_names(l0, fields_names(fields@, k)),
                ) by {
                    lemma_field_extend(
                        before_node.pats@,
                        builder.pats@,
                        before_node.bindings@,
                        builder.bindings@,
                        before_node.pats@.len() as int,
                        r.0 as int,
                        lowered_model[named_count(fields@, k)],
                        fields@[k],
                        l0 + fresh_names(l0, fields_names(fields@, k)),
                    );
                }
                assert(lowered_fields(builder.pats@, builder.bindings@, r.0 as int, lowered_model, fields@, l0));
                assert(lowered_pat(builder.pats@, builder.bindings@, r.0 as int, *pat, l0, ann));
            }
            r
        },
        PatSyntax::Path { source, path, .. } => {
            proof {
                lemma_step_ids_exist(b0, *builder, i0, bindings@, scope, kind);
            }
            finish_pat(builder, *source, PatKind::Path { path: copy_path(path) }, Ghost(b0), Ghost(i0), bindings, scope, kind)
        },
        PatSyntax::Rest { source, .. } | PatSyntax::Wildcard { source, .. } => {
            let r = finish_pat(builder, *source, PatKind::Wildcard, Ghost(b0), Ghost(i0), bindings, scope, kind);
            proof {
                if pat is Rest {
                    assert(lowered_pat(builder.pats@, builder.bindings@, r.0 as int, *pat, l0, ann));
                } else {
                    assert(lowered_pat(builder.pats@, builder.bindings@, r.0 as int, *pat, l0, ann));
                }
            }
            r
        },
        PatSyntax::Other { source, text } => {
            finish_pat(builder, *source, PatKind::Unsupported { text: text.clone() }, Ghost(b0), Ghost(i0), bindings, scope, kind)
        },
    }
}

proof fn lemma_extends_trans<T>(a: Seq<T>, b: Seq<T>, c: Seq<T>)
    requires
        seq_extends(a, b),
        seq_extends(b, c),
    ensures
        seq_extends(a, c),
{
    assert forall|i: int| 0 <= i < a.len() implies #[trigger] c[i] == a[i] by {
        assert(c[i] == b[i]);
    }
}

/// Counting named fields over a longer prefix counts no fewer.
proof fn lemma_named_count_mono(fields: Seq<RecordPatFieldSyntax>, a: int, b: int)
    requires
        0 <= a <= b,
    ensures
        named_count(fields, a) <= named_count(fields, b),
    decreases b - a,
{
    if a < b {
        lemma_named_count_mono(fields, a, b - 1);
    }
}


/// No name occurs twice.
pub open spec fn distinct_names(names: Seq<Seq<char>>) -> bool {
    forall|i: int, j: int| 0 <= i < j < names.len() ==> names[i] != names[j]
}

/// Dropping repeated names leaves no name twice and none that already existed.
pub proof fn lemma_fresh_distinct(existing: Seq<Seq<char>>, candidates: Seq<Seq<char>>)
    requires
        distinct_names(existing),
    ensures
        distinct_names(existing + fresh_names(existing, candidates)),
    decreases candidates.len(),
{
    if candidates.len() > 0 {
        lemma_fresh_distinct(existing, candidates.drop_last());
        let before = fresh_names(existing, candidates.drop_last());
        let c = candidates.last();
        if !(existing + before).contains(c) {
            let all = existing + before.push(c);
            assert(all =~= (existing + before).push(c));
            assert forall|i: int, j: int| 0 <= i < j < all.len() implies all[i] != all[j] by {
                if j == all.len() - 1 {
                    assert(all[i] == (existing + before)[i]);
                } else {
                    assert(all[i] == (existing + before)[i] && all[j] == (existing + before)[j]);
                }
            }
        }
    }
}

/// Lowers a pattern that introduces bindings of `kind` in `scope`, returning its root and its
/// bindings in order. The bindings' names are those of the pattern, each once, first
/// occurrence first.
pub fn lower_pat(
    builder: &mut BodyBuilder,
    pat: &PatSyntax,
    scope: ScopeId,
    kind: BindingKind,
    annotation: Option<TypeRef>,
) -> (r: (Option<PatId>, Vec<BindingId>))
    requires
        old(builder).wf(),
        scope.0 < old(builder).scopes@.len(),
    ensures
        lowering_step(*old(builder), *final(builder), Seq::empty(), r.1@, scope, kind),
        listed_names(final(builder).bindings@, r.1@) == fresh_names(Seq::empty(), pat_names(*pat)),
        distinct_names(listed_names(final(builder).bindings@, r.1@)),
        r.0 matches Some(root) && root.0 + 1 == final(builder).pats@.len() && final(builder).pats@[root.0 as int].source
            == pat_root_source(*pat),
        r.0 matches Some(root) && lowered_pat(final(builder).pats@, final(builder).bindings@, root.0 as int, *pat, Seq::empty(), annotation),
{
    let mut bindings: Vec<BindingId> = Vec::new();
    proof {
        assert(listed_names(builder.bindings@, bindings@) =~= Seq::<Seq<char>>::empty());
        assert(listed_names(old(builder).bindings@, bindings@) =~= Seq::<Seq<char>>::empty());
    }
    let root = lower_pat_inner(builder, pat, scope, kind, annotation, &mut bindings);
    proof {
        let e = Seq::<Seq<char>>::empty();
        assert(e + fresh_names(e, pat_names(*pat)) =~= fresh_names(e, pat_names(*pat)));
        lemma_fresh_distinct(e, pat_names(*pat));
    }
    (Some(root), bindings)
}

} // verus!
