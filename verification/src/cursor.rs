//! Cursor-oriented queries over lowered function bodies: which body node sits at an offset, and
//! which receiver a dot completion applies to.

use vstd::prelude::*;

use crate::body::{
    BodyData, BodyIrDb, BodySource, BodyTy, ExprData, ExprKind, StmtKind, entry_at,
};
use crate::body_ids::{BindingId, BodyId, BodyItemId, BodyItemRef, BodyRef, ExprId, ScopeId};
use crate::ids::TargetRef;
use crate::item_tree::{GenericArg, TypeBound, TypePath, TypeRef};
use crate::path::{Path, PathSegment};
use crate::text::{FileId, Span};

verus! {

/// One body source node that can participate in cursor queries.
#[derive(Debug)]
pub enum BodyCursorCandidate {
    Body { body: BodyRef, span: Span },
    Binding { body: BodyRef, binding: BindingId, span: Span },
    Expr { body: BodyRef, expr: ExprId, span: Span },
    LocalItem { item: BodyItemRef, span: Span },
    TypePath { body: BodyRef, scope: ScopeId, path: Path, span: Span },
}

impl BodyCursorCandidate {
    pub open spec fn spec_span(&self) -> Span {
        match self {
            BodyCursorCandidate::Body { span, .. } => *span,
            BodyCursorCandidate::Binding { span, .. } => *span,
            BodyCursorCandidate::Expr { span, .. } => *span,
            BodyCursorCandidate::LocalItem { span, .. } => *span,
            BodyCursorCandidate::TypePath { span, .. } => *span,
        }
    }

    /// The span the candidate covers.
    #[verifier::when_used_as_spec(spec_span)]
    pub fn span(&self) -> (r: Span)
        ensures
            r == self.spec_span(),
    {
        match self {
            BodyCursorCandidate::Body { span, .. } => *span,
            BodyCursorCandidate::Binding { span, .. } => *span,
            BodyCursorCandidate::Expr { span, .. } => *span,
            BodyCursorCandidate::LocalItem { span, .. } => *span,
            BodyCursorCandidate::TypePath { span, .. } => *span,
        }
    }
}

/// The innermost body nodes at one offset.
#[derive(Debug, Clone, Copy, PartialEq, Eq, Structural)]
pub struct SourceNodeAt {
    pub body: BodyRef,
    pub expr: Option<ExprId>,
    pub binding: Option<BindingId>,
    pub local_item: Option<BodyItemId>,
}

/// The node's source lies in `file` and touches `offset`.
pub open spec fn source_at(source: BodySource, file_id: FileId, offset: u32) -> bool {
    source.file_id == file_id && source.span.spec_touches(offset)
}

/// Node `i` is the first of the nodes at the offset with the shortest span.
pub open spec fn is_smallest_at(sources: Seq<BodySource>, file_id: FileId, offset: u32, i: int) -> bool {
    &&& 0 <= i < sources.len()
    &&& source_at(sources[i], file_id, offset)
    &&& forall|j: int|
        0 <= j < sources.len() && #[trigger] source_at(sources[j], file_id, offset) ==> sources[i].span.spec_len()
            <= sources[j].span.spec_len() && (j < i ==> sources[i].span.spec_len() < sources[j].span.spec_len())
}

/// The smallest node at the offset, or none when no node touches it.
pub open spec fn smallest_at(sources: Seq<BodySource>, file_id: FileId, offset: u32, r: Option<usize>) -> bool {
    match r {
        Some(i) => is_smallest_at(sources, file_id, offset, i as int),
        None => forall|j: int| 0 <= j < sources.len() ==> !#[trigger] source_at(sources[j], file_id, offset),
    }
}

pub open spec fn expr_sources(exprs: Seq<ExprData>) -> Seq<BodySource> {
    exprs.map_values(|e: ExprData| e.source)
}

pub open spec fn binding_sources(bindings: Seq<crate::body::BindingData>) -> Seq<BodySource> {
    bindings.map_values(|b: crate::body::BindingData| b.source)
}

pub open spec fn item_name_sources(items: Seq<crate::body::BodyItemData>) -> Seq<BodySource> {
    items.map_values(|i: crate::body::BodyItemData| i.name_source)
}

/// One scan step: with `best` the smallest among `sources[..i]`, consider `sources[i]`.
proof fn lemma_smallest_step(sources: Seq<BodySource>, file_id: FileId, offset: u32, i: int, best: Option<usize>)
    requires
        0 <= i < sources.len(),
        i < usize::MAX,
        smallest_at(sources.take(i), file_id, offset, best),
    ensures
        smallest_at(
            sources.take(i + 1),
            file_id,
            offset,
            if source_at(sources[i], file_id, offset) && (best is None || sources[i].span.spec_len()
                < sources[best->0 as int].span.spec_len()) {
                Some(i as usize)
            } else {
                best
            },
        ),
{
    let prefix = sources.take(i);
    let next = sources.take(i + 1);
    assert forall|j: int| 0 <= j < i implies next[j] == prefix[j] by {}
    assert(next[i] == sources[i]);
    if source_at(sources[i], file_id, offset) && (best is None || sources[i].span.spec_len()
        < sources[best->0 as int].span.spec_len()) {
        assert forall|j: int|
            0 <= j < next.len() && #[trigger] source_at(next[j], file_id, offset) implies next[i].span.spec_len()
                <= next[j].span.spec_len() && (j < i ==> next[i].span.spec_len() < next[j].span.spec_len()) by {
            if j < i {
                assert(source_at(prefix[j], file_id, offset));
                match best {
                    Some(b) => {
                        assert(is_smallest_at(prefix, file_id, offset, b as int));
                    },
                    None => {},
                }
            }
        }
        assert(is_smallest_at(next, file_id, offset, i));
    } else {
        match best {
            Some(b) => {
                assert(is_smallest_at(prefix, file_id, offset, b as int));
                assert forall|j: int|
                    0 <= j < next.len() && #[trigger] source_at(next[j], file_id, offset) implies next[b as int].span.spec_len()
                        <= next[j].span.spec_len() && (j < b ==> next[b as int].span.spec_len() < next[j].span.spec_len()) by {
                    if j < i {
                        assert(source_at(prefix[j], file_id, offset));
                    }
                }
            },
            None => {
                assert forall|j: int| 0 <= j < next.len() implies !#[trigger] source_at(next[j], file_id, offset) by {
                    if j < i {
                        assert(!source_at(prefix[j], file_id, offset));
                    }
                }
            },
        }
    }
}

impl BodyIrDb {
    /// The expression at `offset` with the shortest span, the first such on ties.
    pub fn smallest_expr_at(body: &BodyData, file_id: FileId, offset: u32) -> (r: Option<ExprId>)
        ensures
            smallest_at(expr_sources(body.exprs@), file_id, offset, match r {
                Some(e) => Some(e.0),
                None => None,
            }),
    {
        let ghost sources = expr_sources(body.exprs@);
        let mut best: Option<usize> = None;
        let mut i: usize = 0;
        proof {
            assert(sources.take(0) =~= Seq::<BodySource>::empty());
        }
        while i < body.exprs.len()
            invariant
                sources == expr_sources(body.exprs@),
                i <= body.exprs@.len(),
                smallest_at(sources.take(i as int), file_id, offset, best),
            decreases body.exprs.len() - i,
        {
            let source = body.exprs[i].source;
            proof {
                lemma_smallest_step(sources, file_id, offset, i as int, best);
            }
            if source.file_id == file_id && source.span.touches(offset) {
                let better = match best {
                    Some(b) => source.span.len() < body.exprs[b].source.span.len(),
                    None => true,
                };
                if better {
                    best = Some(i);
                }
            }
            i = i + 1;
        }
        proof {
            assert(sources.take(body.exprs@.len() as int) =~= sources);
        }
        match best {
            Some(b) => Some(ExprId(b)),
            None => None,
        }
    }

    /// The binding at `offset` with the shortest span, the first such on ties.
    pub fn smallest_binding_at(body: &BodyData, file_id: FileId, offset: u32) -> (r: Option<BindingId>)
        ensures
            smallest_at(binding_sources(body.bindings@), file_id, offset, match r {
                Some(e) => Some(e.0),
                None => None,
            }),
    {
        let ghost sources = binding_sources(body.bindings@);
        let mut best: Option<usize> = None;
        let mut i: usize = 0;
        proof {
            assert(sources.take(0) =~= Seq::<BodySource>::empty());
        }
        while i < body.bindings.len()
            invariant
                sources == binding_sources(body.bindings@),
                i <= body.bindings@.len(),
                smallest_at(sources.take(i as int), file_id, offset, best),
            decreases body.bindings.len() - i,
        {
            let source = body.bindings[i].source;
            proof {
                lemma_smallest_step(sources, file_id, offset, i as int, best);
            }
            if source.file_id == file_id && source.span.touches(offset) {
                let better = match best {
                    Some(b) => source.span.len() < body.bindings[b].source.span.len(),
                    None => true,
                };
                if better {
                    best = Some(i);
                }
            }
            i = i + 1;
        }
        proof {
            assert(sources.take(body.bindings@.len() as int) =~= sources);
        }
        match best {
            Some(b) => Some(BindingId(b)),
            None => None,
        }
    }

    /// The body-local item whose name is at `offset` with the shortest span, the first such on
    /// ties.
    pub fn smallest_local_item_at(body: &BodyData, file_id: FileId, offset: u32) -> (r: Option<BodyItemId>)
        ensures
            smallest_at(item_name_sources(body.local_items@), file_id, offset, match r {
                Some(e) => Some(e.0),
                None => None,
            }),
    {
        let ghost sources = item_name_sources(body.local_items@);
        let mut best: Option<usize> = None;
        let mut i: usize = 0;
        proof {
            assert(sources.take(0) =~= Seq::<BodySource>::empty());
        }
        while i < body.local_items.len()
            invariant
                sources == item_name_sources(body.local_items@),
                i <= body.local_items@.len(),
                smallest_at(sources.take(i as int), file_id, offset, best),
            decreases body.local_items.len() - i,
        {
            let source = body.local_items[i].name_source;
            proof {
                lemma_smallest_step(sources, file_id, offset, i as int, best);
            }
            if source.file_id == file_id && source.span.touches(offset) {
                let better = match best {
                    Some(b) => source.span.len() < body.local_items[b].name_source.span.len(),
                    None => true,
                };
                if better {
                    best = Some(i);
                }
            }
            i = i + 1;
        }
        proof {
            assert(sources.take(body.local_items@.len() as int) =~= sources);
        }
        match best {
            Some(b) => Some(BodyItemId(b)),
            None => None,
        }
    }
}


/// `node` holds the innermost nodes at the cursor of the last body of the target containing it.
pub open spec fn node_at(bodies: Seq<BodyData>, target: TargetRef, file_id: FileId, offset: u32, node: SourceNodeAt) -> bool {
    &&& node.body.target == target
    &&& body_at(bodies, file_id, offset, Some(node.body.body.0))
    &&& smallest_at(expr_sources(bodies[node.body.body.0 as int].exprs@), file_id, offset, match node.expr {
        Some(e) => Some(e.0),
        None => None,
    })
    &&& smallest_at(binding_sources(bodies[node.body.body.0 as int].bindings@), file_id, offset, match node.binding {
        Some(e) => Some(e.0),
        None => None,
    })
    &&& smallest_at(item_name_sources(bodies[node.body.body.0 as int].local_items@), file_id, offset, match node.local_item {
        Some(e) => Some(e.0),
        None => None,
    })
}

/// A candidate for a node with its span length.
pub type SizedCandidate = (u32, BodyCursorCandidate);

/// `best` after considering `next`: a strictly shorter candidate replaces it.
pub open spec fn pick(best: Option<SizedCandidate>, next: Option<SizedCandidate>) -> Option<SizedCandidate> {
    match next {
        None => best,
        Some(c) => match best {
            None => Some(c),
            Some(b) => if c.0 < b.0 {
                Some(c)
            } else {
                Some(b)
            },
        },
    }
}

pub open spec fn expr_candidate(body: BodyData, node: SourceNodeAt) -> Option<SizedCandidate> {
    match node.expr {
        Some(expr) => match entry_at(body.exprs@, expr.0) {
            Some(data) => Some(
                (data.source.span.spec_len(), BodyCursorCandidate::Expr { body: node.body, expr, span: data.source.span }),
            ),
            None => None,
        },
        None => None,
    }
}

pub open spec fn binding_candidate(body: BodyData, node: SourceNodeAt) -> Option<SizedCandidate> {
    match node.binding {
        Some(binding) => match entry_at(body.bindings@, binding.0) {
            Some(data) => Some(
                (
                    data.source.span.spec_len(),
                    BodyCursorCandidate::Binding { body: node.body, binding, span: data.source.span },
                ),
            ),
            None => None,
        },
        None => None,
    }
}

pub open spec fn item_candidate(body: BodyData, node: SourceNodeAt) -> Option<SizedCandidate> {
    match node.local_item {
        Some(item) => match entry_at(body.local_items@, item.0) {
            Some(data) => Some(
                (
                    data.name_source.span.spec_len(),
                    BodyCursorCandidate::LocalItem {
                        item: BodyItemRef { body: node.body, item },
                        span: data.name_source.span,
                    },
                ),
            ),
            None => None,
        },
        None => None,
    }
}

/// The candidate of the node at the cursor: the shortest of its expression, binding and local
/// item name, in that order on ties; the whole body when there is none.
pub open spec fn candidate_at(body: BodyData, node: SourceNodeAt) -> BodyCursorCandidate {
    match pick(pick(pick(None, expr_candidate(body, node)), binding_candidate(body, node)), item_candidate(body, node)) {
        Some(c) => c.1,
        None => BodyCursorCandidate::Body { body: node.body, span: body.source.span },
    }
}

fn pick_exec(best: Option<SizedCandidate>, next: SizedCandidate) -> (r: Option<SizedCandidate>)
    ensures
        r == pick(best, Some(next)),
{
    match best {
        None => Some(next),
        Some(b) => if next.0 < b.0 {
            Some(next)
        } else {
            Some(b)
        },
    }
}

/// The body a cursor sits in: the last body of the target, in body order, whose source is in
/// `file_id` and contains `offset`.
pub open spec fn body_at(bodies: Seq<BodyData>, file_id: FileId, offset: u32, r: Option<usize>) -> bool {
    match r {
        Some(i) => i < bodies.len() && body_contains(bodies[i as int], file_id, offset) && forall|j: int|
            i < j < bodies.len() ==> !#[trigger] body_contains(bodies[j], file_id, offset),
        None => forall|j: int| 0 <= j < bodies.len() ==> !#[trigger] body_contains(bodies[j], file_id, offset),
    }
}

pub open spec fn body_contains(body: BodyData, file_id: FileId, offset: u32) -> bool {
    body.source.file_id == file_id && body.source.span.spec_contains(offset)
}

/// The receiver of a method call or field access.
pub open spec fn receiver_of(expr: ExprData) -> Option<ExprId> {
    match expr.kind {
        ExprKind::MethodCall { receiver, .. } => receiver,
        ExprKind::Field { base, .. } => base,
        _ => None,
    }
}

/// The span of the member name after the dot.
pub open spec fn member_name_span_of(expr: ExprData) -> Option<Span> {
    match expr.kind {
        ExprKind::MethodCall { method_name_span, .. } => method_name_span,
        ExprKind::Field { field_span, .. } => field_span,
        _ => None,
    }
}

/// The span of the dot.
pub open spec fn dot_span_of(expr: ExprData) -> Option<Span> {
    match expr.kind {
        ExprKind::MethodCall { dot_span, .. } => dot_span,
        ExprKind::Field { dot_span, .. } => dot_span,
        _ => None,
    }
}

/// The offset lies in the completion range of a dot expression: after the dot, which follows
/// the receiver, and no later than the end of the member name (or of the expression when it
/// has no member name yet).
pub open spec fn in_dot_expr(expr: ExprData, body: BodyData, offset: u32) -> bool {
    match receiver_of(expr) {
        None => false,
        Some(receiver) => match entry_at(body.exprs@, receiver.0) {
            None => false,
            Some(receiver_data) => match dot_span_of(expr) {
                None => false,
                Some(dot) => {
                    let end = match member_name_span_of(expr) {
                        Some(span) => span.text.end,
                        None => expr.source.span.text.end,
                    };
                    receiver_data.source.span.text.end <= dot.text.start && dot.text.end <= offset && offset <= end
                },
            },
        },
    }
}

/// The receiver of a method call or field access.
pub fn receiver_expr(expr: &ExprData) -> (r: Option<ExprId>)
    ensures
        r == receiver_of(*expr),
{
    match &expr.kind {
        ExprKind::MethodCall { receiver, .. } => *receiver,
        ExprKind::Field { base, .. } => *base,
        _ => None,
    }
}

fn member_name_span(expr: &ExprData) -> (r: Option<Span>)
    ensures
        r == member_name_span_of(*expr),
{
    match &expr.kind {
        ExprKind::MethodCall { method_name_span, .. } => *method_name_span,
        ExprKind::Field { field_span, .. } => *field_span,
        _ => None,
    }
}

fn dot_span(expr: &ExprData) -> (r: Option<Span>)
    ensures
        r == dot_span_of(*expr),
{
    match &expr.kind {
        ExprKind::MethodCall { dot_span, .. } => *dot_span,
        ExprKind::Field { dot_span, .. } => *dot_span,
        _ => None,
    }
}

/// Whether `offset` is in the completion range of a dot expression of `body`.
pub fn offset_in_dot_expr(expr: &ExprData, body: &BodyData, offset: u32) -> (r: bool)
    ensures
        r == in_dot_expr(*expr, *body, offset),
{
    let receiver = match receiver_expr(expr) {
        Some(receiver) => receiver,
        None => return false,
    };
    let receiver_data = match body.expr(receiver) {
        Some(data) => data,
        None => return false,
    };
    let dot = match dot_span(expr) {
        Some(span) => span,
        None => return false,
    };
    let completion_end = match member_name_span(expr) {
        Some(span) => span.text.end,
        None => expr.source.span.text.end,
    };
    receiver_data.source.span.text.end <= dot.text.start && dot.text.end <= offset && offset <= completion_end
}

/// A dot site: expression `e` of body `b` at the cursor.
pub open spec fn dot_site(bodies: Seq<BodyData>, file_id: FileId, offset: u32, b: int, e: int) -> bool {
    &&& 0 <= b < bodies.len()
    &&& body_contains(bodies[b], file_id, offset)
    &&& 0 <= e < bodies[b].exprs@.len()
    &&& bodies[b].exprs@[e].source.file_id == file_id
    &&& in_dot_expr(bodies[b].exprs@[e], bodies[b], offset)
}

pub open spec fn site_len(bodies: Seq<BodyData>, b: int, e: int) -> u32 {
    bodies[b].exprs@[e].source.span.spec_len()
}

/// `(b, e)` is the first dot site, in body then expression order, with the shortest span.
pub open spec fn best_dot_site(bodies: Seq<BodyData>, file_id: FileId, offset: u32, b: int, e: int) -> bool {
    &&& dot_site(bodies, file_id, offset, b, e)
    &&& forall|b2: int, e2: int|
        #[trigger] dot_site(bodies, file_id, offset, b2, e2) ==> site_len(bodies, b, e) <= site_len(bodies, b2, e2)
            && ((b2 < b || (b2 == b && e2 < e)) ==> site_len(bodies, b, e) < site_len(bodies, b2, e2))
}

impl BodyIrDb {
    /// The cursor candidate of the innermost node at the cursor inside one body.
    pub fn candidate_for_source_node(body: &BodyData, source_node: SourceNodeAt) -> (r: BodyCursorCandidate)
        ensures
            r == candidate_at(*body, source_node),
    {
        let mut best: Option<SizedCandidate> = None;
        if let Some(expr) = source_node.expr {
            if let Some(data) = body.expr(expr) {
                best = pick_exec(
                    best,
                    (data.source.span.len(), BodyCursorCandidate::Expr { body: source_node.body, expr, span: data.source.span }),
                );
            }
        }
        proof {
            assert(best == pick(None, expr_candidate(*body, source_node)));
        }
        if let Some(binding) = source_node.binding {
            if let Some(data) = body.binding(binding) {
                best = pick_exec(
                    best,
                    (
                        data.source.span.len(),
                        BodyCursorCandidate::Binding { body: source_node.body, binding, span: data.source.span },
                    ),
                );
            }
        }
        proof {
            assert(best == pick(pick(None, expr_candidate(*body, source_node)), binding_candidate(*body, source_node)));
        }
        if let Some(item) = source_node.local_item {
            if let Some(data) = body.local_item(item) {
                best = pick_exec(
                    best,
                    (
                        data.name_source.span.len(),
                        BodyCursorCandidate::LocalItem {
                            item: BodyItemRef { body: source_node.body, item },
                            span: data.name_source.span,
                        },
                    ),
                );
            }
        }
        match best {
            Some(c) => c.1,
            None => BodyCursorCandidate::Body { body: source_node.body, span: body.source.span },
        }
    }

    /// The innermost body nodes at `offset`, inside the last body that contains it.
    pub fn source_node_at(&self, target: TargetRef, file_id: FileId, offset: u32) -> (r: Option<SourceNodeAt>)
        ensures
            match self.target_spec(target) {
                Some(t) => match r {
                    Some(node) => node_at(t.bodies@, target, file_id, offset, node),
                    None => body_at(t.bodies@, file_id, offset, None),
                },
                None => r is None,
            },
    {
        let target_bodies = match self.target_bodies(target) {
            Some(t) => t,
            None => return None,
        };
        let bodies = &target_bodies.bodies;
        let mut best: Option<SourceNodeAt> = None;
        let mut i: usize = 0;
        while i < bodies.len()
            invariant
                i <= bodies@.len(),
                match best {
                    Some(node) => {
                        &&& node.body.target == target
                        &&& node.body.body.0 < i
                        &&& body_contains(bodies@[node.body.body.0 as int], file_id, offset)
                        &&& forall|j: int| node.body.body.0 < j < i ==> !#[trigger] body_contains(bodies@[j], file_id, offset)
                        &&& smallest_at(expr_sources(bodies@[node.body.body.0 as int].exprs@), file_id, offset, match node.expr {
                            Some(e) => Some(e.0),
                            None => None,
                        })
                        &&& smallest_at(binding_sources(bodies@[node.body.body.0 as int].bindings@), file_id, offset, match node.binding {
                            Some(e) => Some(e.0),
                            None => None,
                        })
                        &&& smallest_at(item_name_sources(bodies@[node.body.body.0 as int].local_items@), file_id, offset, match node.local_item {
                            Some(e) => Some(e.0),
                            None => None,
                        })
                    },
                    None => forall|j: int| 0 <= j < i ==> !#[trigger] body_contains(bodies@[j], file_id, offset),
                },
            decreases bodies.len() - i,
        {
            let body = &bodies[i];
            if body.source.file_id == file_id && body.source.span.contains(offset) {
                let body_ref = BodyRef { target, body: BodyId(i) };
                best = Some(SourceNodeAt {
                    body: body_ref,
                    expr: Self::smallest_expr_at(body, file_id, offset),
                    binding: Self::smallest_binding_at(body, file_id, offset),
                    local_item: Self::smallest_local_item_at(body, file_id, offset),
                });
            }
            i = i + 1;
        }
        best
    }

    /// The receiver expression of the dot completion at the cursor: over every body that
    /// contains the offset, the dot expression with the shortest span whose completion range
    /// holds the offset, the first such on ties.
    pub fn receiver_expr_at_dot(&self, target: TargetRef, file_id: FileId, offset: u32) -> (r: Option<(BodyRef, ExprId)>)
        ensures
            self.target_spec(target) is None ==> r is None,
            self.target_spec(target) matches Some(t) ==> (r matches Some(site) ==> site.0.target == target
                && exists|e: int|
                best_dot_site(t.bodies@, file_id, offset, site.0.body.0 as int, e) && receiver_of(
                    t.bodies@[site.0.body.0 as int].exprs@[e],
                ) == Some(site.1)),
            self.target_spec(target) matches Some(t) ==> (r is None ==> forall|b: int, e: int|
                !#[trigger] dot_site(t.bodies@, file_id, offset, b, e)),
    {
        let target_bodies = match self.target_bodies(target) {
            Some(t) => t,
            None => return None,
        };
        let bodies = &target_bodies.bodies;
        let mut best: Option<(BodyRef, ExprId, u32)> = None;
        let ghost mut best_expr: int = 0;
        let mut i: usize = 0;
        while i < bodies.len()
            invariant
                i <= bodies@.len(),
                match best {
                    Some((body_ref, receiver, len)) => {
                        &&& body_ref.target == target
                        &&& body_ref.body.0 < i
                        &&& dot_site(bodies@, file_id, offset, body_ref.body.0 as int, best_expr)
                        &&& len == site_len(bodies@, body_ref.body.0 as int, best_expr)
                        &&& receiver_of(bodies@[body_ref.body.0 as int].exprs@[best_expr]) == Some(receiver)
                        &&& forall|b2: int, e2: int|
                            b2 < i && #[trigger] dot_site(bodies@, file_id, offset, b2, e2) ==> len <= site_len(bodies@, b2, e2)
                                && ((b2 < body_ref.body.0 || (b2 == body_ref.body.0 && e2 < best_expr)) ==> len < site_len(bodies@, b2, e2))
                    },
                    None => forall|b2: int, e2: int| b2 < i ==> !#[trigger] dot_site(bodies@, file_id, offset, b2, e2),
                },
            decreases bodies.len() - i,
        {
            let body = &bodies[i];
            if body.source.file_id == file_id && body.source.span.contains(offset) {
                let body_ref = BodyRef { target, body: BodyId(i) };
                let mut k: usize = 0;
                while k < body.exprs.len()
                    invariant
                        i < bodies@.len(),
                        *body == bodies@[i as int],
                        body_contains(*body, file_id, offset),
                        body_ref == (BodyRef { target, body: BodyId(i) }),
                        k <= body.exprs@.len(),
                        match best {
                            Some((best_ref, receiver, len)) => {
                                &&& best_ref.target == target
                                &&& best_ref.body.0 <= i
                                &&& (best_ref.body.0 == i ==> best_expr < k)
                                &&& dot_site(bodies@, file_id, offset, best_ref.body.0 as int, best_expr)
                                &&& len == site_len(bodies@, best_ref.body.0 as int, best_expr)
                                &&& receiver_of(bodies@[best_ref.body.0 as int].exprs@[best_expr]) == Some(receiver)
                                &&& forall|b2: int, e2: int|
                                    (b2 < i || (b2 == i && e2 < k)) && #[trigger] dot_site(bodies@, file_id, offset, b2, e2)
                                        ==> len <= site_len(bodies@, b2, e2) && ((b2 < best_ref.body.0 || (b2 == best_ref.body.0
                                        && e2 < best_expr)) ==> len < site_len(bodies@, b2, e2))
                            },
                            None => forall|b2: int, e2: int|
                                (b2 < i || (b2 == i && e2 < k)) ==> !#[trigger] dot_site(bodies@, file_id, offset, b2, e2),
                        },
                    decreases body.exprs.len() - k,
                {
                    let expr = &body.exprs[k];
                    if expr.source.file_id == file_id && offset_in_dot_expr(expr, body, offset) {
                        if let Some(receiver) = receiver_expr(expr) {
                            let len = expr.source.span.len();
                            let better = match best {
                                Some((_, _, best_len)) => len < best_len,
                                None => true,
                            };
                            if better {
                                best = Some((body_ref, receiver, len));
                                proof {
                                    best_expr = k as int;
                                }
                            }
                        }
                    }
                    proof {
                        assert(dot_site(bodies@, file_id, offset, i as int, k as int) == (expr.source.file_id == file_id
                            && in_dot_expr(*expr, *body, offset)));
                    }
                    k = k + 1;
                }
            } else {
                proof {
                    assert forall|e2: int| !#[trigger] dot_site(bodies@, file_id, offset, i as int, e2) by {}
                }
            }
            i = i + 1;
        }
        proof {
            match best {
                Some((best_ref, receiver, len)) => {
                    assert forall|b2: int, e2: int| #[trigger] dot_site(bodies@, file_id, offset, b2, e2) implies site_len(
                        bodies@,
                        best_ref.body.0 as int,
                        best_expr,
                    ) <= site_len(bodies@, b2, e2) && ((b2 < best_ref.body.0 || (b2 == best_ref.body.0 && e2
                        < best_expr)) ==> site_len(bodies@, best_ref.body.0 as int, best_expr) < site_len(bodies@, b2, e2)) by {
                        assert(b2 < bodies@.len());
                    }
                    assert(best_dot_site(bodies@, file_id, offset, best_ref.body.0 as int, best_expr));
                    assert(receiver_of(bodies@[best_ref.body.0 as int].exprs@[best_expr]) == Some(receiver));
                    assert(self.target_spec(target) == Some(*target_bodies));
                    assert(exists|e: int|
                        best_dot_site(target_bodies.bodies@, file_id, offset, best_ref.body.0 as int, e) && receiver_of(
                            target_bodies.bodies@[best_ref.body.0 as int].exprs@[e],
                        ) == Some(receiver));
                },
                None => {
                    assert forall|b2: int, e2: int| !#[trigger] dot_site(bodies@, file_id, offset, b2, e2) by {
                        if dot_site(bodies@, file_id, offset, b2, e2) {
                            assert(b2 < bodies@.len());
                        }
                    }
                },
            }
        }
        match best {
            Some((body_ref, receiver, _)) => {
                let r = Some((body_ref, receiver));
                proof {
                    let t = *target_bodies;
                    assert(best_dot_site(t.bodies@, file_id, offset, body_ref.body.0 as int, best_expr));
                    assert(receiver_of(t.bodies@[body_ref.body.0 as int].exprs@[best_expr]) == Some(receiver));
                }
                r
            },
            None => None,
        }
    }

    /// The type inferred for the receiver of the dot completion at the cursor.
    pub fn receiver_ty_at_dot(&self, target: TargetRef, file_id: FileId, offset: u32) -> (r: Option<&BodyTy>)
        ensures
            match self.target_spec(target) {
                None => r is None,
                Some(t) => match r {
                    Some(ty) => exists|b: int, e: int|
                        #![trigger best_dot_site(t.bodies@, file_id, offset, b, e)]
                        best_dot_site(t.bodies@, file_id, offset, b, e) && (receiver_of(t.bodies@[b].exprs@[e]) matches Some(
                            receiver,
                        ) && *ty == t.bodies@[b].exprs@[receiver.0 as int].ty),
                    None => forall|b: int, e: int| !#[trigger] dot_site(t.bodies@, file_id, offset, b, e),
                },
            },
    {
        let (body_ref, receiver) = match self.receiver_expr_at_dot(target, file_id, offset) {
            Some(site) => site,
            None => return None,
        };
        let ghost t = self.target_spec(target)->0;
        let ghost e = choose|e: int|
            best_dot_site(t.bodies@, file_id, offset, body_ref.body.0 as int, e) && receiver_of(
                t.bodies@[body_ref.body.0 as int].exprs@[e],
            ) == Some(receiver);
        proof {
            assert(dot_site(t.bodies@, file_id, offset, body_ref.body.0 as int, e));
            assert(self.body_spec(body_ref) == Some(t.bodies@[body_ref.body.0 as int]));
        }
        match self.body_data(body_ref) {
            Some(body) => match body.expr(receiver) {
                Some(expr) => Some(&expr.ty),
                None => None,
            },
            None => None,
        }
    }
}


/// The path made of the first `count` segments of a type path.
pub open spec fn type_path_prefix(path: TypePath, count: int) -> crate::path::PathView {
    crate::path::PathView {
        absolute: path.absolute,
        segments: type_segments_view(path.segments@.take(count)),
    }
}

/// Models of written type-path segments.
pub open spec fn type_segments_view(segments: Seq<crate::item_tree::TypePathSegment>) -> Seq<crate::path::SegmentView> {
    segments.map_values(|s: crate::item_tree::TypePathSegment| crate::path::segment_for_name(s.name@))
}

/// Model of a candidate: type-path candidates carry their path's model.
pub enum CandidateView {
    Body { body: BodyRef, span: Span },
    Binding { body: BodyRef, binding: BindingId, span: Span },
    Expr { body: BodyRef, expr: ExprId, span: Span },
    LocalItem { item: BodyItemRef, span: Span },
    TypePath { body: BodyRef, scope: ScopeId, path: crate::path::PathView, span: Span },
}

impl View for BodyCursorCandidate {
    type V = CandidateView;

    open spec fn view(&self) -> CandidateView {
        match self {
            BodyCursorCandidate::Body { body, span } => CandidateView::Body { body: *body, span: *span },
            BodyCursorCandidate::Binding { body, binding, span } => CandidateView::Binding { body: *body, binding: *binding, span: *span },
            BodyCursorCandidate::Expr { body, expr, span } => CandidateView::Expr { body: *body, expr: *expr, span: *span },
            BodyCursorCandidate::LocalItem { item, span } => CandidateView::LocalItem { item: *item, span: *span },
            BodyCursorCandidate::TypePath { body, scope, path, span } => CandidateView::TypePath {
                body: *body,
                scope: *scope,
                path: path@,
                span: *span,
            },
        }
    }
}

pub open spec fn candidates_view(candidates: Seq<BodyCursorCandidate>) -> Seq<CandidateView> {
    candidates.map_values(|c: BodyCursorCandidate| c@)
}

/// The type-path candidates of a type as written, in source order: one for every path segment
/// whose span touches `offset`, standing for the path up to that segment, including the
/// segments of nested types and generic arguments.
pub open spec fn type_ref_candidates(body: BodyRef, scope: ScopeId, ty: TypeRef, offset: u32) -> Seq<CandidateView>
    decreases ty,
{
    match ty {
        TypeRef::Path(path) => path_candidates(body, scope, path, offset, path.segments@.len() as int),
        TypeRef::Tuple(types) => types_candidates(body, scope, types@, offset, types@.len() as int),
        TypeRef::Reference { inner, .. } => type_ref_candidates(body, scope, *inner, offset),
        TypeRef::RawPointer { inner, .. } => type_ref_candidates(body, scope, *inner, offset),
        TypeRef::Slice(inner) => type_ref_candidates(body, scope, *inner, offset),
        TypeRef::Array { inner, .. } => type_ref_candidates(body, scope, *inner, offset),
        TypeRef::FnPointer { params, ret } => types_candidates(body, scope, params@, offset, params@.len() as int)
            + type_ref_candidates(body, scope, *ret, offset),
        TypeRef::ImplTrait(bounds) => bounds_candidates(body, scope, bounds@, offset, bounds@.len() as int),
        TypeRef::DynTrait(bounds) => bounds_candidates(body, scope, bounds@, offset, bounds@.len() as int),
        _ => Seq::empty(),
    }
}

pub open spec fn types_candidates(body: BodyRef, scope: ScopeId, types: Seq<TypeRef>, offset: u32, n: int) -> Seq<CandidateView>
    decreases types, n,
{
    if n <= 0 || n > types.len() {
        Seq::empty()
    } else {
        types_candidates(body, scope, types, offset, n - 1) + type_ref_candidates(body, scope, types[n - 1], offset)
    }
}

pub open spec fn bounds_candidates(body: BodyRef, scope: ScopeId, bounds: Seq<TypeBound>, offset: u32, n: int) -> Seq<CandidateView>
    decreases bounds, n,
{
    if n <= 0 || n > bounds.len() {
        Seq::empty()
    } else {
        bounds_candidates(body, scope, bounds, offset, n - 1) + match bounds[n - 1] {
            TypeBound::Trait(ty) => type_ref_candidates(body, scope, ty, offset),
            _ => Seq::empty(),
        }
    }
}

pub open spec fn args_candidates(body: BodyRef, scope: ScopeId, args: Seq<GenericArg>, offset: u32, n: int) -> Seq<CandidateView>
    decreases args, n,
{
    if n <= 0 || n > args.len() {
        Seq::empty()
    } else {
        args_candidates(body, scope, args, offset, n - 1) + match args[n - 1] {
            GenericArg::Type(ty) => type_ref_candidates(body, scope, ty, offset),
            GenericArg::AssocType { ty: Some(ty), .. } => type_ref_candidates(body, scope, ty, offset),
            _ => Seq::empty(),
        }
    }
}

pub open spec fn path_candidates(body: BodyRef, scope: ScopeId, path: TypePath, offset: u32, n: int) -> Seq<CandidateView>
    decreases path, n,
{
    if n <= 0 || n > path.segments@.len() {
        Seq::empty()
    } else {
        let segment = path.segments@[n - 1];
        let own = if segment.span.spec_touches(offset) {
            seq![CandidateView::TypePath { body, scope, path: type_path_prefix(path, n), span: segment.span }]
        } else {
            Seq::empty()
        };
        path_candidates(body, scope, path, offset, n - 1) + own + args_candidates(
            body,
            scope,
            segment.args@,
            offset,
            segment.args@.len() as int,
        )
    }
}


/// The path made of the first `count` segments of a type path.
pub fn path_from_type_path_prefix(path: &TypePath, count: usize) -> (r: Path)
    requires
        count <= path.segments@.len(),
    ensures
        r@ == type_path_prefix(*path, count as int),
{
    let mut segments: Vec<PathSegment> = Vec::new();
    let mut i: usize = 0;
    while i < count
        invariant
            count <= path.segments@.len(),
            i <= count,
            segments@.len() == i,
            crate::path::segments_view(segments@) == type_segments_view(path.segments@.take(i as int)),
        decreases count - i,
    {
        let segment = PathSegment::from_name(&path.segments[i].name);
        let ghost before = segments@;
        segments.push(segment);
        proof {
            let want = type_segments_view(path.segments@.take(i + 1));
            let have = crate::path::segments_view(segments@);
            assert(have.len() == want.len());
            assert forall|k: int| 0 <= k < have.len() implies have[k] == want[k] by {
                if k < i {
                    assert(segments@[k] == before[k]);
                    assert(crate::path::segments_view(before)[k] == type_segments_view(path.segments@.take(i as int))[k]);
                } else {
                    assert(segments@[k] == segment);
                }
            }
            assert(have =~= want);
        }
        i = i + 1;
    }
    Path { absolute: path.absolute, segments }
}

fn push_candidate(out: &mut Vec<BodyCursorCandidate>, candidate: BodyCursorCandidate)
    ensures
        candidates_view(final(out)@) == candidates_view(old(out)@).push(candidate@),
{
    out.push(candidate);
    assert(candidates_view(out@) =~= candidates_view(old(out)@).push(candidate@));
}

/// Pushes the type-path candidates of `ty` at `offset`.
pub fn scan_type_ref(body: BodyRef, scope: ScopeId, ty: &TypeRef, offset: u32, out: &mut Vec<BodyCursorCandidate>)
    ensures
        candidates_view(final(out)@) == candidates_view(old(out)@) + type_ref_candidates(body, scope, *ty, offset),
    decreases ty,
{
    let ghost start = candidates_view(out@);
    match ty {
        TypeRef::Path(path) => {
            let mut i: usize = 0;
            while i < path.segments.len()
                invariant
                    *ty == TypeRef::Path(*path),
                    i <= path.segments@.len(),
                    candidates_view(out@) == start + path_candidates(body, scope, *path, offset, i as int),
                decreases path.segments.len() - i,
            {
                let segment = &path.segments[i];
                let ghost before = candidates_view(out@);
                if segment.span.touches(offset) {
                    let candidate = BodyCursorCandidate::TypePath {
                        body,
                        scope,
                        path: path_from_type_path_prefix(path, i + 1),
                        span: segment.span,
                    };
                    push_candidate(out, candidate);
                }
                let ghost after_own = candidates_view(out@);
                let mut j: usize = 0;
                while j < segment.args.len()
                    invariant
                        *ty == TypeRef::Path(*path),
                        i < path.segments@.len(),
                        *segment == path.segments@[i as int],
                        j <= segment.args@.len(),
                        candidates_view(out@) == after_own + args_candidates(body, scope, segment.args@, offset, j as int),
                    decreases segment.args.len() - j,
                {
                    let ghost before_arg = candidates_view(out@);
                    proof {
                        assert(decreases_to!(*ty => ty->Path_0));
                        assert(decreases_to!(*path => path.segments));
                        assert(decreases_to!(path.segments => path.segments@));
                        assert(decreases_to!(path.segments@ => path.segments@[i as int]));
                        assert(decreases_to!(*segment => segment.args));
                        assert(decreases_to!(segment.args => segment.args@));
                        assert(decreases_to!(segment.args@ => segment.args@[j as int]));
                    }
                    match &segment.args[j] {
                        GenericArg::Type(inner) => {
                            proof {
                                assert(decreases_to!(segment.args@[j as int] => segment.args@[j as int]->Type_0));
                            }
                            scan_type_ref(body, scope, inner, offset, out);
                        },
                        GenericArg::AssocType { ty: Some(inner), .. } => {
                            proof {
                                let arg = segment.args@[j as int];
                                assert(decreases_to!(arg => arg->AssocType_ty));
                                assert(decreases_to!(arg->AssocType_ty => arg->AssocType_ty->0));
                            }
                            scan_type_ref(body, scope, inner, offset, out);
                        },
                        _ => {},
                    }
                    proof {
                        assert(candidates_view(out@) =~= after_own + args_candidates(body, scope, segment.args@, offset, j + 1));
                    }
                    j = j + 1;
                }
                proof {
                    assert(candidates_view(out@) =~= start + path_candidates(body, scope, *path, offset, i + 1));
                }
                i = i + 1;
            }
        },
        TypeRef::Tuple(types) => {
            let mut i: usize = 0;
            while i < types.len()
                invariant
                    *ty == TypeRef::Tuple(*types),
                    i <= types@.len(),
                    candidates_view(out@) == start + types_candidates(body, scope, types@, offset, i as int),
                decreases types.len() - i,
            {
                proof {
                    assert(decreases_to!(*ty => ty->Tuple_0));
                    assert(decreases_to!(*types => types@));
                    assert(decreases_to!(types@ => types@[i as int]));
                }
                scan_type_ref(body, scope, &types[i], offset, out);
                proof {
                    assert(candidates_view(out@) =~= start + types_candidates(body, scope, types@, offset, i + 1));
                }
                i = i + 1;
            }
        },
        TypeRef::Reference { inner, .. } => {
            scan_type_ref(body, scope, inner, offset, out);
        },
        TypeRef::RawPointer { inner, .. } => {
            scan_type_ref(body, scope, inner, offset, out);
        },
        TypeRef::Slice(inner) => {
            scan_type_ref(body, scope, inner, offset, out);
        },
        TypeRef::Array { inner, .. } => {
            scan_type_ref(body, scope, inner, offset, out);
        },
        TypeRef::FnPointer { params, ret } => {
            let mut i: usize = 0;
            while i < params.len()
                invariant
                    *ty == (TypeRef::FnPointer { params: *params, ret: *ret }),
                    i <= params@.len(),
                    candidates_view(out@) == start + types_candidates(body, scope, params@, offset, i as int),
                decreases params.len() - i,
            {
                proof {
                    assert(decreases_to!(*ty => ty->params));
                    assert(decreases_to!(*params => params@));
                    assert(decreases_to!(params@ => params@[i as int]));
                }
                scan_type_ref(body, scope, &params[i], offset, out);
                proof {
                    assert(candidates_view(out@) =~= start + types_candidates(body, scope, params@, offset, i + 1));
                }
                i = i + 1;
            }
            scan_type_ref(body, scope, ret, offset, out);
            proof {
                assert(candidates_view(out@) =~= start + type_ref_candidates(body, scope, *ty, offset));
            }
        },
        TypeRef::ImplTrait(bounds) => {
            let mut i: usize = 0;
            while i < bounds.len()
                invariant
                    *ty == TypeRef::ImplTrait(*bounds) || *ty == TypeRef::DynTrait(*bounds),
                    i <= bounds@.len(),
                    candidates_view(out@) == start + bounds_candidates(body, scope, bounds@, offset, i as int),
                decreases bounds.len() - i,
            {
                proof {
                    if *ty == TypeRef::ImplTrait(*bounds) {
                        assert(decreases_to!(*ty => ty->ImplTrait_0));
                    } else {
                        assert(decreases_to!(*ty => ty->DynTrait_0));
                    }
                    assert(decreases_to!(*bounds => bounds@));
                    assert(decreases_to!(bounds@ => bounds@[i as int]));
                }
                match &bounds[i] {
                    TypeBound::Trait(inner) => {
                        proof {
                            assert(decreases_to!(bounds@[i as int] => bounds@[i as int]->Trait_0));
                        }
                        scan_type_ref(body, scope, inner, offset, out);
                    },
                    _ => {},
                }
                proof {
                    assert(candidates_view(out@) =~= start + bounds_candidates(body, scope, bounds@, offset, i + 1));
                }
                i = i + 1;
            }
        },
        TypeRef::DynTrait(bounds) => {
            let mut i: usize = 0;
            while i < bounds.len()
                invariant
                    *ty == TypeRef::ImplTrait(*bounds) || *ty == TypeRef::DynTrait(*bounds),
                    i <= bounds@.len(),
                    candidates_view(out@) == start + bounds_candidates(body, scope, bounds@, offset, i as int),
                decreases bounds.len() - i,
            {
                proof {
                    if *ty == TypeRef::ImplTrait(*bounds) {
                        assert(decreases_to!(*ty => ty->ImplTrait_0));
                    } else {
                        assert(decreases_to!(*ty => ty->DynTrait_0));
                    }
                    assert(decreases_to!(*bounds => bounds@));
                    assert(decreases_to!(bounds@ => bounds@[i as int]));
                }
                match &bounds[i] {
                    TypeBound::Trait(inner) => {
                        proof {
                            assert(decreases_to!(bounds@[i as int] => bounds@[i as int]->Trait_0));
                        }
                        scan_type_ref(body, scope, inner, offset, out);
                    },
                    _ => {},
                }
                proof {
                    assert(candidates_view(out@) =~= start + bounds_candidates(body, scope, bounds@, offset, i + 1));
                }
                i = i + 1;
            }
        },
        _ => {
            proof {
                assert(candidates_view(out@) =~= start + type_ref_candidates(body, scope, *ty, offset));
            }
        },
    }
}


/// The type-path candidates of the let annotations among the first `n` statements in `file_id`.
pub open spec fn statements_candidates(body: BodyRef, statements: Seq<crate::body::StmtData>, file_id: FileId, offset: u32, n: int) -> Seq<CandidateView>
    decreases n,
{
    if n <= 0 || n > statements.len() {
        Seq::empty()
    } else {
        let statement = statements[n - 1];
        statements_candidates(body, statements, file_id, offset, n - 1) + if statement.source.file_id == file_id {
            match statement.kind {
                StmtKind::Let { scope, annotation: Some(annotation), .. } => type_ref_candidates(body, scope, annotation, offset),
                _ => Seq::empty(),
            }
        } else {
            Seq::empty()
        }
    }
}

impl BodyIrDb {
    /// Body-local cursor candidates at `offset`: first the innermost node, then every type-path
    /// segment of a let annotation that touches the offset.
    pub fn cursor_candidates(&self, target: TargetRef, file_id: FileId, offset: u32) -> (r: Vec<BodyCursorCandidate>)
        ensures
            match self.target_spec(target) {
                Some(t) => if body_at(t.bodies@, file_id, offset, None) {
                    r@.len() == 0
                } else {
                    exists|node: SourceNodeAt|
                        #[trigger] node_at(t.bodies@, target, file_id, offset, node) && candidates_view(r@) == seq![
                            candidate_at(t.bodies@[node.body.body.0 as int], node)@,
                        ] + statements_candidates(
                            node.body,
                            t.bodies@[node.body.body.0 as int].statements@,
                            file_id,
                            offset,
                            t.bodies@[node.body.body.0 as int].statements@.len() as int,
                        )
                },
                None => r@.len() == 0,
            },
    {
        let mut candidates: Vec<BodyCursorCandidate> = Vec::new();
        let node = match self.source_node_at(target, file_id, offset) {
            Some(node) => node,
            None => return candidates,
        };
        let body = match self.body_data(node.body) {
            Some(body) => body,
            None => return candidates,
        };
        let first = Self::candidate_for_source_node(body, node);
        candidates.push(first);
        let ghost start = candidates_view(candidates@);
        proof {
            assert(start =~= seq![first@]);
        }
        let mut i: usize = 0;
        while i < body.statements.len()
            invariant
                i <= body.statements@.len(),
                candidates_view(candidates@) == start + statements_candidates(node.body, body.statements@, file_id, offset, i as int),
            decreases body.statements.len() - i,
        {
            let statement = &body.statements[i];
            if statement.source.file_id == file_id {
                match &statement.kind {
                    StmtKind::Let { scope, annotation: Some(annotation), .. } => {
                        scan_type_ref(node.body, *scope, annotation, offset, &mut candidates);
                    },
                    _ => {},
                }
            }
            proof {
                assert(candidates_view(candidates@) =~= start + statements_candidates(node.body, body.statements@, file_id, offset, i + 1));
            }
            i = i + 1;
        }
        proof {
            let t = self.target_spec(target)->0;
            assert(node_at(t.bodies@, target, file_id, offset, node));
        }
        candidates
    }
}

} // verus!
