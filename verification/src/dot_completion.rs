//! Member completions after a dot: the fields and `self` methods of the receiver's type.
//!
//! For `user.$0` the receiver's type names body-local items and module-level types. Each gives its
//! fields, then its inherent methods (for a module-level type, those of impls that apply to the
//! receiver's arguments), then the methods of the traits it implements. A member already offered
//! is not offered twice, and the list is ordered by label, then fields before inherent methods
//! before trait methods, keeping the collection order among equal keys.

use vstd::prelude::*;

use crate::body::{BodyIrDb, BodyTy, ResolvedFieldRef, ResolvedFunctionRef, entry_at, inherent_functions};
use crate::body_ids::{BodyFieldRef, BodyFunctionRef, BodyItemRef};
use crate::body_infer::{applicable_functions, lemma_nominals_of_model, model_local_items, model_nominals};
use crate::body_ty::{NominalModel, TyModel, ty_model};
use crate::db::DefMapDb;
use crate::item_tree::{FieldRef, FunctionRef};
use crate::navigation::{declaration_label, field_label};
use crate::path_completion::{chars_order, text_order};
use crate::receiver::semantic_function_applies_to_receiver;
use crate::resolution::EnvModel;
use crate::semantic::{SemanticIndex, first_match, lemma_first_match_at, lemma_first_match_none};
use crate::text::FileId;
use crate::ids::TargetRef;
use crate::cursor::{best_dot_site, dot_site, receiver_of};

verus! {

/// What a member completion offers.
#[derive(Debug, Clone, Copy, PartialEq, Eq, Structural)]
pub enum CompletionKind {
    Field,
    InherentMethod,
    TraitMethod,
}

/// Order of kinds among completions with the same label.
pub open spec fn kind_rank(kind: CompletionKind) -> int {
    match kind {
        CompletionKind::Field => 0,
        CompletionKind::InherentMethod => 1,
        CompletionKind::TraitMethod => 2,
    }
}

/// The member a completion inserts.
#[derive(Debug, Clone, Copy, PartialEq, Eq, Structural)]
pub enum CompletionTarget {
    Field(ResolvedFieldRef),
    Function(ResolvedFunctionRef),
}

/// One member completion.
#[derive(Debug)]
pub struct CompletionItem {
    pub label: String,
    pub kind: CompletionKind,
    pub target: CompletionTarget,
}

/// Model of a member completion.
pub struct CompletionView {
    pub label: Seq<char>,
    pub kind: CompletionKind,
    pub target: CompletionTarget,
}

impl View for CompletionItem {
    type V = CompletionView;

    open spec fn view(&self) -> CompletionView {
        CompletionView { label: self.label@, kind: self.kind, target: self.target }
    }
}

pub open spec fn completions_view(items: Seq<CompletionItem>) -> Seq<CompletionView> {
    items.map_values(|c: CompletionItem| c@)
}

pub open spec fn completion_opt_view(item: Option<CompletionItem>) -> Option<CompletionView> {
    match item {
        Some(c) => Some(c@),
        None => None,
    }
}

/// Some completion of `s` inserts `target`.
pub open spec fn holds_target(s: Seq<CompletionView>, target: CompletionTarget) -> bool {
    exists|i: int| 0 <= i < s.len() && (#[trigger] s[i]).target == target
}

/// `s` with `c` appended when there is one and no completion of `s` inserts its member.
pub open spec fn push_new(s: Seq<CompletionView>, c: Option<CompletionView>) -> Seq<CompletionView> {
    match c {
        Some(x) => if holds_target(s, x.target) {
            s
        } else {
            s.push(x)
        },
        None => s,
    }
}

/// [`push_new`] of each of `cs` in order.
pub open spec fn push_all_new(s: Seq<CompletionView>, cs: Seq<Option<CompletionView>>) -> Seq<CompletionView>
    decreases cs.len(),
{
    if cs.len() == 0 {
        s
    } else {
        push_new(push_all_new(s, cs.drop_last()), cs.last())
    }
}

/// The completion of a field: its declared name; none for a field without a key or one that
/// does not exist.
pub open spec fn field_completion(sem: SemanticIndex, bodies: BodyIrDb, field: ResolvedFieldRef) -> Option<CompletionView> {
    let key = match field {
        ResolvedFieldRef::Semantic(f) => match sem.field_spec(f) {
            Some(data) => data.0.key,
            None => None,
        },
        ResolvedFieldRef::BodyLocal(f) => match bodies.body_spec(f.item.body) {
            Some(body) => match entry_at(body.local_items@, f.item.item.0) {
                Some(item) => if f.index < item.fields.fields@.len() {
                    item.fields.fields@[f.index as int].key
                } else {
                    None
                },
                None => None,
            },
            None => None,
        },
    };
    match key {
        Some(k) => Some(CompletionView { label: field_label(k@), kind: CompletionKind::Field, target: CompletionTarget::Field(field) }),
        None => None,
    }
}

/// The completion of a function: its name, when it takes `self`; none otherwise.
pub open spec fn function_completion(
    sem: SemanticIndex,
    bodies: BodyIrDb,
    function: ResolvedFunctionRef,
    kind: CompletionKind,
) -> Option<CompletionView> {
    let named = match function {
        ResolvedFunctionRef::Semantic(f) => match sem.function_spec(f) {
            Some(data) => if data.declaration.has_self_receiver_spec() {
                Some(data.name@)
            } else {
                None
            },
            None => None,
        },
        ResolvedFunctionRef::BodyLocal(f) => match bodies.body_spec(f.body) {
            Some(body) => match entry_at(body.local_functions@, f.function.0) {
                Some(data) => if data.declaration.has_self_receiver_spec() {
                    Some(data.name@)
                } else {
                    None
                },
                None => None,
            },
            None => None,
        },
    };
    match named {
        Some(name) => Some(CompletionView { label: name, kind, target: CompletionTarget::Function(function) }),
        None => None,
    }
}

/// The fields of a body-local item, in declaration order.
pub open spec fn local_fields_of(bodies: BodyIrDb, item: BodyItemRef) -> Seq<BodyFieldRef> {
    match bodies.body_spec(item.body) {
        Some(body) => match entry_at(body.local_items@, item.item.0) {
            Some(data) => Seq::new(data.fields.fields@.len(), |i: int| BodyFieldRef { item, index: i as usize }),
            None => Seq::empty(),
        },
        None => Seq::empty(),
    }
}

/// The functions of the inherent local impls of a body-local item.
pub open spec fn local_inherent_of(bodies: BodyIrDb, item: BodyItemRef) -> Seq<BodyFunctionRef> {
    match bodies.body_spec(item.body) {
        Some(body) => inherent_functions(body.local_impls@, item, item.body),
        None => Seq::empty(),
    }
}

/// `s` extended with the completions of one body-local receiver item: its fields, then the
/// methods of its inherent local impls.
pub open spec fn local_item_completions(sem: SemanticIndex, bodies: BodyIrDb, s: Seq<CompletionView>, item: BodyItemRef) -> Seq<CompletionView> {
    let fields = local_fields_of(bodies, item).map_values(
        |f: BodyFieldRef| field_completion(sem, bodies, ResolvedFieldRef::BodyLocal(f)),
    );
    let methods = local_inherent_of(bodies, item).map_values(
        |f: BodyFunctionRef| function_completion(sem, bodies, ResolvedFunctionRef::BodyLocal(f), CompletionKind::InherentMethod),
    );
    push_all_new(push_all_new(s, fields), methods)
}

/// `s` extended with the completions of one module-level receiver type: its fields, the methods
/// of its inherent impls that apply to the receiver, then the methods of its traits.
pub open spec fn nominal_completions(
    sem: SemanticIndex,
    model: EnvModel,
    bodies: BodyIrDb,
    s: Seq<CompletionView>,
    ty: NominalModel,
) -> Seq<CompletionView> {
    let fields = sem.fields_for_type_spec(ty.def).map_values(
        |f: FieldRef| field_completion(sem, bodies, ResolvedFieldRef::Semantic(f)),
    );
    let inherent = applicable_functions(sem, model, sem.inherent_functions_spec(ty.def), ty).map_values(
        |f: FunctionRef| function_completion(sem, bodies, ResolvedFunctionRef::Semantic(f), CompletionKind::InherentMethod),
    );
    let traits = sem.trait_functions_spec(ty.def).map_values(
        |f: FunctionRef| function_completion(sem, bodies, ResolvedFunctionRef::Semantic(f), CompletionKind::TraitMethod),
    );
    push_all_new(push_all_new(push_all_new(s, fields), inherent), traits)
}

pub open spec fn local_items_completions(sem: SemanticIndex, bodies: BodyIrDb, s: Seq<CompletionView>, items: Seq<BodyItemRef>) -> Seq<
    CompletionView,
>
    decreases items.len(),
{
    if items.len() == 0 {
        s
    } else {
        local_item_completions(sem, bodies, local_items_completions(sem, bodies, s, items.drop_last()), items.last())
    }
}

pub open spec fn nominals_completions(
    sem: SemanticIndex,
    model: EnvModel,
    bodies: BodyIrDb,
    s: Seq<CompletionView>,
    types: Seq<NominalModel>,
) -> Seq<CompletionView>
    decreases types.len(),
{
    if types.len() == 0 {
        s
    } else {
        nominal_completions(sem, model, bodies, nominals_completions(sem, model, bodies, s, types.drop_last()), types.last())
    }
}

/// The completions of a receiver type, in collection order: those of its body-local items, then
/// those of its module-level types.
pub open spec fn collected_completions(sem: SemanticIndex, model: EnvModel, bodies: BodyIrDb, ty: TyModel) -> Seq<CompletionView> {
    nominals_completions(
        sem,
        model,
        bodies,
        local_items_completions(sem, bodies, Seq::empty(), model_local_items(ty)),
        model_nominals(ty),
    )
}

/// Order of two completions: by label, then by kind; negative, zero or positive.
pub open spec fn completion_order(x: CompletionView, y: CompletionView) -> int {
    if chars_order(x.label, y.label) != 0 {
        chars_order(x.label, y.label)
    } else if kind_rank(x.kind) < kind_rank(y.kind) {
        -1
    } else if kind_rank(x.kind) > kind_rank(y.kind) {
        1
    } else {
        0
    }
}

/// `s` with `x` inserted before the first completion that comes after it, or at the end.
pub open spec fn insert_completion(s: Seq<CompletionView>, x: CompletionView) -> Seq<CompletionView> {
    match first_match(s, |y: CompletionView| completion_order(x, y) < 0) {
        Some(i) => s.insert(i, x),
        None => s.push(x),
    }
}

/// `s` sorted by [`completion_order`], keeping the order of `s` among equal keys.
pub open spec fn sort_completions(s: Seq<CompletionView>) -> Seq<CompletionView>
    decreases s.len(),
{
    if s.len() == 0 {
        s
    } else {
        insert_completion(sort_completions(s.drop_last()), s.last())
    }
}

/// The member completions of a receiver type: its collected completions in display order.
pub open spec fn dot_completions(sem: SemanticIndex, model: EnvModel, bodies: BodyIrDb, ty: TyModel) -> Seq<CompletionView> {
    sort_completions(collected_completions(sem, model, bodies, ty))
}

proof fn lemma_view_push(items: Seq<CompletionItem>, c: CompletionItem)
    ensures
        completions_view(items.push(c)) == completions_view(items).push(c@),
{
    assert(completions_view(items.push(c)) =~= completions_view(items).push(c@));
}

proof fn lemma_push_all_new_take(s: Seq<CompletionView>, cs: Seq<Option<CompletionView>>, i: int)
    requires
        0 <= i < cs.len(),
    ensures
        push_all_new(s, cs.take(i + 1)) == push_new(push_all_new(s, cs.take(i)), cs[i]),
{
    assert(cs.take(i + 1).drop_last() =~= cs.take(i));
}

/// Appends `c` unless a completion of `items` already inserts its member.
fn push_completion(items: &mut Vec<CompletionItem>, item: Option<CompletionItem>)
    ensures
        completions_view(final(items)@) == push_new(completions_view(old(items)@), completion_opt_view(item)),
{
    let ghost given = item;
    let c = match item {
        Some(c) => c,
        None => return,
    };
    let ghost v = completions_view(items@);
    assert(given == Some(c));
    let mut i: usize = 0;
    while i < items.len()
        invariant
            i <= items@.len(),
            v == completions_view(items@),
            items@ == old(items)@,
            given == item,
            given == Some(c),
            forall|k: int| 0 <= k < i ==> (#[trigger] v[k]).target != c.target,
        decreases items.len() - i,
    {
        if items[i].target == c.target {
            proof {
                assert(v[i as int].target == c.target);
                assert(holds_target(v, c.target));
                assert(completion_opt_view(given) == Some(c@));
                assert(push_new(v, Some(c@)) == v);
            }
            return;
        }
        i = i + 1;
    }
    proof {
        lemma_view_push(items@, c);
    }
    items.push(c);
}

/// Compares two completions in display order.
fn compare_completions(x: &CompletionItem, y: &CompletionItem) -> (r: i8)
    ensures
        r as int == completion_order(x@, y@),
{
    let c = text_order(&x.label, &y.label);
    if c != 0 {
        return c;
    }
    let rx: u8 = match x.kind {
        CompletionKind::Field => 0,
        CompletionKind::InherentMethod => 1,
        CompletionKind::TraitMethod => 2,
    };
    let ry: u8 = match y.kind {
        CompletionKind::Field => 0,
        CompletionKind::InherentMethod => 1,
        CompletionKind::TraitMethod => 2,
    };
    if rx < ry {
        -1
    } else if rx > ry {
        1
    } else {
        0
    }
}

/// Inserts `item` as [`insert_completion`] states.
fn insert_completion_item(items: &mut Vec<CompletionItem>, item: CompletionItem)
    ensures
        completions_view(final(items)@) == insert_completion(completions_view(old(items)@), item@),
{
    let ghost v = completions_view(items@);
    let ghost x = item@;
    let ghost p = |y: CompletionView| completion_order(x, y) < 0;
    let mut pos: usize = 0;
    let mut found = false;
    while pos < items.len()
        invariant_except_break
            pos <= items@.len(),
            v == completions_view(items@),
            items@ == old(items)@,
            x == item@,
            p == (|y: CompletionView| completion_order(x, y) < 0),
            forall|k: int| 0 <= k < pos ==> !p(#[trigger] v[k]),
            !found,
        ensures
            pos <= items@.len(),
            v == completions_view(items@),
            items@ == old(items)@,
            found ==> pos < items@.len() && first_match(v, p) == Some(pos as int),
            !found ==> forall|k: int| 0 <= k < v.len() ==> !p(#[trigger] v[k]),
        decreases items.len() - pos,
    {
        if compare_completions(&item, &items[pos]) < 0 {
            proof {
                assert(p(v[pos as int]));
                lemma_first_match_at(v, p, pos as int);
            }
            found = true;
            break;
        }
        pos = pos + 1;
    }
    if !found {
        proof {
            lemma_first_match_none(v, p);
        }
    }
    if found {
        items.insert(pos, item);
        proof {
            assert(completions_view(items@) =~= v.insert(pos as int, x));
        }
    } else {
        proof {
            lemma_view_push(items@, item);
        }
        items.push(item);
    }
}

/// Copies a completion.
fn copy_item(item: &CompletionItem) -> (r: CompletionItem)
    ensures
        r@ == item@,
{
    CompletionItem { label: item.label.clone(), kind: item.kind, target: item.target }
}

/// The completions of `items` sorted as [`sort_completions`] states.
pub fn sort_completion_items(items: &Vec<CompletionItem>) -> (r: Vec<CompletionItem>)
    ensures
        completions_view(r@) == sort_completions(completions_view(items@)),
{
    let ghost v = completions_view(items@);
    let mut out: Vec<CompletionItem> = Vec::new();
    let mut i: usize = 0;
    while i < items.len()
        invariant
            i <= items@.len(),
            v == completions_view(items@),
            completions_view(out@) == sort_completions(v.take(i as int)),
        decreases items.len() - i,
    {
        proof {
            assert(v.take(i + 1).drop_last() =~= v.take(i as int));
            assert(v.take(i + 1).last() == v[i as int]);
        }
        insert_completion_item(&mut out, copy_item(&items[i]));
        i = i + 1;
    }
    proof {
        assert(v.take(items@.len() as int) =~= v);
    }
    out
}

/// Collects and orders member completions.
pub struct CompletionResolver<'a> {
    pub def_map: &'a DefMapDb,
    pub semantic_ir: &'a SemanticIndex,
    pub body_ir: &'a BodyIrDb,
}

impl<'a> CompletionResolver<'a> {
    pub fn new(def_map: &'a DefMapDb, semantic_ir: &'a SemanticIndex, body_ir: &'a BodyIrDb) -> (r: Self)
        ensures
            r.def_map == def_map,
            r.semantic_ir == semantic_ir,
            r.body_ir == body_ir,
    {
        CompletionResolver { def_map, semantic_ir, body_ir }
    }

    /// The member completions of a receiver type, as [`dot_completions`] states.
    pub fn completions_for_receiver_ty(&self, receiver_ty: &BodyTy) -> (r: Vec<CompletionItem>)
        ensures
            completions_view(r@) == dot_completions(*self.semantic_ir, self.def_map.model(), *self.body_ir, ty_model(*receiver_ty)),
    {
        proof {
            lemma_nominals_of_model(*receiver_ty);
        }
        let mut completions: Vec<CompletionItem> = Vec::new();
        let locals = receiver_ty.local_nominals();
        let ghost items = model_local_items(ty_model(*receiver_ty));
        proof {
            assert(items.take(0) =~= Seq::<BodyItemRef>::empty());
        }
        let mut i: usize = 0;
        while i < locals.len()
            invariant
                i <= locals@.len(),
                locals@ == receiver_ty.local_nominals_spec(),
                items == model_local_items(ty_model(*receiver_ty)),
                items == locals@.map_values(|n: crate::body::BodyLocalNominalTy| n.item),
                completions_view(completions@) == local_items_completions(*self.semantic_ir, *self.body_ir, Seq::empty(), items.take(i as int)),
            decreases locals.len() - i,
        {
            proof {
                assert(items.take(i + 1).drop_last() =~= items.take(i as int));
                assert(items[i as int] == locals@[i as int].item);
            }
            self.push_local_type_completions(locals[i].item, &mut completions);
            i = i + 1;
        }
        proof {
            assert(items.take(locals@.len() as int) =~= items);
        }
        let nominals = receiver_ty.nominal_tys();
        let ghost types = model_nominals(ty_model(*receiver_ty));
        let ghost start = completions_view(completions@);
        proof {
            crate::body_ty::lemma_nominal_models(nominals@);
            assert(types.take(0) =~= Seq::<NominalModel>::empty());
        }
        let mut i: usize = 0;
        while i < nominals.len()
            invariant
                i <= nominals@.len(),
                nominals@ == receiver_ty.nominal_tys_spec(),
                types == model_nominals(ty_model(*receiver_ty)),
                types.len() == nominals@.len(),
                forall|k: int| 0 <= k < nominals@.len() ==> #[trigger] types[k] == crate::body_ty::nominal_model(nominals@[k]),
                completions_view(completions@) == nominals_completions(
                    *self.semantic_ir,
                    self.def_map.model(),
                    *self.body_ir,
                    start,
                    types.take(i as int),
                ),
            decreases nominals.len() - i,
        {
            proof {
                assert(types.take(i + 1).drop_last() =~= types.take(i as int));
                assert(types[i as int] == crate::body_ty::nominal_model(nominals@[i as int]));
            }
            self.push_type_completions(&nominals[i], &mut completions);
            i = i + 1;
        }
        proof {
            assert(types.take(nominals@.len() as int) =~= types);
        }
        sort_completion_items(&completions)
    }

    /// The member completions at a dot: those of the type of the receiver of the dot site that
    /// `offset` selects in `file_id`, as [`dot_completions`] states; none without a dot site or
    /// for a target without bodies.
    pub fn completions_at_dot(&self, target: TargetRef, file_id: FileId, offset: u32) -> (r: Vec<CompletionItem>)
        ensures
            match self.body_ir.target_spec(target) {
                None => r@.len() == 0,
                Some(t) => {
                    ||| r@.len() == 0 && forall|b: int, e: int| !#[trigger] dot_site(t.bodies@, file_id, offset, b, e)
                    ||| exists|b: int, e: int|
                        #![trigger best_dot_site(t.bodies@, file_id, offset, b, e)]
                        best_dot_site(t.bodies@, file_id, offset, b, e) && (receiver_of(t.bodies@[b].exprs@[e]) matches Some(
                            receiver,
                        ) && completions_view(r@) == dot_completions(
                            *self.semantic_ir,
                            self.def_map.model(),
                            *self.body_ir,
                            ty_model(t.bodies@[b].exprs@[receiver.0 as int].ty),
                        ))
                },
            },
    {
        match self.body_ir.receiver_ty_at_dot(target, file_id, offset) {
            Some(ty) => {
                let r = self.completions_for_receiver_ty(ty);
                proof {
                    let t = self.body_ir.target_spec(target)->0;
                    let (b, e) = choose|b: int, e: int|
                        #![trigger best_dot_site(t.bodies@, file_id, offset, b, e)]
                        best_dot_site(t.bodies@, file_id, offset, b, e) && (receiver_of(t.bodies@[b].exprs@[e]) matches Some(
                            receiver,
                        ) && *ty == t.bodies@[b].exprs@[receiver.0 as int].ty);
                    assert(best_dot_site(t.bodies@, file_id, offset, b, e));
                }
                r
            },
            None => Vec::new(),
        }
    }

    /// The completion of a field, as [`field_completion`] states.
    fn field_completion_item(&self, field: ResolvedFieldRef) -> (r: Option<CompletionItem>)
        ensures
            completion_opt_view(r) == field_completion(*self.semantic_ir, *self.body_ir, field),
    {
        let key = match field {
            ResolvedFieldRef::Semantic(f) => match self.semantic_ir.field_data(f) {
                Some(data) => match &data.field.key {
                    Some(key) => key,
                    None => return None,
                },
                None => return None,
            },
            ResolvedFieldRef::BodyLocal(f) => match self.body_ir.local_field_data(f) {
                Some(data) => match &data.field.key {
                    Some(key) => key,
                    None => return None,
                },
                None => return None,
            },
        };
        Some(CompletionItem { label: declaration_label(key), kind: CompletionKind::Field, target: CompletionTarget::Field(field) })
    }

    /// The completion of a function, as [`function_completion`] states.
    fn function_completion_item(&self, function: ResolvedFunctionRef, kind: CompletionKind) -> (r: Option<CompletionItem>)
        ensures
            completion_opt_view(r) == function_completion(*self.semantic_ir, *self.body_ir, function, kind),
    {
        let name = match function {
            ResolvedFunctionRef::Semantic(f) => match self.semantic_ir.function_data(f) {
                Some(data) => if data.has_self_receiver() {
                    data.name.clone()
                } else {
                    return None;
                },
                None => return None,
            },
            ResolvedFunctionRef::BodyLocal(f) => match self.body_ir.local_function_data(f) {
                Some(data) => if data.declaration.has_self_receiver() {
                    data.name.clone()
                } else {
                    return None;
                },
                None => return None,
            },
        };
        Some(CompletionItem { label: name, kind, target: CompletionTarget::Function(function) })
    }

    fn push_local_type_completions(&self, item: BodyItemRef, completions: &mut Vec<CompletionItem>)
        ensures
            completions_view(final(completions)@) == local_item_completions(
                *self.semantic_ir,
                *self.body_ir,
                completions_view(old(completions)@),
                item,
            ),
    {
        let ghost s0 = completions_view(completions@);
        let fields = self.body_ir.fields_for_local_type(item);
        let ghost fs = local_fields_of(*self.body_ir, item).map_values(
            |f: BodyFieldRef| field_completion(*self.semantic_ir, *self.body_ir, ResolvedFieldRef::BodyLocal(f)),
        );
        let mut i: usize = 0;
        while i < fields.len()
            invariant
                i <= fields@.len(),
                fields@ == local_fields_of(*self.body_ir, item),
                fs == fields@.map_values(
                    |f: BodyFieldRef| field_completion(*self.semantic_ir, *self.body_ir, ResolvedFieldRef::BodyLocal(f)),
                ),
                completions_view(completions@) == push_all_new(s0, fs.take(i as int)),
            decreases fields.len() - i,
        {
            proof {
                lemma_push_all_new_take(s0, fs, i as int);
            }
            let c = self.field_completion_item(ResolvedFieldRef::BodyLocal(fields[i]));
            push_completion(completions, c);
            i = i + 1;
        }
        proof {
            assert(fs.take(fields@.len() as int) =~= fs);
        }
        let ghost s1 = completions_view(completions@);
        let functions = self.body_ir.inherent_functions_for_local_type(item);
        let ghost ms = local_inherent_of(*self.body_ir, item).map_values(
            |f: BodyFunctionRef| function_completion(*self.semantic_ir, *self.body_ir, ResolvedFunctionRef::BodyLocal(f), CompletionKind::InherentMethod),
        );
        let mut i: usize = 0;
        while i < functions.len()
            invariant
                i <= functions@.len(),
                functions@ == local_inherent_of(*self.body_ir, item),
                ms == functions@.map_values(
                    |f: BodyFunctionRef| function_completion(*self.semantic_ir, *self.body_ir, ResolvedFunctionRef::BodyLocal(f), CompletionKind::InherentMethod),
                ),
                completions_view(completions@) == push_all_new(s1, ms.take(i as int)),
            decreases functions.len() - i,
        {
            proof {
                lemma_push_all_new_take(s1, ms, i as int);
            }
            let c = self.function_completion_item(ResolvedFunctionRef::BodyLocal(functions[i]), CompletionKind::InherentMethod);
            push_completion(completions, c);
            i = i + 1;
        }
        proof {
            assert(ms.take(functions@.len() as int) =~= ms);
        }
    }

    fn push_type_completions(&self, ty: &crate::body::BodyNominalTy, completions: &mut Vec<CompletionItem>)
        ensures
            completions_view(final(completions)@) == nominal_completions(
                *self.semantic_ir,
                self.def_map.model(),
                *self.body_ir,
                completions_view(old(completions)@),
                crate::body_ty::nominal_model(*ty),
            ),
    {
        let ghost n = crate::body_ty::nominal_model(*ty);
        let ghost sem = *self.semantic_ir;
        let ghost model = self.def_map.model();
        let ghost bodies = *self.body_ir;
        let ghost s0 = completions_view(completions@);
        let fields = self.semantic_ir.fields_for_type(ty.def);
        let ghost fs = sem.fields_for_type_spec(n.def).map_values(
            |f: FieldRef| field_completion(sem, bodies, ResolvedFieldRef::Semantic(f)),
        );
        let mut i: usize = 0;
        while i < fields.len()
            invariant
                i <= fields@.len(),
                sem == *self.semantic_ir,
                bodies == *self.body_ir,
                n.def == ty.def,
                fields@ == sem.fields_for_type_spec(ty.def),
                fs == fields@.map_values(|f: FieldRef| field_completion(sem, bodies, ResolvedFieldRef::Semantic(f))),
                completions_view(completions@) == push_all_new(s0, fs.take(i as int)),
            decreases fields.len() - i,
        {
            proof {
                lemma_push_all_new_take(s0, fs, i as int);
            }
            let c = self.field_completion_item(ResolvedFieldRef::Semantic(fields[i]));
            push_completion(completions, c);
            i = i + 1;
        }
        proof {
            assert(fs.take(fields@.len() as int) =~= fs);
        }
        let ghost s1 = completions_view(completions@);
        let inherent = self.semantic_ir.inherent_functions_for_type(ty.def);
        let ghost is = inherent@;
        let mut i: usize = 0;
        proof {
            assert(applicable_functions(sem, model, is.take(0), n) =~= Seq::<FunctionRef>::empty());
            assert(applicable_functions(sem, model, is.take(0), n).map_values(
                |f: FunctionRef| function_completion(sem, bodies, ResolvedFunctionRef::Semantic(f), CompletionKind::InherentMethod),
            ) =~= Seq::<Option<CompletionView>>::empty());
        }
        while i < inherent.len()
            invariant
                i <= inherent@.len(),
                is == inherent@,
                sem == *self.semantic_ir,
                bodies == *self.body_ir,
                model == self.def_map.model(),
                n == crate::body_ty::nominal_model(*ty),
                completions_view(completions@) == push_all_new(
                    s1,
                    applicable_functions(sem, model, is.take(i as int), n).map_values(
                        |f: FunctionRef| function_completion(sem, bodies, ResolvedFunctionRef::Semantic(f), CompletionKind::InherentMethod),
                    ),
                ),
            decreases inherent.len() - i,
        {
            let f = inherent[i];
            let ghost before = applicable_functions(sem, model, is.take(i as int), n);
            let ghost g = |x: FunctionRef| function_completion(sem, bodies, ResolvedFunctionRef::Semantic(x), CompletionKind::InherentMethod);
            proof {
                assert(is.take(i + 1).drop_last() =~= is.take(i as int));
                assert(is.take(i + 1).last() == f);
            }
            if semantic_function_applies_to_receiver(self.semantic_ir, self.def_map, f, ty) {
                proof {
                    assert(applicable_functions(sem, model, is.take(i + 1), n) == before.push(f));
                    assert(before.push(f).map_values(g) =~= before.map_values(g).push(g(f)));
                    assert(before.map_values(g).push(g(f)).drop_last() =~= before.map_values(g));
                }
                let c = self.function_completion_item(ResolvedFunctionRef::Semantic(f), CompletionKind::InherentMethod);
                push_completion(completions, c);
            } else {
                proof {
                    assert(applicable_functions(sem, model, is.take(i + 1), n) == before);
                }
            }
            i = i + 1;
        }
        proof {
            assert(is.take(inherent@.len() as int) =~= is);
        }
        let ghost s2 = completions_view(completions@);
        let traits = self.semantic_ir.trait_functions_for_type(ty.def);
        let ghost ts = sem.trait_functions_spec(n.def).map_values(
            |f: FunctionRef| function_completion(sem, bodies, ResolvedFunctionRef::Semantic(f), CompletionKind::TraitMethod),
        );
        let mut i: usize = 0;
        while i < traits.len()
            invariant
                i <= traits@.len(),
                sem == *self.semantic_ir,
                bodies == *self.body_ir,
                n.def == ty.def,
                traits@ == sem.trait_functions_spec(ty.def),
                ts == traits@.map_values(
                    |f: FunctionRef| function_completion(sem, bodies, ResolvedFunctionRef::Semantic(f), CompletionKind::TraitMethod),
                ),
                completions_view(completions@) == push_all_new(s2, ts.take(i as int)),
            decreases traits.len() - i,
        {
            proof {
                lemma_push_all_new_take(s2, ts, i as int);
            }
            let c = self.function_completion_item(ResolvedFunctionRef::Semantic(traits[i]), CompletionKind::TraitMethod);
            push_completion(completions, c);
            i = i + 1;
        }
        proof {
            assert(ts.take(traits@.len() as int) =~= ts);
        }
    }
}

/// What [`first_match`] gives: the position of a matching entry with no match before it, or
/// nothing when no entry matches.
pub proof fn lemma_first_match_props<T>(s: Seq<T>, p: spec_fn(T) -> bool)
    ensures
        match first_match(s, p) {
            Some(i) => 0 <= i < s.len() && p(s[i]) && forall|j: int| 0 <= j < i ==> !p(#[trigger] s[j]),
            None => forall|j: int| 0 <= j < s.len() ==> !p(#[trigger] s[j]),
        },
    decreases s.len(),
{
    if s.len() > 0 {
        lemma_first_match_props(s.drop_last(), p);
        assert forall|j: int| 0 <= j < s.len() - 1 implies s.drop_last()[j] == s[j] by {}
    }
}

proof fn lemma_order_antisym(x: CompletionView, y: CompletionView)
    ensures
        completion_order(x, y) == -completion_order(y, x),
{
    crate::path_completion::lemma_chars_order_antisym(x.label, y.label, 0);
}

proof fn lemma_order_trans(x: CompletionView, y: CompletionView, z: CompletionView)
    requires
        completion_order(x, y) <= 0,
        completion_order(y, z) <= 0,
    ensures
        completion_order(x, z) <= 0,
{
    crate::path_completion::lemma_chars_order_antisym(x.label, y.label, 0);
    crate::path_completion::lemma_chars_order_antisym(y.label, z.label, 0);
    crate::path_completion::lemma_chars_order_antisym(x.label, z.label, 0);
    if chars_order(x.label, y.label) <= 0 && chars_order(y.label, z.label) <= 0 {
        crate::path_completion::lemma_chars_order_trans(x.label, y.label, z.label, 0);
    }
    if chars_order(x.label, y.label) == 0 && chars_order(y.label, z.label) == 0 {
        crate::path_completion::lemma_chars_order_trans(z.label, y.label, x.label, 0);
        crate::path_completion::lemma_chars_order_antisym(z.label, x.label, 0);
    }
}

/// Every completion comes no later in display order than the ones after it.
pub open spec fn completions_sorted(s: Seq<CompletionView>) -> bool {
    forall|i: int, j: int| 0 <= i < j < s.len() ==> completion_order(#[trigger] s[i], #[trigger] s[j]) <= 0
}

proof fn lemma_insert_completion(s: Seq<CompletionView>, x: CompletionView)
    requires
        completions_sorted(s),
    ensures
        completions_sorted(insert_completion(s, x)),
        insert_completion(s, x).to_multiset() == s.to_multiset().insert(x),
{
    let p = |y: CompletionView| completion_order(x, y) < 0;
    lemma_first_match_props(s, p);
    match first_match(s, p) {
        Some(pos) => {
            let n = s.insert(pos, x);
            vstd::seq_lib::to_multiset_insert(s, pos, x);
            assert forall|i: int, j: int| 0 <= i < j < n.len() implies completion_order(#[trigger] n[i], #[trigger] n[j]) <= 0 by {
                if j < pos {
                    assert(n[i] == s[i] && n[j] == s[j]);
                } else if j == pos {
                    assert(n[i] == s[i]);
                    assert(!p(s[i]));
                    lemma_order_antisym(x, s[i]);
                } else if i == pos {
                    assert(n[j] == s[j - 1]);
                    assert(p(s[pos]));
                    if j - 1 > pos {
                        assert(completion_order(s[pos], s[j - 1]) <= 0);
                        lemma_order_trans(x, s[pos], s[j - 1]);
                    }
                } else if i < pos {
                    assert(n[i] == s[i] && n[j] == s[j - 1]);
                } else {
                    assert(n[i] == s[i - 1] && n[j] == s[j - 1]);
                }
            }
        },
        None => {
            let n = s.push(x);
            vstd::seq_lib::to_multiset_build(s, x);
            assert forall|i: int, j: int| 0 <= i < j < n.len() implies completion_order(#[trigger] n[i], #[trigger] n[j]) <= 0 by {
                if j == s.len() {
                    assert(n[i] == s[i]);
                    assert(!p(s[i]));
                    lemma_order_antisym(x, s[i]);
                } else {
                    assert(n[i] == s[i] && n[j] == s[j]);
                }
            }
        },
    }
}

/// Sorting completions orders them by label, then kind, and keeps every completion.
pub proof fn lemma_sort_completions(s: Seq<CompletionView>)
    ensures
        completions_sorted(sort_completions(s)),
        sort_completions(s).to_multiset() == s.to_multiset(),
    decreases s.len(),
{
    if s.len() == 0 {
        assert(completions_sorted(s));
    } else {
        lemma_sort_completions(s.drop_last());
        lemma_insert_completion(sort_completions(s.drop_last()), s.last());
        vstd::seq_lib::to_multiset_build(s.drop_last(), s.last());
        assert(s.drop_last().push(s.last()) =~= s);
    }
}

/// No two completions of `s` insert the same member.
pub open spec fn distinct_targets(s: Seq<CompletionView>) -> bool {
    forall|i: int, j: int| 0 <= i < j < s.len() ==> (#[trigger] s[i]).target != (#[trigger] s[j]).target
}

proof fn lemma_push_all_new_distinct(s: Seq<CompletionView>, cs: Seq<Option<CompletionView>>)
    requires
        distinct_targets(s),
    ensures
        distinct_targets(push_all_new(s, cs)),
    decreases cs.len(),
{
    if cs.len() > 0 {
        lemma_push_all_new_distinct(s, cs.drop_last());
        let before = push_all_new(s, cs.drop_last());
        if let Some(x) = cs.last() {
            if !holds_target(before, x.target) {
                let n = before.push(x);
                assert forall|i: int, j: int| 0 <= i < j < n.len() implies (#[trigger] n[i]).target != (#[trigger] n[j]).target by {
                    if j == before.len() {
                        assert(n[i] == before[i]);
                        if before[i].target == x.target {
                            assert(holds_target(before, x.target));
                        }
                    } else {
                        assert(n[i] == before[i] && n[j] == before[j]);
                    }
                }
            }
        }
    }
}

proof fn lemma_local_items_distinct(sem: SemanticIndex, bodies: BodyIrDb, s: Seq<CompletionView>, items: Seq<BodyItemRef>)
    requires
        distinct_targets(s),
    ensures
        distinct_targets(local_items_completions(sem, bodies, s, items)),
    decreases items.len(),
{
    if items.len() > 0 {
        lemma_local_items_distinct(sem, bodies, s, items.drop_last());
        let before = local_items_completions(sem, bodies, s, items.drop_last());
        let item = items.last();
        let fields = local_fields_of(bodies, item).map_values(
            |f: BodyFieldRef| field_completion(sem, bodies, ResolvedFieldRef::BodyLocal(f)),
        );
        let methods = local_inherent_of(bodies, item).map_values(
            |f: BodyFunctionRef| function_completion(sem, bodies, ResolvedFunctionRef::BodyLocal(f), CompletionKind::InherentMethod),
        );
        lemma_push_all_new_distinct(before, fields);
        lemma_push_all_new_distinct(push_all_new(before, fields), methods);
    }
}

proof fn lemma_nominals_distinct(sem: SemanticIndex, model: EnvModel, bodies: BodyIrDb, s: Seq<CompletionView>, types: Seq<NominalModel>)
    requires
        distinct_targets(s),
    ensures
        distinct_targets(nominals_completions(sem, model, bodies, s, types)),
    decreases types.len(),
{
    if types.len() > 0 {
        lemma_nominals_distinct(sem, model, bodies, s, types.drop_last());
        let before = nominals_completions(sem, model, bodies, s, types.drop_last());
        let ty = types.last();
        let fields = sem.fields_for_type_spec(ty.def).map_values(
            |f: FieldRef| field_completion(sem, bodies, ResolvedFieldRef::Semantic(f)),
        );
        let inherent = applicable_functions(sem, model, sem.inherent_functions_spec(ty.def), ty).map_values(
            |f: FunctionRef| function_completion(sem, bodies, ResolvedFunctionRef::Semantic(f), CompletionKind::InherentMethod),
        );
        let traits = sem.trait_functions_spec(ty.def).map_values(
            |f: FunctionRef| function_completion(sem, bodies, ResolvedFunctionRef::Semantic(f), CompletionKind::TraitMethod),
        );
        lemma_push_all_new_distinct(before, fields);
        lemma_push_all_new_distinct(push_all_new(before, fields), inherent);
        lemma_push_all_new_distinct(push_all_new(push_all_new(before, fields), inherent), traits);
    }
}

/// The member completions of a receiver type are in display order (by label, then fields before
/// inherent methods before trait methods), hold exactly the collected completions, and offer
/// each member once.
pub proof fn lemma_dot_completions_ordered(sem: SemanticIndex, model: EnvModel, bodies: BodyIrDb, ty: TyModel)
    ensures
        completions_sorted(dot_completions(sem, model, bodies, ty)),
        dot_completions(sem, model, bodies, ty).to_multiset() == collected_completions(sem, model, bodies, ty).to_multiset(),
        distinct_targets(collected_completions(sem, model, bodies, ty)),
{
    lemma_sort_completions(collected_completions(sem, model, bodies, ty));
    let empty = Seq::<CompletionView>::empty();
    assert(distinct_targets(empty));
    lemma_local_items_distinct(sem, bodies, empty, model_local_items(ty));
    lemma_nominals_distinct(sem, model, bodies, local_items_completions(sem, bodies, empty, model_local_items(ty)), model_nominals(ty));
}

} // verus!
