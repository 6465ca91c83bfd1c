//! Module scopes: one textual name map whose entries keep separate namespace buckets.

use vstd::prelude::*;

use crate::ids::{DefId, ModuleRef};

verus! {

/// Visibility attached to an item or to the binding an import introduces.
#[derive(Debug)]
pub enum VisibilityLevel {
    Public,
    Crate,
    Super,
    Self_,
    Private,
    /// `pub(in path)`, holding the path text as written.
    Restricted(String),
    /// Visibility syntax the item tree did not understand.
    Unknown(String),
}

/// Mathematical model of a visibility, with texts as character sequences.
pub enum VisibilityView {
    Public,
    Crate,
    Super,
    SelfVis,
    Private,
    Restricted(Seq<char>),
    Unknown(Seq<char>),
}

impl View for VisibilityLevel {
    type V = VisibilityView;

    open spec fn view(&self) -> VisibilityView {
        match self {
            VisibilityLevel::Public => VisibilityView::Public,
            VisibilityLevel::Crate => VisibilityView::Crate,
            VisibilityLevel::Super => VisibilityView::Super,
            VisibilityLevel::Self_ => VisibilityView::SelfVis,
            VisibilityLevel::Private => VisibilityView::Private,
            VisibilityLevel::Restricted(path) => VisibilityView::Restricted(path@),
            VisibilityLevel::Unknown(text) => VisibilityView::Unknown(text@),
        }
    }
}

impl VisibilityLevel {
    /// Copies the visibility, keeping its model.
    pub fn duplicate(&self) -> (r: Self)
        ensures
            r == *self,
            r@ == self@,
    {
        match self {
            VisibilityLevel::Public => VisibilityLevel::Public,
            VisibilityLevel::Crate => VisibilityLevel::Crate,
            VisibilityLevel::Super => VisibilityLevel::Super,
            VisibilityLevel::Self_ => VisibilityLevel::Self_,
            VisibilityLevel::Private => VisibilityLevel::Private,
            VisibilityLevel::Restricted(path) => VisibilityLevel::Restricted(path.clone()),
            VisibilityLevel::Unknown(text) => VisibilityLevel::Unknown(text.clone()),
        }
    }

    /// Compares two visibilities by their models.
    pub fn same_as(&self, other: &Self) -> (r: bool)
        ensures
            r == (self@ == other@),
    {
        match self {
            VisibilityLevel::Public => match other {
                VisibilityLevel::Public => true,
                _ => false,
            },
            VisibilityLevel::Crate => match other {
                VisibilityLevel::Crate => true,
                _ => false,
            },
            VisibilityLevel::Super => match other {
                VisibilityLevel::Super => true,
                _ => false,
            },
            VisibilityLevel::Self_ => match other {
                VisibilityLevel::Self_ => true,
                _ => false,
            },
            VisibilityLevel::Private => match other {
                VisibilityLevel::Private => true,
                _ => false,
            },
            VisibilityLevel::Restricted(a) => match other {
                VisibilityLevel::Restricted(b) => *a == *b,
                _ => false,
            },
            VisibilityLevel::Unknown(a) => match other {
                VisibilityLevel::Unknown(b) => *a == *b,
                _ => false,
            },
        }
    }
}

/// Namespace bucket of a scope entry.
#[derive(Debug, Clone, Copy, PartialEq, Eq, Structural)]
pub enum Namespace {
    Types,
    Values,
    Macros,
}

/// One definition together with the visibility of the binding that introduced it.
#[derive(Debug)]
pub struct ScopeBinding {
    pub def: DefId,
    pub visibility: VisibilityLevel,
    pub owner: ModuleRef,
}

/// Model of a scope binding.
pub struct BindingView {
    pub def: DefId,
    pub visibility: VisibilityView,
    pub owner: ModuleRef,
}

impl View for ScopeBinding {
    type V = BindingView;

    open spec fn view(&self) -> BindingView {
        BindingView { def: self.def, visibility: self.visibility@, owner: self.owner }
    }
}

impl ScopeBinding {
    /// Copies the binding, keeping its model.
    pub fn duplicate(&self) -> (r: Self)
        ensures
            r == *self,
            r@ == self@,
    {
        ScopeBinding { def: self.def, visibility: self.visibility.duplicate(), owner: self.owner }
    }

    /// Compares two bindings by their models.
    pub fn same_as(&self, other: &Self) -> (r: bool)
        ensures
            r == (self@ == other@),
    {
        self.def == other.def && self.owner == other.owner && self.visibility.same_as(
            &other.visibility,
        )
    }
}

/// Model of the three namespace buckets for one textual name.
#[verifier::ext_equal]
pub struct EntryView {
    pub types: Seq<BindingView>,
    pub values: Seq<BindingView>,
    pub macros: Seq<BindingView>,
}

impl EntryView {
    pub open spec fn empty() -> EntryView {
        EntryView { types: Seq::empty(), values: Seq::empty(), macros: Seq::empty() }
    }

    pub open spec fn bucket(self, namespace: Namespace) -> Seq<BindingView> {
        match namespace {
            Namespace::Types => self.types,
            Namespace::Values => self.values,
            Namespace::Macros => self.macros,
        }
    }

    pub open spec fn with_bucket(self, namespace: Namespace, bucket: Seq<BindingView>) -> EntryView {
        match namespace {
            Namespace::Types => EntryView { types: bucket, ..self },
            Namespace::Values => EntryView { values: bucket, ..self },
            Namespace::Macros => EntryView { macros: bucket, ..self },
        }
    }

    /// The entry after inserting `binding`: a binding already present in its bucket is kept
    /// once, a new one is appended at the end of the bucket.
    pub open spec fn insert(self, namespace: Namespace, binding: BindingView) -> EntryView {
        if self.bucket(namespace).contains(binding) {
            self
        } else {
            self.with_bucket(namespace, self.bucket(namespace).push(binding))
        }
    }

    /// Whether no bucket holds a binding.
    pub open spec fn is_empty(self) -> bool {
        self.types.len() == 0 && self.values.len() == 0 && self.macros.len() == 0
    }
}

/// All namespace slots for one textual name.
#[derive(Debug)]
pub struct ScopeEntry {
    pub types: Vec<ScopeBinding>,
    pub values: Vec<ScopeBinding>,
    pub macros: Vec<ScopeBinding>,
}

pub open spec fn bindings_view(bindings: Seq<ScopeBinding>) -> Seq<BindingView> {
    bindings.map_values(|b: ScopeBinding| b@)
}

impl View for ScopeEntry {
    type V = EntryView;

    open spec fn view(&self) -> EntryView {
        EntryView {
            types: bindings_view(self.types@),
            values: bindings_view(self.values@),
            macros: bindings_view(self.macros@),
        }
    }
}

/// Copies a bucket of bindings, keeping their models.
pub fn duplicate_bindings(bindings: &Vec<ScopeBinding>) -> (r: Vec<ScopeBinding>)
    ensures
        bindings_view(r@) == bindings_view(bindings@),
{
    let mut r: Vec<ScopeBinding> = Vec::new();
    let mut i: usize = 0;
    while i < bindings.len()
        invariant
            i <= bindings.len(),
            r.len() == i,
            forall|j: int| 0 <= j < i ==> r@[j]@ == bindings@[j]@,
        decreases bindings.len() - i,
    {
        r.push(bindings[i].duplicate());
        i = i + 1;
    }
    assert(bindings_view(r@) =~= bindings_view(bindings@));
    r
}

/// Whether a bucket holds a binding with the same model.
pub fn bucket_contains(bindings: &Vec<ScopeBinding>, binding: &ScopeBinding) -> (r: bool)
    ensures
        r == bindings_view(bindings@).contains(binding@),
{
    let mut i: usize = 0;
    while i < bindings.len()
        invariant
            i <= bindings.len(),
            forall|j: int| 0 <= j < i ==> bindings@[j]@ != binding@,
        decreases bindings.len() - i,
    {
        if bindings[i].same_as(binding) {
            assert(bindings_view(bindings@)[i as int] == binding@);
            return true;
        }
        i = i + 1;
    }
    assert forall|j: int| 0 <= j < bindings_view(bindings@).len() implies bindings_view(
        bindings@,
    )[j] != binding@ by {
        assert(bindings_view(bindings@)[j] == bindings@[j]@);
    }
    false
}

/// Whether two buckets hold the same bindings in the same order.
pub fn buckets_equal(a: &Vec<ScopeBinding>, b: &Vec<ScopeBinding>) -> (r: bool)
    ensures
        r == (bindings_view(a@) == bindings_view(b@)),
{
    if a.len() != b.len() {
        assert(bindings_view(a@).len() != bindings_view(b@).len());
        return false;
    }
    let mut i: usize = 0;
    while i < a.len()
        invariant
            i <= a.len(),
            a.len() == b.len(),
            forall|j: int| 0 <= j < i ==> a@[j]@ == b@[j]@,
        decreases a.len() - i,
    {
        if !a[i].same_as(&b[i]) {
            assert(bindings_view(a@)[i as int] != bindings_view(b@)[i as int]);
            return false;
        }
        i = i + 1;
    }
    assert(bindings_view(a@) =~= bindings_view(b@));
    true
}

impl ScopeEntry {
    pub fn new() -> (r: Self)
        ensures
            r@ == EntryView::empty(),
    {
        let r = ScopeEntry { types: Vec::new(), values: Vec::new(), macros: Vec::new() };
        assert(r@ =~= EntryView::empty());
        r
    }

    /// Copies the entry, keeping its model.
    pub fn duplicate(&self) -> (r: Self)
        ensures
            r@ == self@,
    {
        ScopeEntry {
            types: duplicate_bindings(&self.types),
            values: duplicate_bindings(&self.values),
            macros: duplicate_bindings(&self.macros),
        }
    }

    /// Compares two entries by their models.
    pub fn same_as(&self, other: &Self) -> (r: bool)
        ensures
            r == (self@ == other@),
    {
        buckets_equal(&self.types, &other.types) && buckets_equal(&self.values, &other.values)
            && buckets_equal(&self.macros, &other.macros)
    }

    /// Returns the bindings of one namespace.
    pub fn bucket(&self, namespace: Namespace) -> (r: &Vec<ScopeBinding>)
        ensures
            bindings_view(r@) == self@.bucket(namespace),
    {
        match namespace {
            Namespace::Types => &self.types,
            Namespace::Values => &self.values,
            Namespace::Macros => &self.macros,
        }
    }

    /// Returns the type-namespace bindings.
    pub fn types(&self) -> (r: &Vec<ScopeBinding>)
        ensures
            bindings_view(r@) == self@.types,
    {
        &self.types
    }

    /// Returns the value-namespace bindings.
    pub fn values(&self) -> (r: &Vec<ScopeBinding>)
        ensures
            bindings_view(r@) == self@.values,
    {
        &self.values
    }

    /// Returns the macro-namespace bindings.
    pub fn macros(&self) -> (r: &Vec<ScopeBinding>)
        ensures
            bindings_view(r@) == self@.macros,
    {
        &self.macros
    }

    /// Whether no namespace holds a binding.
    pub fn is_empty(&self) -> (r: bool)
        ensures
            r == self@.is_empty(),
    {
        self.types.len() == 0 && self.values.len() == 0 && self.macros.len() == 0
    }

    /// Adds one binding to a namespace bucket unless an equal binding is already there.
    ///
    /// Returns whether the bucket changed.
    pub fn insert_binding(&mut self, namespace: Namespace, binding: ScopeBinding) -> (changed: bool)
        ensures
            final(self)@ == old(self)@.insert(namespace, binding@),
            changed == !old(self)@.bucket(namespace).contains(binding@),
    {
        let present = match namespace {
            Namespace::Types => bucket_contains(&self.types, &binding),
            Namespace::Values => bucket_contains(&self.values, &binding),
            Namespace::Macros => bucket_contains(&self.macros, &binding),
        };
        if present {
            return false;
        }
        let ghost b = binding@;
        match namespace {
            Namespace::Types => {
                self.types.push(binding);
                assert(bindings_view(self.types@) =~= bindings_view(old(self).types@).push(b));
            },
            Namespace::Values => {
                self.values.push(binding);
                assert(bindings_view(self.values@) =~= bindings_view(old(self).values@).push(b));
            },
            Namespace::Macros => {
                self.macros.push(binding);
                assert(bindings_view(self.macros@) =~= bindings_view(old(self).macros@).push(b));
            },
        }
        true
    }
}

/// One textual name of a module scope together with its namespace buckets.
#[derive(Debug)]
pub struct ScopeNameEntry {
    pub name: String,
    pub entry: ScopeEntry,
}

/// Module scope with separate namespaces stored under one textual name map.
#[derive(Debug)]
pub struct ModuleScope {
    pub names: Vec<ScopeNameEntry>,
}

/// Model of a module scope: textual name to namespace buckets.
pub type ScopeView = Map<Seq<char>, EntryView>;

pub open spec fn scope_items(names: Seq<ScopeNameEntry>) -> Seq<(Seq<char>, EntryView)> {
    names.map_values(|e: ScopeNameEntry| (e.name@, e.entry@))
}

/// The map an association list denotes; a later pair for the same name wins.
pub open spec fn names_map<V>(items: Seq<(Seq<char>, V)>) -> Map<Seq<char>, V>
    decreases items.len(),
{
    if items.len() == 0 {
        Map::empty()
    } else {
        names_map(items.drop_last()).insert(items.last().0, items.last().1)
    }
}

/// Whether `i` is the last position of name `k` in `items`.
pub open spec fn last_index_of<V>(items: Seq<(Seq<char>, V)>, k: Seq<char>, i: int) -> bool {
    &&& 0 <= i < items.len()
    &&& items[i].0 == k
    &&& forall|j: int| i < j < items.len() ==> items[j].0 != k
}

pub proof fn lemma_names_map_last<V>(items: Seq<(Seq<char>, V)>, k: Seq<char>, i: int)
    requires
        last_index_of(items, k, i),
    ensures
        names_map(items).contains_key(k),
        names_map(items)[k] == items[i].1,
    decreases items.len(),
{
    if i < items.len() - 1 {
        let prefix = items.drop_last();
        assert(last_index_of(prefix, k, i));
        lemma_names_map_last(prefix, k, i);
    }
}

pub proof fn lemma_names_map_absent<V>(items: Seq<(Seq<char>, V)>, k: Seq<char>)
    requires
        forall|j: int| 0 <= j < items.len() ==> items[j].0 != k,
    ensures
        !names_map(items).contains_key(k),
    decreases items.len(),
{
    if items.len() > 0 {
        lemma_names_map_absent(items.drop_last(), k);
    }
}

pub proof fn lemma_names_map_update<V>(
    items: Seq<(Seq<char>, V)>,
    k: Seq<char>,
    i: int,
    v: V,
)
    requires
        last_index_of(items, k, i),
    ensures
        names_map(items.update(i, (k, v))) == names_map(items).insert(k, v),
    decreases items.len(),
{
    let updated = items.update(i, (k, v));
    if i == items.len() - 1 {
        assert(updated.drop_last() =~= items.drop_last());
        assert(names_map(updated) =~= names_map(items).insert(k, v));
    } else {
        let prefix = items.drop_last();
        assert(last_index_of(prefix, k, i));
        lemma_names_map_update(prefix, k, i, v);
        assert(updated.drop_last() =~= prefix.update(i, (k, v)));
        assert(names_map(updated) =~= names_map(items).insert(k, v));
    }
}

impl View for ModuleScope {
    type V = ScopeView;

    open spec fn view(&self) -> ScopeView {
        names_map(scope_items(self.names@))
    }
}

impl ModuleScope {
    pub fn new() -> (r: Self)
        ensures
            r@ == Map::<Seq<char>, EntryView>::empty(),
    {
        let r = ModuleScope { names: Vec::new() };
        assert(scope_items(r.names@) =~= Seq::empty());
        r
    }

    /// Position of the entry that holds `name`, if any.
    fn position(&self, name: &String) -> (r: Option<usize>)
        ensures
            match r {
                Some(i) => last_index_of(scope_items(self.names@), name@, i as int),
                None => forall|j: int|
                    0 <= j < self.names@.len() ==> #[trigger] scope_items(self.names@)[j].0
                        != name@,
            },
    {
        let ghost items = scope_items(self.names@);
        let mut i: usize = self.names.len();
        while i > 0
            invariant
                i <= self.names.len(),
                items == scope_items(self.names@),
                forall|j: int| i <= j < self.names.len() ==> #[trigger] items[j].0 != name@,
            decreases i,
        {
            i = i - 1;
            if self.names[i].name == *name {
                assert(items[i as int].0 == name@);
                return Some(i);
            }
        }
        None
    }

    /// Returns the scope entry for one textual name, if present.
    pub fn entry(&self, name: &String) -> (r: Option<&ScopeEntry>)
        ensures
            match r {
                Some(e) => self@.contains_key(name@) && e@ == self@[name@],
                None => !self@.contains_key(name@),
            },
    {
        match self.position(name) {
            Some(i) => {
                proof {
                    lemma_names_map_last(scope_items(self.names@), name@, i as int);
                }
                Some(&self.names[i].entry)
            },
            None => {
                proof {
                    lemma_names_map_absent(scope_items(self.names@), name@);
                }
                None
            },
        }
    }

    /// Adds one binding under `name`, creating the entry when the name is new.
    ///
    /// Returns whether the scope changed.
    pub fn insert_binding(&mut self, name: &String, namespace: Namespace, binding: ScopeBinding) -> (changed: bool)
        ensures
            final(self)@ == old(self)@.insert(
                name@,
                entry_or_empty(old(self)@, name@).insert(namespace, binding@),
            ),
            changed == !entry_or_empty(old(self)@, name@).bucket(namespace).contains(binding@),
    {
        let ghost old_items = scope_items(self.names@);
        match self.position(name) {
            Some(i) => {
                proof {
                    lemma_names_map_last(old_items, name@, i as int);
                }
                let changed = self.names[i].entry.insert_binding(namespace, binding);
                proof {
                    let new_entry = self.names@[i as int].entry@;
                    assert(scope_items(self.names@) =~= old_items.update(i as int, (name@, new_entry)));
                    lemma_names_map_update(old_items, name@, i as int, new_entry);
                }
                changed
            },
            None => {
                proof {
                    lemma_names_map_absent(old_items, name@);
                }
                let mut entry = ScopeEntry::new();
                let changed = entry.insert_binding(namespace, binding);
                self.names.push(ScopeNameEntry { name: name.clone(), entry });
                assert(scope_items(self.names@).drop_last() =~= old_items);
                changed
            },
        }
    }
}

/// The entry a scope holds for `name`, or an empty entry.
pub open spec fn entry_or_empty(scope: ScopeView, name: Seq<char>) -> EntryView {
    if scope.contains_key(name) {
        scope[name]
    } else {
        EntryView::empty()
    }
}

/// The scope after inserting `binding` under `name` in one namespace.
pub open spec fn scope_insert(
    scope: ScopeView,
    name: Seq<char>,
    namespace: Namespace,
    binding: BindingView,
) -> ScopeView {
    scope.insert(name, entry_or_empty(scope, name).insert(namespace, binding))
}

/// A binding re-introduced with another visibility and owner, as imports do.
pub open spec fn rebind(binding: BindingView, visibility: VisibilityView, owner: ModuleRef) -> BindingView {
    BindingView { def: binding.def, visibility, owner }
}

/// The scope after re-introducing every binding of `bindings`, in order, under `name`.
pub open spec fn insert_rebound(
    scope: ScopeView,
    name: Seq<char>,
    namespace: Namespace,
    bindings: Seq<BindingView>,
    visibility: VisibilityView,
    owner: ModuleRef,
) -> ScopeView
    decreases bindings.len(),
{
    if bindings.len() == 0 {
        scope
    } else {
        scope_insert(
            insert_rebound(scope, name, namespace, bindings.drop_last(), visibility, owner),
            name,
            namespace,
            rebind(bindings.last(), visibility, owner),
        )
    }
}

/// The scope after copying every binding of `entry` under `name` with a new visibility and
/// owner: types first, then values, then macros.
pub open spec fn copy_entry(
    scope: ScopeView,
    name: Seq<char>,
    entry: EntryView,
    visibility: VisibilityView,
    owner: ModuleRef,
) -> ScopeView {
    let with_types = insert_rebound(scope, name, Namespace::Types, entry.types, visibility, owner);
    let with_values = insert_rebound(
        with_types,
        name,
        Namespace::Values,
        entry.values,
        visibility,
        owner,
    );
    insert_rebound(with_values, name, Namespace::Macros, entry.macros, visibility, owner)
}

pub proof fn lemma_names_map_present<V>(items: Seq<(Seq<char>, V)>, k: Seq<char>)
    requires
        names_map(items).contains_key(k),
    ensures
        exists|j: int| 0 <= j < items.len() && items[j].0 == k,
{
    if !(exists|j: int| 0 <= j < items.len() && items[j].0 == k) {
        lemma_names_map_absent(items, k);
    }
}

impl ModuleScope {
    /// Re-introduces every binding of `bindings` under `name` in one namespace, with the given
    /// visibility and owner.
    fn insert_rebound_bindings(
        &mut self,
        name: &String,
        namespace: Namespace,
        bindings: &Vec<ScopeBinding>,
        visibility: &VisibilityLevel,
        owner: ModuleRef,
    )
        ensures
            final(self)@ == insert_rebound(
                old(self)@,
                name@,
                namespace,
                bindings_view(bindings@),
                visibility@,
                owner,
            ),
    {
        let mut i: usize = 0;
        while i < bindings.len()
            invariant
                i <= bindings.len(),
                self@ == insert_rebound(
                    old(self)@,
                    name@,
                    namespace,
                    bindings_view(bindings@.subrange(0, i as int)),
                    visibility@,
                    owner,
                ),
            decreases bindings.len() - i,
        {
            let binding = ScopeBinding {
                def: bindings[i].def,
                visibility: visibility.duplicate(),
                owner,
            };
            self.insert_binding(name, namespace, binding);
            proof {
                let next = bindings_view(bindings@.subrange(0, i + 1));
                assert(next.drop_last() =~= bindings_view(bindings@.subrange(0, i as int)));
                assert(next.last() == bindings@[i as int]@);
            }
            i = i + 1;
        }
        assert(bindings@.subrange(0, bindings.len() as int) =~= bindings@);
    }

    /// Copies every binding of `entry` under `name`, attaching the visibility and owner of the
    /// import that introduces them.
    pub fn copy_visible_bindings(
        &mut self,
        name: &String,
        entry: &ScopeEntry,
        visibility: &VisibilityLevel,
        owner: ModuleRef,
    )
        ensures
            final(self)@ == copy_entry(old(self)@, name@, entry@, visibility@, owner),
    {
        self.insert_rebound_bindings(name, Namespace::Types, &entry.types, visibility, owner);
        self.insert_rebound_bindings(name, Namespace::Values, &entry.values, visibility, owner);
        self.insert_rebound_bindings(name, Namespace::Macros, &entry.macros, visibility, owner);
    }

    /// Copies the scope, keeping its model.
    pub fn duplicate(&self) -> (r: Self)
        ensures
            r@ == self@,
    {
        let mut names: Vec<ScopeNameEntry> = Vec::new();
        let mut i: usize = 0;
        while i < self.names.len()
            invariant
                i <= self.names.len(),
                names.len() == i,
                forall|j: int|
                    0 <= j < i ==> #[trigger] names@[j].name@ == self.names@[j].name@
                        && names@[j].entry@ == self.names@[j].entry@,
            decreases self.names.len() - i,
        {
            names.push(
                ScopeNameEntry {
                    name: self.names[i].name.clone(),
                    entry: self.names[i].entry.duplicate(),
                },
            );
            i = i + 1;
        }
        assert(scope_items(names@) =~= scope_items(self.names@));
        ModuleScope { names }
    }

    /// Compares two scopes as maps from names to namespace buckets.
    pub fn same_as(&self, other: &Self) -> (r: bool)
        ensures
            r == (self@ == other@),
    {
        let ghost mine = scope_items(self.names@);
        let ghost theirs = scope_items(other.names@);
        let ghost sv = self@;
        let ghost ov = other@;
        let mut i: usize = 0;
        while i < self.names.len()
            invariant
                i <= self.names.len(),
                mine == scope_items(self.names@),
                theirs == scope_items(other.names@),
                sv == self@,
                ov == other@,
                sv == names_map(mine),
                ov == names_map(theirs),
                forall|j: int| 0 <= j < i ==> #[trigger] key_agrees(sv, ov, mine[j].0),
            decreases self.names.len() - i,
        {
            let name = &self.names[i].name;
            proof {
                assert(mine[i as int].0 == name@);
                lemma_names_map_last_exists(mine, name@, i as int);
            }
            let ours = match self.entry(name) {
                Some(e) => e,
                None => {
                    return false;
                },
            };
            match other.entry(name) {
                None => {
                    return false;
                },
                Some(e) => {
                    if !ours.same_as(e) {
                        return false;
                    }
                    assert(key_agrees(sv, ov, mine[i as int].0));
                },
            }
            i = i + 1;
        }
        let mut i: usize = 0;
        while i < other.names.len()
            invariant
                i <= other.names.len(),
                theirs == scope_items(other.names@),
                sv == self@,
                ov == other@,
                forall|j: int| 0 <= j < i ==> #[trigger] sv.contains_key(theirs[j].0),
            decreases other.names.len() - i,
        {
            proof {
                assert(theirs[i as int].0 == other.names@[i as int].name@);
            }
            if self.entry(&other.names[i].name).is_none() {
                proof {
                    lemma_names_map_last_exists(theirs, theirs[i as int].0, i as int);
                }
                return false;
            }
            i = i + 1;
        }
        proof {
            assert forall|k: Seq<char>| #[trigger] sv.dom().contains(k) == ov.dom().contains(k) && (
            sv.dom().contains(k) ==> sv[k] == ov[k]) by {
                if sv.contains_key(k) {
                    lemma_names_map_present(mine, k);
                    let j = choose|j: int| 0 <= j < mine.len() && mine[j].0 == k;
                    assert(key_agrees(sv, ov, mine[j].0));
                }
                if ov.contains_key(k) {
                    lemma_names_map_present(theirs, k);
                    let j = choose|j: int| 0 <= j < theirs.len() && theirs[j].0 == k;
                    assert(sv.contains_key(theirs[j].0));
                }
            }
            assert(sv =~= ov);
        }
        true
    }
}

/// Both maps hold `k`, with the same entry.
pub open spec fn key_agrees(a: ScopeView, b: ScopeView, k: Seq<char>) -> bool {
    a.contains_key(k) && b.contains_key(k) && a[k] == b[k]
}

pub proof fn lemma_names_map_last_exists<V>(items: Seq<(Seq<char>, V)>, k: Seq<char>, i: int)
    requires
        0 <= i < items.len(),
        items[i].0 == k,
    ensures
        names_map(items).contains_key(k),
    decreases items.len() - i,
{
    if exists|j: int| i < j < items.len() && items[j].0 == k {
        let j = choose|j: int| i < j < items.len() && items[j].0 == k;
        lemma_names_map_last_exists(items, k, j);
    } else {
        lemma_names_map_last(items, k, i);
    }
}

/// The entry after re-introducing every binding of `bindings`, in order, in one namespace.
pub open spec fn entry_rebound(
    entry: EntryView,
    namespace: Namespace,
    bindings: Seq<BindingView>,
    visibility: VisibilityView,
    owner: ModuleRef,
) -> EntryView
    decreases bindings.len(),
{
    if bindings.len() == 0 {
        entry
    } else {
        entry_rebound(entry, namespace, bindings.drop_last(), visibility, owner).insert(
            namespace,
            rebind(bindings.last(), visibility, owner),
        )
    }
}

/// The entry after copying all bindings of `source` with a new visibility and owner.
pub open spec fn merge_entry(
    entry: EntryView,
    source: EntryView,
    visibility: VisibilityView,
    owner: ModuleRef,
) -> EntryView {
    let with_types = entry_rebound(entry, Namespace::Types, source.types, visibility, owner);
    let with_values = entry_rebound(with_types, Namespace::Values, source.values, visibility, owner);
    entry_rebound(with_values, Namespace::Macros, source.macros, visibility, owner)
}

pub proof fn lemma_insert_rebound(
    scope: ScopeView,
    name: Seq<char>,
    namespace: Namespace,
    bindings: Seq<BindingView>,
    visibility: VisibilityView,
    owner: ModuleRef,
)
    ensures
        bindings.len() > 0 || scope.contains_key(name) ==> insert_rebound(
            scope,
            name,
            namespace,
            bindings,
            visibility,
            owner,
        ) == scope.insert(
            name,
            entry_rebound(entry_or_empty(scope, name), namespace, bindings, visibility, owner),
        ),
        bindings.len() == 0 ==> insert_rebound(scope, name, namespace, bindings, visibility, owner)
            == scope,
    decreases bindings.len(),
{
    if bindings.len() == 0 {
        if scope.contains_key(name) {
            assert(scope.insert(name, scope[name]) =~= scope);
        }
    } else {
        lemma_insert_rebound(scope, name, namespace, bindings.drop_last(), visibility, owner);
        let before = insert_rebound(scope, name, namespace, bindings.drop_last(), visibility, owner);
        if bindings.len() > 1 || scope.contains_key(name) {
            assert(before.contains_key(name));
            assert(scope_insert(before, name, namespace, rebind(bindings.last(), visibility, owner))
                =~= scope.insert(
                name,
                entry_rebound(entry_or_empty(scope, name), namespace, bindings, visibility, owner),
            ));
        } else {
            assert(before == scope);
            assert(entry_rebound(entry_or_empty(scope, name), namespace, bindings.drop_last(), visibility, owner)
                == entry_or_empty(scope, name));
            assert(scope_insert(before, name, namespace, rebind(bindings.last(), visibility, owner))
                =~= scope.insert(
                name,
                entry_rebound(entry_or_empty(scope, name), namespace, bindings, visibility, owner),
            ));
        }
    }
}

/// Whether an entry holds at least one binding.
pub open spec fn has_bindings(entry: EntryView) -> bool {
    entry.types.len() > 0 || entry.values.len() > 0 || entry.macros.len() > 0
}

pub proof fn lemma_copy_entry(
    scope: ScopeView,
    name: Seq<char>,
    source: EntryView,
    visibility: VisibilityView,
    owner: ModuleRef,
)
    ensures
        has_bindings(source) || scope.contains_key(name) ==> copy_entry(
            scope,
            name,
            source,
            visibility,
            owner,
        ) == scope.insert(name, merge_entry(entry_or_empty(scope, name), source, visibility, owner)),
        !has_bindings(source) ==> copy_entry(scope, name, source, visibility, owner) == scope,
{
    let s1 = insert_rebound(scope, name, Namespace::Types, source.types, visibility, owner);
    let s2 = insert_rebound(s1, name, Namespace::Values, source.values, visibility, owner);
    lemma_insert_rebound(scope, name, Namespace::Types, source.types, visibility, owner);
    lemma_insert_rebound(s1, name, Namespace::Values, source.values, visibility, owner);
    lemma_insert_rebound(s2, name, Namespace::Macros, source.macros, visibility, owner);
    let e0 = entry_or_empty(scope, name);
    let e1 = entry_rebound(e0, Namespace::Types, source.types, visibility, owner);
    let e2 = entry_rebound(e1, Namespace::Values, source.values, visibility, owner);
    if source.types.len() > 0 || scope.contains_key(name) {
        assert(s1 == scope.insert(name, e1));
        assert(entry_or_empty(s1, name) == e1);
        assert(s2 == scope.insert(name, e2));
        assert(entry_or_empty(s2, name) == e2);
        assert(s2.insert(name, entry_rebound(e2, Namespace::Macros, source.macros, visibility, owner))
            =~= scope.insert(name, merge_entry(e0, source, visibility, owner)));
    } else if source.values.len() > 0 {
        assert(s1 == scope);
        assert(e1 == e0);
        assert(s2 == scope.insert(name, e2));
        assert(entry_or_empty(s2, name) == e2);
        assert(s2.insert(name, entry_rebound(e2, Namespace::Macros, source.macros, visibility, owner))
            =~= scope.insert(name, merge_entry(e0, source, visibility, owner)));
    } else {
        assert(s1 == scope);
        assert(e1 == e0);
        assert(s2 == scope);
        assert(e2 == e0);
    }
}

} // verus!
