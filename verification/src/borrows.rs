//! The access footprint of one system and the rule that decides whether two
//! footprints may run at the same time.

use vstd::prelude::*;
use crate::stores::{type_id_hash, type_id_of};

verus! {

/// Stands for one resource type or one component type.
///
/// Two accesses concern the same type exactly when their keys are equal.
#[derive(Clone, Copy, PartialEq, Eq, Structural, Debug, Hash)]
pub struct TypeKey(pub u64);

impl TypeKey {
    /// The key that stands for the type with the digest `digest`.
    pub fn from_digest(digest: u64) -> (key: TypeKey)
        ensures
            key == TypeKey(digest),
    {
        TypeKey(digest)
    }

    /// The key of the type `T`.
    ///
    /// It is made from a 64-bit digest of the identifier that the standard
    /// library gives to `T`: the same for every use of `T` in one program, and
    /// free to differ from one build of the program to the next, which is why
    /// nothing is promised of its value. Should two types ever share a digest,
    /// they count as one type, which can add a conflict and never hide one.
    pub fn of<T: 'static>() -> TypeKey {
        let id = type_id_of::<T>();
        TypeKey::from_digest(type_id_hash(&id))
    }
}

/// What a footprint is, as six mathematical values.
pub struct BorrowsView {
    pub resources_immutable: Set<TypeKey>,
    pub resources_mutable: Set<TypeKey>,
    pub components_immutable: Set<TypeKey>,
    pub components_mutable: Set<TypeKey>,
    pub touches_all_resources: bool,
    pub touches_all_components: bool,
}

/// True when one kind of a footprint (its resources, or its components)
/// reaches anything at all.
pub open spec fn kind_touched(all: bool, immutable: Set<TypeKey>, mutable: Set<TypeKey>) -> bool {
    all || exists|k: TypeKey|
        #![trigger immutable.contains(k)]
        #![trigger mutable.contains(k)]
        immutable.contains(k) || mutable.contains(k)
}

/// The conflict rule for one kind: a writer meets any other access to the same
/// key, or one side reaches everything of that kind while the other reaches
/// anything of it.
pub open spec fn kind_conflicts(
    a_all: bool,
    a_immutable: Set<TypeKey>,
    a_mutable: Set<TypeKey>,
    b_all: bool,
    b_immutable: Set<TypeKey>,
    b_mutable: Set<TypeKey>,
) -> bool {
    ||| a_all && kind_touched(b_all, b_immutable, b_mutable)
    ||| b_all && kind_touched(a_all, a_immutable, a_mutable)
    ||| exists|k: TypeKey|
        #![trigger a_mutable.contains(k)]
        #![trigger b_mutable.contains(k)]
        a_mutable.contains(k) && (b_mutable.contains(k) || b_immutable.contains(k))
            || b_mutable.contains(k) && a_immutable.contains(k)
}

impl BorrowsView {
    /// The footprint of a system that declares nothing.
    pub open spec fn empty() -> BorrowsView {
        BorrowsView {
            resources_immutable: Set::empty(),
            resources_mutable: Set::empty(),
            components_immutable: Set::empty(),
            components_mutable: Set::empty(),
            touches_all_resources: false,
            touches_all_components: false,
        }
    }

    /// No key is recorded as both read and written: a writer is a writer only.
    pub open spec fn canonical(self) -> bool {
        &&& self.resources_immutable.disjoint(self.resources_mutable)
        &&& self.components_immutable.disjoint(self.components_mutable)
    }

    /// The footprint after a shared access to resource `key` is declared.
    pub open spec fn read_resource(self, key: TypeKey) -> BorrowsView {
        if self.resources_mutable.contains(key) {
            self
        } else {
            BorrowsView { resources_immutable: self.resources_immutable.insert(key), ..self }
        }
    }

    /// The footprint after an exclusive access to resource `key` is declared.
    pub open spec fn write_resource(self, key: TypeKey) -> BorrowsView {
        BorrowsView {
            resources_immutable: self.resources_immutable.remove(key),
            resources_mutable: self.resources_mutable.insert(key),
            ..self
        }
    }

    /// The footprint after a shared access to component `key` is declared.
    pub open spec fn read_component(self, key: TypeKey) -> BorrowsView {
        if self.components_mutable.contains(key) {
            self
        } else {
            BorrowsView { components_immutable: self.components_immutable.insert(key), ..self }
        }
    }

    /// The footprint after an exclusive access to component `key` is declared.
    pub open spec fn write_component(self, key: TypeKey) -> BorrowsView {
        BorrowsView {
            components_immutable: self.components_immutable.remove(key),
            components_mutable: self.components_mutable.insert(key),
            ..self
        }
    }

    /// The footprint after access to every resource is declared.
    pub open spec fn touch_all_resources(self) -> BorrowsView {
        BorrowsView { touches_all_resources: true, ..self }
    }

    /// The footprint after access to every component is declared.
    pub open spec fn touch_all_components(self) -> BorrowsView {
        BorrowsView { touches_all_components: true, ..self }
    }

    /// True when the footprint reaches nothing.
    pub open spec fn is_empty(self) -> bool {
        &&& !kind_touched(
            self.touches_all_resources,
            self.resources_immutable,
            self.resources_mutable,
        )
        &&& !kind_touched(
            self.touches_all_components,
            self.components_immutable,
            self.components_mutable,
        )
    }

    /// True when the footprint may read or write resource `key`.
    pub open spec fn accesses_resource(self, key: TypeKey) -> bool {
        ||| self.touches_all_resources
        ||| self.resources_immutable.contains(key)
        ||| self.resources_mutable.contains(key)
    }

    /// True when the footprint may write resource `key`.
    pub open spec fn writes_resource(self, key: TypeKey) -> bool {
        self.touches_all_resources || self.resources_mutable.contains(key)
    }

    /// True when the footprint may read or write component `key`.
    pub open spec fn accesses_component(self, key: TypeKey) -> bool {
        ||| self.touches_all_components
        ||| self.components_immutable.contains(key)
        ||| self.components_mutable.contains(key)
    }

    /// True when the footprint may write component `key`.
    pub open spec fn writes_component(self, key: TypeKey) -> bool {
        self.touches_all_components || self.components_mutable.contains(key)
    }

    /// Two footprints conflict when they conflict on resources or on components.
    pub open spec fn conflicts(self, other: BorrowsView) -> bool {
        ||| kind_conflicts(
            self.touches_all_resources,
            self.resources_immutable,
            self.resources_mutable,
            other.touches_all_resources,
            other.resources_immutable,
            other.resources_mutable,
        )
        ||| kind_conflicts(
            self.touches_all_components,
            self.components_immutable,
            self.components_mutable,
            other.touches_all_components,
            other.components_immutable,
            other.components_mutable,
        )
    }
}

/// Tells whether `key` is among `keys`.
fn holds(keys: &Vec<TypeKey>, key: TypeKey) -> (found: bool)
    ensures
        found == keys@.to_set().contains(key),
{
    let mut i: usize = 0;
    while i < keys.len()
        invariant
            i <= keys.len(),
            forall|j: int| 0 <= j < i ==> keys@[j] != key,
        decreases keys.len() - i,
    {
        if keys[i] == key {
            return true;
        }
        i += 1;
    }
    false
}

/// Tells whether the two lists share a key.
fn overlap(a: &Vec<TypeKey>, b: &Vec<TypeKey>) -> (shared: bool)
    ensures
        shared == exists|k: TypeKey| #[trigger] a@.to_set().contains(k) && b@.to_set().contains(k),
{
    let mut i: usize = 0;
    while i < a.len()
        invariant
            i <= a.len(),
            forall|j: int| 0 <= j < i ==> !b@.to_set().contains(#[trigger] a@[j]),
        decreases a.len() - i,
    {
        if holds(b, a[i]) {
            assert(a@.to_set().contains(a@[i as int]));
            return true;
        }
        i += 1;
    }
    false
}

/// Adds `key` unless it is there already.
fn insert_key(keys: &mut Vec<TypeKey>, key: TypeKey)
    requires
        old(keys)@.no_duplicates(),
    ensures
        final(keys)@.no_duplicates(),
        final(keys)@.to_set() == old(keys)@.to_set().insert(key),
{
    if !holds(keys, key) {
        keys.push(key);
        assert forall|k: TypeKey| #[trigger]
            keys@.to_set().contains(k) == old(keys)@.to_set().insert(key).contains(k) by {
            if old(keys)@.contains(k) {
                let j = choose|j: int| 0 <= j < old(keys)@.len() && old(keys)@[j] == k;
                assert(keys@[j] == k);
            }
            if k == key {
                assert(keys@[keys@.len() - 1] == k);
            }
        }
    }
    assert(keys@.to_set() =~= old(keys)@.to_set().insert(key));
}

/// Takes `key` out if it is there.
fn remove_key(keys: &mut Vec<TypeKey>, key: TypeKey)
    requires
        old(keys)@.no_duplicates(),
    ensures
        final(keys)@.no_duplicates(),
        final(keys)@.to_set() == old(keys)@.to_set().remove(key),
{
    let mut i: usize = 0;
    while i < keys.len()
        invariant
            i <= keys.len(),
            keys@ == old(keys)@,
            keys@.no_duplicates(),
            forall|j: int| 0 <= j < i ==> keys@[j] != key,
        decreases keys.len() - i,
    {
        if keys[i] == key {
            let ghost before = keys@;
            let ghost last = before.len() - 1;
            keys.swap_remove(i);
            assert forall|j: int| 0 <= j < keys@.len() implies keys@[j] == (if j == i {
                before[last]
            } else {
                before[j]
            }) by {}
            assert forall|k: TypeKey|
                keys@.to_set().contains(k) == before.to_set().remove(key).contains(k) by {
                if keys@.contains(k) {
                    let j = choose|j: int| 0 <= j < keys@.len() && keys@[j] == k;
                    if j == i {
                        assert(before[last] == k);
                        assert(before.contains(k));
                    } else {
                        assert(before[j] == k);
                        assert(before.contains(k));
                    }
                    assert(k != key);
                }
                if before.contains(k) && k != key {
                    let j = choose|j: int| 0 <= j < before.len() && before[j] == k;
                    if j == last {
                        assert(keys@[i as int] == k);
                    } else {
                        assert(keys@[j] == k);
                    }
                    assert(keys@.contains(k));
                }
            }
            assert(keys@.to_set() =~= before.to_set().remove(key));
            return ;
        }
        i += 1;
    }
    assert forall|k: TypeKey|
        keys@.to_set().contains(k) == old(keys)@.to_set().remove(key).contains(k) by {
        if keys@.contains(k) {
            let j = choose|j: int| 0 <= j < keys@.len() && keys@[j] == k;
            assert(k != key);
        }
    }
    assert(keys@.to_set() =~= old(keys)@.to_set().remove(key));
}

/// The exec form of `kind_touched`.
fn touched(all: bool, immutable: &Vec<TypeKey>, mutable: &Vec<TypeKey>) -> (r: bool)
    ensures
        r == kind_touched(all, immutable@.to_set(), mutable@.to_set()),
{
    if all {
        return true;
    }
    if immutable.len() > 0 {
        assert(immutable@.to_set().contains(immutable@[0]));
        return true;
    }
    if mutable.len() > 0 {
        assert(mutable@.to_set().contains(mutable@[0]));
        return true;
    }
    false
}

/// The exec form of `kind_conflicts`.
fn conflicts_in_kind(
    a_all: bool,
    a_immutable: &Vec<TypeKey>,
    a_mutable: &Vec<TypeKey>,
    b_all: bool,
    b_immutable: &Vec<TypeKey>,
    b_mutable: &Vec<TypeKey>,
) -> (r: bool)
    ensures
        r == kind_conflicts(
            a_all,
            a_immutable@.to_set(),
            a_mutable@.to_set(),
            b_all,
            b_immutable@.to_set(),
            b_mutable@.to_set(),
        ),
{
    if a_all && touched(b_all, b_immutable, b_mutable) {
        return true;
    }
    if b_all && touched(a_all, a_immutable, a_mutable) {
        return true;
    }
    if overlap(a_mutable, b_mutable) {
        return true;
    }
    if overlap(a_mutable, b_immutable) {
        return true;
    }
    if overlap(b_mutable, a_immutable) {
        return true;
    }
    false
}

/// The access footprint of one system: which resource and component types it
/// reads, which it writes, and whether it reaches all of a kind.
pub struct SystemBorrows {
    resources_immutable: Vec<TypeKey>,
    resources_mutable: Vec<TypeKey>,
    components_immutable: Vec<TypeKey>,
    components_mutable: Vec<TypeKey>,
    touches_all_resources: bool,
    touches_all_components: bool,
}

impl View for SystemBorrows {
    type V = BorrowsView;

    closed spec fn view(&self) -> BorrowsView {
        BorrowsView {
            resources_immutable: self.resources_immutable@.to_set(),
            resources_mutable: self.resources_mutable@.to_set(),
            components_immutable: self.components_immutable@.to_set(),
            components_mutable: self.components_mutable@.to_set(),
            touches_all_resources: self.touches_all_resources,
            touches_all_components: self.touches_all_components,
        }
    }
}

impl SystemBorrows {
    /// The representation is sound: no key is stored twice, and none is stored
    /// as both read and written.
    pub closed spec fn wf(&self) -> bool {
        &&& self.resources_immutable@.no_duplicates()
        &&& self.resources_mutable@.no_duplicates()
        &&& self.components_immutable@.no_duplicates()
        &&& self.components_mutable@.no_duplicates()
        &&& self@.canonical()
    }

    /// A footprint that reaches nothing.
    pub fn new() -> (borrows: SystemBorrows)
        ensures
            borrows.wf(),
            borrows@ == BorrowsView::empty(),
    {
        let borrows = SystemBorrows {
            resources_immutable: Vec::new(),
            resources_mutable: Vec::new(),
            components_immutable: Vec::new(),
            components_mutable: Vec::new(),
            touches_all_resources: false,
            touches_all_components: false,
        };
        assert(borrows@.resources_immutable =~= Set::empty());
        assert(borrows@.resources_mutable =~= Set::empty());
        assert(borrows@.components_immutable =~= Set::empty());
        assert(borrows@.components_mutable =~= Set::empty());
        borrows
    }

    /// Declares a shared access to the resource type `key`. Where the type is
    /// already written, the footprint stays as it is.
    pub fn read_resource(&mut self, key: TypeKey)
        requires
            old(self).wf(),
        ensures
            final(self).wf(),
            final(self)@ == old(self)@.read_resource(key),
    {
        if !holds(&self.resources_mutable, key) {
            insert_key(&mut self.resources_immutable, key);
        }
    }

    /// Declares an exclusive access to the resource type `key`. An earlier
    /// shared access to it is absorbed.
    pub fn write_resource(&mut self, key: TypeKey)
        requires
            old(self).wf(),
        ensures
            final(self).wf(),
            final(self)@ == old(self)@.write_resource(key),
    {
        remove_key(&mut self.resources_immutable, key);
        insert_key(&mut self.resources_mutable, key);
    }

    /// Declares a shared access to the component type `key`. Where the type is
    /// already written, the footprint stays as it is.
    pub fn read_component(&mut self, key: TypeKey)
        requires
            old(self).wf(),
        ensures
            final(self).wf(),
            final(self)@ == old(self)@.read_component(key),
    {
        if !holds(&self.components_mutable, key) {
            insert_key(&mut self.components_immutable, key);
        }
    }

    /// Declares an exclusive access to the component type `key`. An earlier
    /// shared access to it is absorbed.
    pub fn write_component(&mut self, key: TypeKey)
        requires
            old(self).wf(),
        ensures
            final(self).wf(),
            final(self)@ == old(self)@.write_component(key),
    {
        remove_key(&mut self.components_immutable, key);
        insert_key(&mut self.components_mutable, key);
    }

    /// Declares that the system may reach any resource.
    pub fn touch_all_resources(&mut self)
        requires
            old(self).wf(),
        ensures
            final(self).wf(),
            final(self)@ == old(self)@.touch_all_resources(),
    {
        self.touches_all_resources = true;
    }

    /// Declares that the system may reach any component.
    pub fn touch_all_components(&mut self)
        requires
            old(self).wf(),
        ensures
            final(self).wf(),
            final(self)@ == old(self)@.touch_all_components(),
    {
        self.touches_all_components = true;
    }

    /// Tells whether the footprint reaches nothing.
    pub fn is_empty(&self) -> (empty: bool)
        ensures
            empty == self@.is_empty(),
    {
        !touched(self.touches_all_resources, &self.resources_immutable, &self.resources_mutable)
            && !touched(
            self.touches_all_components,
            &self.components_immutable,
            &self.components_mutable,
        )
    }

    /// Tells whether a system with this footprint and one with `other` must be
    /// kept from running at the same time.
    pub fn conflicts(&self, other: &SystemBorrows) -> (conflict: bool)
        ensures
            conflict == self@.conflicts(other@),
    {
        conflicts_in_kind(
            self.touches_all_resources,
            &self.resources_immutable,
            &self.resources_mutable,
            other.touches_all_resources,
            &other.resources_immutable,
            &other.resources_mutable,
        ) || conflicts_in_kind(
            self.touches_all_components,
            &self.components_immutable,
            &self.components_mutable,
            other.touches_all_components,
            &other.components_immutable,
            &other.components_mutable,
        )
    }
}

} // verus!
