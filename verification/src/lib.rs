//! An id-based arena.
//!
//! Allocating an object hands back a lightweight, copyable identifier (an
//! [`Id`]) rather than a reference; the identifier can later be resolved
//! against the arena that issued it. Identifiers carry the tag of their arena,
//! so an id issued by one arena is never mistaken for an entry of another:
//! resolving it there reports a miss instead of silently handing out the
//! wrong object. Elements are never removed or reordered, so an id stays
//! valid for as long as its arena lives.
//!
//! How identifiers are encoded and how arena tags are minted is a pluggable
//! policy, the [`ArenaBehavior`] trait; [`DefaultArenaBehavior`] is the
//! default policy.

use vstd::prelude::*;

use core::marker::PhantomData;

pub mod parallel;

pub use parallel::IdFolder;
pub use parallel::IntoParIter;
pub use parallel::ParIter;

verus! {

/// The implementation behavior of an arena: how identifiers are encoded from
/// an index and an arena tag, decoded back, and how fresh arena tags are
/// minted.
///
/// The encoding is a pure mapping: `spec_new_id` is its mathematical model,
/// and every implementation proves (in `lemma_encode_decode`) that decoding
/// recovers the index and the tag of every identifier it can represent.
/// An implementation may refuse large indices (`index_fits` says which ones
/// it can represent); the default implementation represents every `usize`.
pub trait ArenaBehavior: Sized {
    /// The identifier type.
    type Id: Copy;

    /// The mathematical model of the identifier encoding.
    spec fn spec_new_id(index: usize, arena_id: usize) -> Self::Id;

    /// The index carried by an identifier.
    spec fn spec_index(id: Self::Id) -> usize;

    /// The arena tag carried by an identifier.
    spec fn spec_arena_id(id: Self::Id) -> usize;

    /// Which indices the encoding can represent.
    spec fn index_fits(index: nat) -> bool;

    /// Decoding an encoded identifier recovers the index and the arena tag.
    proof fn lemma_encode_decode(index: usize, arena_id: usize)
        requires
            Self::index_fits(index as nat),
        ensures
            Self::spec_index(Self::spec_new_id(index, arena_id)) == index,
            Self::spec_arena_id(Self::spec_new_id(index, arena_id)) == arena_id,
    ;

    /// Construct a new object identifier from the given index and arena tag.
    fn new_id(index: usize, arena_id: usize) -> (r: Self::Id)
        requires
            Self::index_fits(index as nat),
        ensures
            r == Self::spec_new_id(index, arena_id),
    ;

    /// Get the given identifier's index.
    fn index(id: Self::Id) -> (r: usize)
        ensures
            r == Self::spec_index(id),
    ;

    /// Get the given identifier's arena tag.
    fn arena_id(id: Self::Id) -> (r: usize)
        ensures
            r == Self::spec_arena_id(id),
    ;

    /// Construct a new arena tag, used to disambiguate ids across different
    /// arenas. The provided implementation draws a tag that is meant to be
    /// distinct for every arena of the process; nothing is promised of the
    /// value. An implementation that instead returns the same tag on every
    /// call makes identifiers interchangeable across its arenas.
    fn new_arena_id() -> usize {
        fresh_tag()
    }
}

/// An identifier for an object allocated within an arena.
///
/// It carries the index of the object and the tag of the arena that issued
/// it; the type parameter ties it, at compile time only, to the element type
/// it was issued for. Two ids are equal exactly when both index and arena tag
/// match.
#[derive(Debug, Hash)]
#[verifier::reject_recursive_types(T)]
pub struct Id<T> {
    idx: usize,
    arena_id: usize,
    _ty: PhantomData<T>,
}

impl<T> Id<T> {
    /// The index carried by this id.
    pub closed spec fn spec_index(self) -> usize {
        self.idx
    }

    /// The arena tag carried by this id.
    pub closed spec fn spec_arena_id(self) -> usize {
        self.arena_id
    }

    /// Get the index within the arena that this id refers to.
    pub fn index(&self) -> (r: usize)
        ensures
            r == self.spec_index(),
    {
        self.idx
    }
}

impl<T> Clone for Id<T> {
    fn clone(&self) -> (r: Id<T>)
        ensures
            r == *self,
    {
        *self
    }
}

impl<T> Copy for Id<T> {}

impl<T> PartialEq for Id<T> {
    fn eq(&self, rhs: &Self) -> (r: bool) {
        self.arena_id == rhs.arena_id && self.idx == rhs.idx
    }
}

impl<T> Eq for Id<T> {}

impl<T> vstd::std_specs::cmp::PartialEqSpecImpl for Id<T> {
    open spec fn obeys_eq_spec() -> bool {
        true
    }

    open spec fn eq_spec(&self, rhs: &Id<T>) -> bool {
        self.spec_arena_id() == rhs.spec_arena_id() && self.spec_index() == rhs.spec_index()
    }
}

/// Relies on fastrand::usize: draws a value from the crate's thread-local
/// generator; nothing is promised of which value comes back.
#[verifier::external_body]
fn fresh_tag() -> usize {
    fastrand::usize(..)
}

/// Relies on Vec::as_mut_slice: the slice is the vector's own storage, a
/// slice borrow can never change the length, and the call cannot unwind.
#[verifier::external_body]
fn vec_as_mut_slice<T>(v: &mut Vec<T>) -> (r: &mut [T])
    ensures
        r@ == old(v)@,
        final(r)@ == final(v)@,
        final(v)@.len() == old(v)@.len(),
    no_unwind
{
    v.as_mut_slice()
}

/// The default [`ArenaBehavior`] implementation: the identifier is the plain
/// `(index, arena tag)` pair, every `usize` index is representable, and each
/// arena draws a fresh tag.
#[derive(Debug, PartialEq, Eq)]
#[verifier::reject_recursive_types(T)]
pub struct DefaultArenaBehavior<T> {
    _phantom: PhantomData<T>,
}

impl<T> Clone for DefaultArenaBehavior<T> {
    fn clone(&self) -> (r: DefaultArenaBehavior<T>)
        ensures
            r == *self,
    {
        DefaultArenaBehavior { _phantom: PhantomData }
    }
}

impl<T> ArenaBehavior for DefaultArenaBehavior<T> {
    type Id = Id<T>;

    closed spec fn spec_new_id(index: usize, arena_id: usize) -> Id<T> {
        Id { idx: index, arena_id, _ty: PhantomData }
    }

    open spec fn spec_index(id: Id<T>) -> usize {
        id.spec_index()
    }

    open spec fn spec_arena_id(id: Id<T>) -> usize {
        id.spec_arena_id()
    }

    open spec fn index_fits(index: nat) -> bool {
        true
    }

    proof fn lemma_encode_decode(index: usize, arena_id: usize) {
    }

    fn new_id(index: usize, arena_id: usize) -> (r: Id<T>) {
        Id { idx: index, arena_id, _ty: PhantomData }
    }

    fn index(id: Id<T>) -> (r: usize) {
        id.idx
    }

    fn arena_id(id: Id<T>) -> (r: usize) {
        id.arena_id
    }
}

/// An arena of objects of type `T`.
///
/// The arena owns an append-only sequence of elements plus its own tag,
/// obtained once at construction. Its view (`self@`) is the sequence of
/// elements in allocation order; `self.spec_arena_id()` is its tag.
#[verifier::reject_recursive_types(T)]
#[verifier::reject_recursive_types(A)]
pub struct Arena<T, A: ArenaBehavior = DefaultArenaBehavior<T>> {
    arena_id: usize,
    items: Vec<T>,
    _phantom: PhantomData<A>,
}

impl<T, A: ArenaBehavior> View for Arena<T, A> {
    type V = Seq<T>;

    closed spec fn view(&self) -> Seq<T> {
        self.items@
    }
}

impl<T, A: ArenaBehavior> Arena<T, A> {
    /// The tag of this arena.
    pub closed spec fn spec_arena_id(self) -> usize {
        self.arena_id
    }

    /// Every index the arena has filled is one its id encoding represents.
    #[verifier::type_invariant]
    spec fn wf(self) -> bool {
        forall|i: nat| i < self.items@.len() ==> A::index_fits(i)
    }

    /// Whether `id` resolves to an element of this arena: it was issued under
    /// this arena's tag and its index is within the allocated range.
    pub open spec fn contains_id(self, id: A::Id) -> bool {
        A::spec_arena_id(id) == self.spec_arena_id() && A::spec_index(id) < self@.len()
    }

    /// What looking `id` up in this arena finds: the element at the id's
    /// index when the id belongs to this arena, nothing otherwise. Soft and
    /// strict lookup are both specified against this one function.
    pub open spec fn spec_lookup(self, id: A::Id) -> Option<T> {
        if self.contains_id(id) {
            Some(self@[A::spec_index(id) as int])
        } else {
            None
        }
    }

    /// Construct a new, empty arena, with a tag from the behavior's
    /// `new_arena_id`.
    pub fn new() -> (r: Arena<T, A>)
        ensures
            r@.len() == 0,
    {
        Arena { arena_id: A::new_arena_id(), items: Vec::new(), _phantom: PhantomData }
    }

    /// Allocate `item` within this arena and return its id.
    ///
    /// The arena grows by exactly the one appended element; nothing already
    /// allocated moves, and the tag stays what it was. The returned id
    /// carries this arena's tag and the index the new element was placed at:
    /// the arena's length before the call.
    pub fn allocate(&mut self, item: T) -> (id: A::Id)
        requires
            A::index_fits(old(self)@.len()),
        ensures
            final(self)@ == old(self)@.push(item),
            final(self).spec_arena_id() == old(self).spec_arena_id(),
            id == A::spec_new_id(old(self)@.len() as usize, old(self).spec_arena_id()),
            A::spec_index(id) == old(self)@.len(),
            A::spec_arena_id(id) == old(self).spec_arena_id(),
            final(self).contains_id(id),
    {
        proof {
            use_type_invariant(&*self);
        }
        let arena_id = self.arena_id;
        let mut items: Vec<T> = Vec::new();
        core::mem::swap(&mut items, &mut self.items);
        let idx = items.len();
        items.push(item);
        core::mem::swap(&mut items, &mut self.items);
        let id = A::new_id(idx, arena_id);
        proof {
            A::lemma_encode_decode(idx, arena_id);
        }
        id
    }

    /// Get a shared reference to the object associated with the given `id`,
    /// if this arena holds one.
    ///
    /// Returns the element at the id's index exactly when the id carries this
    /// arena's tag and its index is in range; otherwise — in particular for
    /// an id issued by a different arena — returns `None`.
    pub fn get(&self, id: A::Id) -> (r: Option<&T>)
        ensures
            match r {
                Some(v) => self.spec_lookup(id) == Some(*v),
                None => self.spec_lookup(id) is None,
            },
            self.contains_id(id) ==> r == Some(&self@[A::spec_index(id) as int]),
    {
        if A::arena_id(id) != self.arena_id {
            None
        } else {
            let i = A::index(id);
            if i < self.items.len() {
                Some(&self.items[i])
            } else {
                None
            }
        }
    }

    /// Get an exclusive reference to the object associated with the given
    /// `id`, if this arena holds one.
    ///
    /// The same tag and range check as [`Arena::get`]; on a miss the arena is
    /// left untouched, and on a hit the only element that can change through
    /// the returned reference is the one the id refers to.
    pub fn get_mut(&mut self, id: A::Id) -> (r: Option<&mut T>)
        ensures
            old(self).contains_id(id) ==> {
                &&& r is Some
                &&& *r.unwrap() == old(self)@[A::spec_index(id) as int]
                &&& final(self)@ == old(self)@.update(
                    A::spec_index(id) as int,
                    *final(r.unwrap()),
                )
                &&& final(self).spec_arena_id() == old(self).spec_arena_id()
            },
            !old(self).contains_id(id) ==> r is None && *final(self) == *old(self),
    {
        proof {
            use_type_invariant(&*self);
        }
        if A::arena_id(id) != self.arena_id {
            None
        } else {
            let i = A::index(id);
            if i < self.items.len() {
                Some(&mut self.items[i])
            } else {
                None
            }
        }
    }

    /// Get a shared reference to the object associated with the given `id`.
    ///
    /// The strict companion of [`Arena::get`], for callers who have already
    /// proved that the id belongs to this arena; a caller who has not must
    /// use the forgiving [`Arena::get`] instead.
    pub fn index(&self, id: A::Id) -> (r: &T)
        requires
            self.contains_id(id),
        ensures
            *r == self@[A::spec_index(id) as int],
            self.spec_lookup(id) == Some(*r),
    {
        let i = A::index(id);
        &self.items[i]
    }

    /// Get an exclusive reference to the object associated with the given
    /// `id`.
    ///
    /// The strict companion of [`Arena::get_mut`], for callers who have
    /// already proved that the id belongs to this arena. Only the element the
    /// id refers to can change through the returned reference.
    pub fn index_mut(&mut self, id: A::Id) -> (r: &mut T)
        requires
            old(self).contains_id(id),
        ensures
            *r == old(self)@[A::spec_index(id) as int],
            final(self)@ == old(self)@.update(A::spec_index(id) as int, *final(r)),
            final(self).spec_arena_id() == old(self).spec_arena_id(),
    {
        proof {
            use_type_invariant(&*self);
        }
        let i = A::index(id);
        &mut self.items[i]
    }

    /// Overwrite the object associated with the given `id`.
    ///
    /// The strict companion of [`Arena::get_mut`], as assignment: the caller
    /// must have proved that the id belongs to this arena. Only the element
    /// the id refers to changes.
    pub fn index_set(&mut self, id: A::Id, value: T)
        requires
            old(self).contains_id(id),
        ensures
            final(self)@ == old(self)@.update(A::spec_index(id) as int, value),
            final(self).spec_arena_id() == old(self).spec_arena_id(),
    {
        proof {
            use_type_invariant(&*self);
        }
        let i = A::index(id);
        self.items[i] = value;
    }

    /// Get the number of objects allocated in this arena.
    pub fn len(&self) -> (r: usize)
        ensures
            r == self@.len(),
    {
        self.items.len()
    }

    /// The tag of this arena.
    pub fn arena_id(&self) -> (r: usize)
        ensures
            r == self.spec_arena_id(),
    {
        self.arena_id
    }

    /// The `(id, element)` pairs of this arena, in allocation order: the
    /// element at each index, paired with the id the arena issued for it.
    pub open spec fn spec_pairs(self) -> Seq<(A::Id, T)> {
        Seq::new(
            self@.len(),
            |i: int| (A::spec_new_id(i as usize, self.spec_arena_id()), self@[i]),
        )
    }

    /// Iterate over this arena's elements and their ids, in allocation order.
    pub fn iter(&self) -> (r: Iter<'_, T, A>)
        ensures
            r.spec_arena_id() == self.spec_arena_id(),
            r.spec_items() == self@,
            r.spec_pos() == 0,
    {
        proof {
            use_type_invariant(&*self);
        }
        Iter { arena_id: self.arena_id, items: &self.items, pos: 0, _phantom: PhantomData }
    }

    /// The arena's storage as a slice, in allocation order. Every filled
    /// index is one the behavior's encoding represents: each was the length
    /// of the arena when its element was allocated.
    pub fn as_slice(&self) -> (r: &[T])
        ensures
            r@ == self@,
            forall|i: nat| i < r@.len() ==> A::index_fits(i),
    {
        proof {
            use_type_invariant(&*self);
        }
        self.items.as_slice()
    }

    /// The arena's storage as a mutable slice, in allocation order. Writing
    /// through the slice changes elements in place; the length and the
    /// arena's tag cannot change through it.
    pub fn as_mut_slice(&mut self) -> (r: &mut [T])
        ensures
            r@ == old(self)@,
            final(self)@ == final(r)@,
            final(self).spec_arena_id() == old(self).spec_arena_id(),
            forall|i: nat| i < r@.len() ==> A::index_fits(i),
    {
        proof {
            use_type_invariant(&*self);
        }
        vec_as_mut_slice(&mut self.items)
    }

    /// Consume the arena and hand back its elements, in allocation order.
    /// Every filled index is one the behavior's encoding represents.
    pub fn into_vec(self) -> (r: Vec<T>)
        ensures
            r@ == self@,
            forall|i: nat| i < r@.len() ==> A::index_fits(i),
    {
        proof {
            use_type_invariant(&self);
        }
        let Arena { arena_id: _, items, _phantom } = self;
        items
    }
}

/// An iterator over `(id, element)` pairs of an arena, in allocation order.
///
/// Obtained from [`Arena::iter`]; each step reconstructs the id of the
/// current position from the arena's tag.
pub struct Iter<'a, T, A: ArenaBehavior> {
    arena_id: usize,
    items: &'a Vec<T>,
    pos: usize,
    _phantom: PhantomData<A>,
}

impl<'a, T, A: ArenaBehavior> Iter<'a, T, A> {
    /// The tag of the arena being traversed.
    pub closed spec fn spec_arena_id(self) -> usize {
        self.arena_id
    }

    /// The elements being traversed.
    pub closed spec fn spec_items(self) -> Seq<T> {
        self.items@
    }

    /// How many pairs have been yielded so far.
    pub closed spec fn spec_pos(self) -> usize {
        self.pos
    }

    #[verifier::type_invariant]
    spec fn wf(self) -> bool {
        self.pos <= self.items@.len() && forall|i: nat|
            i < self.items@.len() ==> A::index_fits(i)
    }

    /// The next `(id, element)` pair, if any: the element at the current
    /// position, under the id made of that position and the arena's tag.
    pub fn next(&mut self) -> (r: Option<(A::Id, &'a T)>)
        ensures
            final(self).spec_arena_id() == old(self).spec_arena_id(),
            final(self).spec_items() == old(self).spec_items(),
            old(self).spec_pos() < old(self).spec_items().len() ==> {
                &&& r is Some
                &&& r.unwrap().0 == A::spec_new_id(
                    old(self).spec_pos(),
                    old(self).spec_arena_id(),
                )
                &&& *r.unwrap().1 == old(self).spec_items()[old(self).spec_pos() as int]
                &&& final(self).spec_pos() == old(self).spec_pos() + 1
            },
            old(self).spec_pos() >= old(self).spec_items().len() ==> {
                r is None && *final(self) == *old(self)
            },
    {
        proof {
            use_type_invariant(&*self);
        }
        if self.pos < self.items.len() {
            let idx = self.pos;
            let id = A::new_id(idx, self.arena_id);
            self.pos = idx + 1;
            Some((id, &self.items[idx]))
        } else {
            None
        }
    }
}

/// Allocating and then resolving hands the allocated value back: after an
/// arena grows by `item` (what `allocate` does), the id minted for the new
/// element — index at the old length, the arena's own tag — resolves, and
/// resolves to `item` (what `get` then returns).
pub proof fn lemma_round_trip<T, A: ArenaBehavior>(
    before: Arena<T, A>,
    after: Arena<T, A>,
    item: T,
    id: A::Id,
)
    requires
        after@ == before@.push(item),
        after.spec_arena_id() == before.spec_arena_id(),
        A::spec_index(id) == before@.len(),
        A::spec_arena_id(id) == before.spec_arena_id(),
    ensures
        after.contains_id(id),
        after@[A::spec_index(id) as int] == item,
{
}

/// Ids do not cross arenas: an id issued under one arena's tag never
/// resolves in an arena with a different tag, whatever both arenas hold.
pub proof fn lemma_cross_arena_isolation<T, A: ArenaBehavior>(
    a: Arena<T, A>,
    b: Arena<T, A>,
    id: A::Id,
)
    requires
        A::spec_arena_id(id) == a.spec_arena_id(),
        a.spec_arena_id() != b.spec_arena_id(),
    ensures
        !b.contains_id(id),
{
}

/// Strict and soft lookup are symmetric: both are governed by the one model
/// `spec_lookup`, which finds an element exactly under `contains_id` — the
/// condition the strict operations demand of their callers and the soft ones
/// report a miss outside of — and the element either hands back is the same:
/// the one at the id's index.
pub proof fn lemma_strict_soft_symmetry<T, A: ArenaBehavior>(a: Arena<T, A>, id: A::Id)
    ensures
        a.spec_lookup(id) is Some <==> a.contains_id(id),
        a.contains_id(id) ==> a.spec_lookup(id) == Some(a@[A::spec_index(id) as int]),
{
}

/// An id once valid stays valid: the arena only ever grows (every mutating
/// operation's contract keeps the tag and never shortens the sequence), and
/// growth preserves `contains_id`.
pub proof fn lemma_ids_stay_valid<T, A: ArenaBehavior>(
    earlier: Arena<T, A>,
    later: Arena<T, A>,
    id: A::Id,
)
    requires
        earlier.contains_id(id),
        later.spec_arena_id() == earlier.spec_arena_id(),
        earlier@.len() <= later@.len(),
    ensures
        later.contains_id(id),
{
}

impl<T, A: ArenaBehavior> Default for Arena<T, A> {
    fn default() -> (r: Arena<T, A>)
        ensures
            r@.len() == 0,
    {
        Arena::new()
    }
}

} // verus!
