//! Parallel traversal adapters.
//!
//! A fork/join traversal recursively splits a range of the arena's storage
//! into independent sub-ranges, hands each to a worker, and merges partial
//! results. The storage alone knows only positions, not ids; the adapters
//! here carry the arena's tag alongside each sub-range and reconstruct, per
//! element and at the last possible point, the very id the arena issued for
//! that position. Splitting copies the one immutable tag into both halves,
//! so every sub-range independently recomputes correct ids for its own
//! positions and no coordination between halves is needed.
//!
//! [`ParIter`] borrows the storage, [`IntoParIter`] owns it; both expose the
//! splitting step ([`ParIter::split_at`]), the per-element decoration
//! ([`IdFolder::consume`]), and a recursive driver that processes a range
//! exactly as a fork/join pool schedules it. The adapters change scheduling
//! only, never identity or content: each contract below pins the produced
//! pairs to the arena's own `spec_pairs`.

use vstd::prelude::*;
use vstd::seq_lib::lemma_multiset_commutative;

use core::marker::PhantomData;

use crate::Arena;
use crate::ArenaBehavior;

verus! {

/// A splittable traversal of a borrowed sub-range of an arena's storage,
/// yielding `(id, element)` pairs.
///
/// Covers the positions `base .. base + len` of the arena the tag was taken
/// from; splitting divides the positions between two adapters that both keep
/// the tag.
#[verifier::reject_recursive_types(A)]
pub struct ParIter<'a, T, A: ArenaBehavior> {
    arena_id: usize,
    base: usize,
    items: &'a [T],
    _phantom: PhantomData<A>,
}

impl<'a, T, A: ArenaBehavior> ParIter<'a, T, A> {
    /// The tag of the arena being traversed.
    pub closed spec fn spec_arena_id(self) -> usize {
        self.arena_id
    }

    /// The position of the first covered element within the arena.
    pub closed spec fn spec_base(self) -> usize {
        self.base
    }

    /// The covered elements.
    pub closed spec fn spec_items(self) -> Seq<T> {
        self.items@
    }

    #[verifier::type_invariant]
    spec fn wf(self) -> bool {
        self.base + self.items@.len() <= usize::MAX && forall|p: nat|
            self.base <= p < self.base + self.items@.len() ==> A::index_fits(p)
    }

    /// The `(id, element)` pairs this traversal yields, in position order:
    /// each covered element under the id made of its arena-wide position and
    /// the arena's tag.
    pub open spec fn spec_pairs(self) -> Seq<(A::Id, T)> {
        Seq::new(
            self.spec_items().len(),
            |i: int|
                (
                    A::spec_new_id((self.spec_base() + i) as usize, self.spec_arena_id()),
                    self.spec_items()[i],
                ),
        )
    }

    pub(crate) fn from_parts(items: &'a [T], arena_id: usize) -> (r: ParIter<'a, T, A>)
        requires
            forall|i: nat| i < items@.len() ==> A::index_fits(i),
        ensures
            r.spec_arena_id() == arena_id,
            r.spec_base() == 0,
            r.spec_items() == items@,
    {
        proof {
            assert(items.len() <= usize::MAX);
        }
        ParIter { arena_id, base: 0, items, _phantom: PhantomData }
    }

    /// How many pairs this traversal yields.
    pub fn len(&self) -> (r: usize)
        ensures
            r == self.spec_pairs().len(),
    {
        self.items.len()
    }

    /// Split the traversal at `index` into two independent traversals: the
    /// left one yields the first `index` pairs, the right one the rest, and
    /// together — merged in order — they yield exactly what the whole would
    /// have. Both halves keep the arena's tag.
    pub fn split_at(self, index: usize) -> (r: (ParIter<'a, T, A>, ParIter<'a, T, A>))
        requires
            index <= self.spec_items().len(),
        ensures
            r.0.spec_arena_id() == self.spec_arena_id(),
            r.1.spec_arena_id() == self.spec_arena_id(),
            r.0.spec_pairs() == self.spec_pairs().subrange(0, index as int),
            r.1.spec_pairs() == self.spec_pairs().subrange(
                index as int,
                self.spec_pairs().len() as int,
            ),
            r.0.spec_pairs() + r.1.spec_pairs() == self.spec_pairs(),
    {
        proof {
            use_type_invariant(&self);
        }
        let (left_items, right_items) = self.items.split_at(index);
        let left = ParIter {
            arena_id: self.arena_id,
            base: self.base,
            items: left_items,
            _phantom: PhantomData,
        };
        let right = ParIter {
            arena_id: self.arena_id,
            base: self.base + index,
            items: right_items,
            _phantom: PhantomData,
        };
        proof {
            assert(left.spec_pairs() =~= self.spec_pairs().subrange(0, index as int));
            assert(right.spec_pairs() =~= self.spec_pairs().subrange(
                index as int,
                self.spec_pairs().len() as int,
            ));
            assert(left.spec_pairs() + right.spec_pairs() =~= self.spec_pairs());
        }
        (left, right)
    }

    /// Traverse the whole sub-range sequentially, collecting each element
    /// with its reconstructed id.
    pub fn into_vec(self) -> (r: Vec<(A::Id, &'a T)>)
        ensures
            r@.len() == self.spec_pairs().len(),
            forall|k: int|
                0 <= k < r@.len() ==> r@[k].0 == self.spec_pairs()[k].0 && *r@[k].1
                    == self.spec_pairs()[k].1,
    {
        proof {
            use_type_invariant(&self);
        }
        let mut out: Vec<(A::Id, &'a T)> = Vec::new();
        let mut i: usize = 0;
        let n = self.items.len();
        while i < n
            invariant
                n == self.spec_items().len(),
                i <= n,
                self.wf(),
                out@.len() == i,
                forall|k: int|
                    0 <= k < i ==> out@[k].0 == self.spec_pairs()[k].0 && *out@[k].1
                        == self.spec_pairs()[k].1,
            decreases n - i,
        {
            let id = A::new_id(self.base + i, self.arena_id);
            out.push((id, &self.items[i]));
            i += 1;
        }
        out
    }

    /// Turn the (sub-)traversal into a lazy iterator over its pairs, each
    /// element decorated with its reconstructed id as it is yielded.
    pub fn into_iter(self) -> (r: IdIter<'a, T, A>)
        ensures
            r.spec_remaining() == self.spec_pairs(),
    {
        proof {
            use_type_invariant(&self);
        }
        let n = self.items.len();
        let r = IdIter {
            arena_id: self.arena_id,
            base: self.base,
            items: self.items,
            front: 0,
            back: n,
            _phantom: PhantomData,
        };
        proof {
            assert(r.spec_remaining() =~= self.spec_pairs());
        }
        r
    }

    /// Traverse the sub-range the way a fork/join pool does: while a range
    /// is longer than `chunk`, split it in half and process the halves
    /// independently, then merge the partial results in order. The outcome
    /// is exactly the sequential traversal's, whatever `chunk` is.
    pub fn drive(self, chunk: usize) -> (r: Vec<(A::Id, &'a T)>)
        ensures
            r@.len() == self.spec_pairs().len(),
            forall|k: int|
                0 <= k < r@.len() ==> r@[k].0 == self.spec_pairs()[k].0 && *r@[k].1
                    == self.spec_pairs()[k].1,
        decreases self.spec_items().len(),
    {
        let n = self.len();
        if n > chunk && n >= 2 {
            let (left, right) = self.split_at(n / 2);
            let mut out = left.drive(chunk);
            let mut rest = right.drive(chunk);
            out.append(&mut rest);
            out
        } else {
            self.into_vec()
        }
    }
}

/// A lazy, double-ended iterator over the `(id, element)` pairs of a
/// (sub-)traversal: the identity-injecting decoration of a position-carrying
/// iterator, obtained from [`ParIter::into_iter`].
#[verifier::reject_recursive_types(A)]
pub struct IdIter<'a, T, A: ArenaBehavior> {
    arena_id: usize,
    base: usize,
    items: &'a [T],
    front: usize,
    back: usize,
    _phantom: PhantomData<A>,
}

impl<'a, T, A: ArenaBehavior> IdIter<'a, T, A> {
    #[verifier::type_invariant]
    spec fn wf(self) -> bool {
        &&& self.front <= self.back <= self.items@.len()
        &&& self.base + self.items@.len() <= usize::MAX
        &&& forall|p: nat|
            self.base <= p < self.base + self.items@.len() ==> A::index_fits(p)
    }

    /// The pairs not yet yielded, in position order.
    pub closed spec fn spec_remaining(self) -> Seq<(A::Id, T)> {
        Seq::new(
            (self.back - self.front) as nat,
            |i: int|
                (
                    A::spec_new_id((self.base + self.front + i) as usize, self.arena_id),
                    self.items@[self.front + i],
                ),
        )
    }

    /// How many pairs are still to be yielded.
    pub fn len(&self) -> (r: usize)
        ensures
            r == self.spec_remaining().len(),
    {
        proof {
            use_type_invariant(&*self);
        }
        self.back - self.front
    }

    /// The next pair from the front, if any.
    pub fn next(&mut self) -> (r: Option<(A::Id, &'a T)>)
        ensures
            old(self).spec_remaining().len() > 0 ==> {
                &&& r is Some
                &&& r.unwrap().0 == old(self).spec_remaining()[0].0
                &&& *r.unwrap().1 == old(self).spec_remaining()[0].1
                &&& final(self).spec_remaining() == old(self).spec_remaining().drop_first()
            },
            old(self).spec_remaining().len() == 0 ==> r is None && *final(self) == *old(self),
    {
        proof {
            use_type_invariant(&*self);
        }
        if self.front < self.back {
            let idx = self.front;
            let id = A::new_id(self.base + idx, self.arena_id);
            self.front = idx + 1;
            proof {
                assert(final(self).spec_remaining() =~= old(self).spec_remaining().drop_first());
            }
            Some((id, &self.items[idx]))
        } else {
            None
        }
    }

    /// The next pair from the back, if any.
    pub fn next_back(&mut self) -> (r: Option<(A::Id, &'a T)>)
        ensures
            old(self).spec_remaining().len() > 0 ==> {
                &&& r is Some
                &&& r.unwrap().0 == old(self).spec_remaining().last().0
                &&& *r.unwrap().1 == old(self).spec_remaining().last().1
                &&& final(self).spec_remaining() == old(self).spec_remaining().drop_last()
            },
            old(self).spec_remaining().len() == 0 ==> r is None && *final(self) == *old(self),
    {
        proof {
            use_type_invariant(&*self);
        }
        if self.front < self.back {
            let idx = self.back - 1;
            let id = A::new_id(self.base + idx, self.arena_id);
            self.back = idx;
            proof {
                assert(final(self).spec_remaining() =~= old(self).spec_remaining().drop_last());
            }
            Some((id, &self.items[idx]))
        } else {
            None
        }
    }
}

/// A splittable traversal that owns the arena's storage, yielding
/// `(id, element)` pairs by value.
///
/// The consuming counterpart of [`ParIter`]: splitting moves the elements
/// apart and copies the arena's tag into both halves.
#[verifier::reject_recursive_types(A)]
pub struct IntoParIter<T, A: ArenaBehavior> {
    arena_id: usize,
    base: usize,
    items: Vec<T>,
    _phantom: PhantomData<A>,
}

impl<T, A: ArenaBehavior> IntoParIter<T, A> {
    /// The tag of the arena being traversed.
    pub closed spec fn spec_arena_id(self) -> usize {
        self.arena_id
    }

    /// The position of the first covered element within the arena.
    pub closed spec fn spec_base(self) -> usize {
        self.base
    }

    /// The covered elements.
    pub closed spec fn spec_items(self) -> Seq<T> {
        self.items@
    }

    #[verifier::type_invariant]
    spec fn wf(self) -> bool {
        self.base + self.items@.len() <= usize::MAX && forall|p: nat|
            self.base <= p < self.base + self.items@.len() ==> A::index_fits(p)
    }

    /// The `(id, element)` pairs this traversal yields, in position order.
    pub open spec fn spec_pairs(self) -> Seq<(A::Id, T)> {
        Seq::new(
            self.spec_items().len(),
            |i: int|
                (
                    A::spec_new_id((self.spec_base() + i) as usize, self.spec_arena_id()),
                    self.spec_items()[i],
                ),
        )
    }

    pub(crate) fn from_parts(items: Vec<T>, arena_id: usize) -> (r: IntoParIter<T, A>)
        requires
            forall|i: nat| i < items@.len() ==> A::index_fits(i),
        ensures
            r.spec_arena_id() == arena_id,
            r.spec_base() == 0,
            r.spec_items() == items@,
    {
        proof {
            assert(items.len() <= usize::MAX);
        }
        IntoParIter { arena_id, base: 0, items, _phantom: PhantomData }
    }

    /// How many pairs this traversal yields.
    pub fn len(&self) -> (r: usize)
        ensures
            r == self.spec_pairs().len(),
    {
        self.items.len()
    }

    /// Split the traversal at `index` into two independent traversals, as
    /// [`ParIter::split_at`] does; the elements move into the halves.
    pub fn split_at(self, index: usize) -> (r: (IntoParIter<T, A>, IntoParIter<T, A>))
        requires
            index <= self.spec_items().len(),
        ensures
            r.0.spec_arena_id() == self.spec_arena_id(),
            r.1.spec_arena_id() == self.spec_arena_id(),
            r.0.spec_pairs() == self.spec_pairs().subrange(0, index as int),
            r.1.spec_pairs() == self.spec_pairs().subrange(
                index as int,
                self.spec_pairs().len() as int,
            ),
            r.0.spec_pairs() + r.1.spec_pairs() == self.spec_pairs(),
    {
        proof {
            use_type_invariant(&self);
        }
        let ghost whole = self;
        let IntoParIter { arena_id, base, mut items, _phantom } = self;
        let tail = items.split_off(index);
        let left = IntoParIter { arena_id, base, items, _phantom: PhantomData };
        let right = IntoParIter {
            arena_id,
            base: base + index,
            items: tail,
            _phantom: PhantomData,
        };
        proof {
            assert(left.spec_pairs() =~= whole.spec_pairs().subrange(0, index as int));
            assert(right.spec_pairs() =~= whole.spec_pairs().subrange(
                index as int,
                whole.spec_pairs().len() as int,
            ));
            assert(left.spec_pairs() + right.spec_pairs() =~= whole.spec_pairs());
        }
        (left, right)
    }

    /// Traverse the whole sub-range sequentially, yielding each element with
    /// its reconstructed id: exactly this traversal's pairs, in order.
    pub fn into_vec(self) -> (r: Vec<(A::Id, T)>)
        ensures
            r@ == self.spec_pairs(),
    {
        proof {
            use_type_invariant(&self);
        }
        let ghost pairs = self.spec_pairs();
        let IntoParIter { arena_id, base, mut items, _phantom } = self;
        let ghost n = items@.len();
        let mut rev: Vec<(A::Id, T)> = Vec::new();
        while items.len() > 0
            invariant
                items@.len() + rev@.len() == n,
                base + n <= usize::MAX,
                forall|p: nat| base <= p < base + n ==> A::index_fits(p),
                pairs.len() == n,
                forall|i: int| 0 <= i < items@.len() ==> pairs[i].1 == items@[i],
                forall|i: int|
                    0 <= i < items@.len() ==> pairs[i].0 == A::spec_new_id(
                        (base + i) as usize,
                        arena_id,
                    ),
                forall|k: int| 0 <= k < rev@.len() ==> rev@[k] == pairs[n - 1 - k],
            decreases items@.len(),
        {
            let idx = items.len() - 1;
            let x = items.pop().unwrap();
            let id = A::new_id(base + idx, arena_id);
            proof {
                assert(pairs[idx as int].1 == x);
            }
            rev.push((id, x));
        }
        let mut out: Vec<(A::Id, T)> = Vec::new();
        while rev.len() > 0
            invariant
                out@.len() + rev@.len() == n,
                pairs.len() == n,
                forall|k: int| 0 <= k < rev@.len() ==> rev@[k] == pairs[n - 1 - k],
                forall|k: int| 0 <= k < out@.len() ==> out@[k] == pairs[k],
            decreases rev@.len(),
        {
            let p = rev.pop().unwrap();
            out.push(p);
        }
        proof {
            assert(out@ =~= pairs);
        }
        out
    }

    /// Traverse the way a fork/join pool does, as [`ParIter::drive`]: the
    /// merged result is exactly the sequential traversal's pairs.
    pub fn drive(self, chunk: usize) -> (r: Vec<(A::Id, T)>)
        ensures
            r@ == self.spec_pairs(),
        decreases self.spec_items().len(),
    {
        let n = self.len();
        if n > chunk && n >= 2 {
            let (left, right) = self.split_at(n / 2);
            let mut out = left.drive(chunk);
            let mut rest = right.drive(chunk);
            out.append(&mut rest);
            out
        } else {
            self.into_vec()
        }
    }
}

/// The per-element decoration of a fork/join fold: consumes `(position,
/// element)` pairs and accumulates `(id, element)` pairs, reconstructing
/// each id from the position and the one arena tag it carries.
#[verifier::reject_recursive_types(A)]
#[verifier::reject_recursive_types(J)]
pub struct IdFolder<A: ArenaBehavior, J> {
    arena_id: usize,
    out: Vec<(A::Id, J)>,
}

impl<A: ArenaBehavior, J> IdFolder<A, J> {
    /// The tag ids are reconstructed with.
    pub closed spec fn spec_arena_id(self) -> usize {
        self.arena_id
    }

    /// The pairs folded so far, in consumption order.
    pub closed spec fn spec_out(self) -> Seq<(A::Id, J)> {
        self.out@
    }

    /// An empty folder that will decorate with the given tag.
    pub fn new(arena_id: usize) -> (r: IdFolder<A, J>)
        ensures
            r.spec_arena_id() == arena_id,
            r.spec_out() == Seq::<(A::Id, J)>::empty(),
    {
        IdFolder { arena_id, out: Vec::new() }
    }

    /// Consume one `(position, element)` pair: the element is recorded under
    /// the id made of the position and the folder's tag — the decoration is
    /// per element, so it composes with arbitrary downstream folding.
    pub fn consume(&mut self, position: usize, item: J)
        requires
            A::index_fits(position as nat),
        ensures
            final(self).spec_arena_id() == old(self).spec_arena_id(),
            final(self).spec_out() == old(self).spec_out().push(
                (A::spec_new_id(position, old(self).spec_arena_id()), item),
            ),
    {
        let id = A::new_id(position, self.arena_id);
        self.out.push((id, item));
    }

    /// Finish folding and hand the accumulated pairs out.
    pub fn complete(self) -> (r: Vec<(A::Id, J)>)
        ensures
            r@ == self.spec_out(),
    {
        self.out
    }
}

impl<T, A: ArenaBehavior> Arena<T, A> {
    /// A parallel traversal over shared references: a splittable adapter
    /// that yields every element of the arena under the very id sequential
    /// traversal pairs it with.
    pub fn par_iter(&self) -> (r: ParIter<'_, T, A>)
        ensures
            r.spec_pairs() == self.spec_pairs(),
    {
        let arena_id = self.arena_id();
        let r = ParIter::from_parts(self.as_slice(), arena_id);
        proof {
            assert(r.spec_pairs() =~= self.spec_pairs());
        }
        r
    }

    /// Update every element in place through a fork/join traversal over
    /// exclusive references: each element is rewritten, exactly once, to what
    /// `f` makes of it and the id the arena issued for it. The caller holds
    /// the whole arena exclusively; disjoint splitting alone shares the work.
    pub fn par_update<F: Fn(A::Id, &T) -> T>(&mut self, chunk: usize, f: &F)
        requires
            forall|k: int|
                0 <= k < old(self)@.len() ==> call_requires(
                    *f,
                    (
                        A::spec_new_id(k as usize, old(self).spec_arena_id()),
                        &old(self)@[k],
                    ),
                ),
        ensures
            final(self)@.len() == old(self)@.len(),
            final(self).spec_arena_id() == old(self).spec_arena_id(),
            forall|k: int|
                0 <= k < old(self)@.len() ==> call_ensures(
                    *f,
                    (
                        A::spec_new_id(k as usize, old(self).spec_arena_id()),
                        &old(self)@[k],
                    ),
                    final(self)@[k],
                ),
    {
        let arena_id = self.arena_id();
        let items = self.as_mut_slice();
        proof {
            assert(items.len() <= usize::MAX);
        }
        par_update_range::<T, A, F>(items, 0, arena_id, chunk, f);
    }

    /// A parallel traversal that consumes the arena, yielding every element
    /// by value under the id it was allocated with.
    pub fn into_par_iter(self) -> (r: IntoParIter<T, A>)
        ensures
            r.spec_pairs() == self.spec_pairs(),
    {
        let ghost whole = self;
        let arena_id = self.arena_id();
        let items = self.into_vec();
        let r = IntoParIter::from_parts(items, arena_id);
        proof {
            assert(r.spec_pairs() =~= whole.spec_pairs());
        }
        r
    }
}

/// The exclusive-reference fork/join traversal over one sub-range of an
/// arena's storage: while a range is longer than `chunk`, split it into two
/// disjoint halves — both carrying the one arena tag — and update the halves
/// independently; in a range small enough to process directly, rewrite each
/// element in place to what `f` makes of it and its reconstructed id.
///
/// Splitting a contiguous range at a position never produces overlapping
/// sub-ranges, so updates of the two halves touch disjoint elements; every
/// element ends up rewritten exactly once, under exactly the id sequential
/// traversal pairs it with.
pub fn par_update_range<T, A: ArenaBehavior, F: Fn(A::Id, &T) -> T>(
    items: &mut [T],
    base: usize,
    arena_id: usize,
    chunk: usize,
    f: &F,
)
    requires
        base + old(items)@.len() <= usize::MAX,
        forall|p: nat| base <= p < base + old(items)@.len() ==> A::index_fits(p),
        forall|k: int|
            0 <= k < old(items)@.len() ==> call_requires(
                *f,
                (A::spec_new_id((base + k) as usize, arena_id), &old(items)@[k]),
            ),
    ensures
        final(items)@.len() == old(items)@.len(),
        forall|k: int|
            0 <= k < old(items)@.len() ==> call_ensures(
                *f,
                (A::spec_new_id((base + k) as usize, arena_id), &old(items)@[k]),
                final(items)@[k],
            ),
    decreases old(items)@.len(),
{
    let n = items.len();
    if n > chunk && n >= 2 {
        let mid = n / 2;
        let (left, right) = items.split_at_mut(mid);
        par_update_range::<T, A, F>(left, base, arena_id, chunk, f);
        par_update_range::<T, A, F>(right, base + mid, arena_id, chunk, f);
    } else {
        let mut i: usize = 0;
        while i < n
            invariant
                i <= n,
                n == items@.len(),
                n == old(items)@.len(),
                base + n <= usize::MAX,
                forall|p: nat| base <= p < base + n ==> A::index_fits(p),
                forall|k: int| i <= k < n ==> items@[k] == old(items)@[k],
                forall|k: int|
                    0 <= k < n ==> call_requires(
                        *f,
                        (A::spec_new_id((base + k) as usize, arena_id), &old(items)@[k]),
                    ),
                forall|k: int|
                    0 <= k < i ==> call_ensures(
                        *f,
                        (A::spec_new_id((base + k) as usize, arena_id), &old(items)@[k]),
                        items@[k],
                    ),
            decreases n - i,
        {
            let id = A::new_id(base + i, arena_id);
            let v = f(id, &items[i]);
            items[i] = v;
            i += 1;
        }
    }
}

/// Traversal equivalence: however a traversal is split, the two halves'
/// pairs concatenate back to exactly the whole's pairs, and as multisets the
/// halves together are exactly the whole. A fork/join traversal — any tree
/// of such splits with the partial results merged in order — therefore
/// produces exactly the pairs of sequential traversal.
pub proof fn lemma_traversal_equivalence<T, A: ArenaBehavior>(
    left: Seq<(A::Id, T)>,
    right: Seq<(A::Id, T)>,
    whole: Seq<(A::Id, T)>,
)
    requires
        left + right == whole,
    ensures
        left.to_multiset().add(right.to_multiset()) == whole.to_multiset(),
{
    lemma_multiset_commutative(left, right);
}


} // verus!
