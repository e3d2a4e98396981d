//! Keys: validated sets of slot indices, and the plan by which a key's
//! indices are matched to the slots that a guard owns.

use vstd::prelude::*;
use crate::mask::Mask;

verus! {

/// The slot at position `I`, known at compile time.
#[derive(Clone, Copy, Debug)]
pub struct At<const I: usize>;

/// A description of slots that can be read off as a list of indices.
pub trait Fold {
    /// The indices, in the order in which the description names them.
    spec fn flat(&self) -> Seq<usize>;

    /// Appends the indices to `into`.
    fn gather(&self, into: &mut Vec<usize>)
        ensures
            final(into)@ == old(into)@ + self.flat(),
    ;
}

/// The indices of a run of descriptions, one after the other.
pub open spec fn flat_all<F: Fold>(items: Seq<F>) -> Seq<usize>
    decreases items.len(),
{
    if items.len() == 0 {
        Seq::empty()
    } else {
        flat_all(items.drop_last()) + items.last().flat()
    }
}

impl Fold for usize {
    open spec fn flat(&self) -> Seq<usize> {
        seq![*self]
    }

    fn gather(&self, into: &mut Vec<usize>) {
        into.push(*self);
    }
}

impl<const I: usize> Fold for At<I> {
    open spec fn flat(&self) -> Seq<usize> {
        seq![I]
    }

    fn gather(&self, into: &mut Vec<usize>) {
        into.push(I);
    }
}

impl<F: Fold, const N: usize> Fold for [F; N] {
    open spec fn flat(&self) -> Seq<usize> {
        flat_all(self@)
    }

    fn gather(&self, into: &mut Vec<usize>) {
        let mut k: usize = 0;
        while k < N
            invariant
                k <= N,
                into@ == old(into)@ + flat_all(self@.take(k as int)),
            decreases N - k,
        {
            proof {
                assert(self@.take(k + 1).drop_last() =~= self@.take(k as int));
            }
            self[k].gather(into);
            k += 1;
        }
        proof {
            assert(self@.take(N as int) =~= self@);
        }
    }
}

impl<F: Fold> Fold for Vec<F> {
    open spec fn flat(&self) -> Seq<usize> {
        flat_all(self@)
    }

    fn gather(&self, into: &mut Vec<usize>) {
        let mut k: usize = 0;
        while k < self.len()
            invariant
                k <= self@.len(),
                into@ == old(into)@ + flat_all(self@.take(k as int)),
            decreases self@.len() - k,
        {
            proof {
                assert(self@.take(k + 1).drop_last() =~= self@.take(k as int));
            }
            self[k].gather(into);
            k += 1;
        }
        proof {
            assert(self@.take(self@.len() as int) =~= self@);
        }
    }
}

impl<F: Fold> Fold for [F] {
    open spec fn flat(&self) -> Seq<usize> {
        flat_all(self@)
    }

    fn gather(&self, into: &mut Vec<usize>) {
        let mut k: usize = 0;
        while k < self.len()
            invariant
                k <= self@.len(),
                into@ == old(into)@ + flat_all(self@.take(k as int)),
            decreases self@.len() - k,
        {
            proof {
                assert(self@.take(k + 1).drop_last() =~= self@.take(k as int));
            }
            self[k].gather(into);
            k += 1;
        }
        proof {
            assert(self@.take(self@.len() as int) =~= self@);
        }
    }
}

impl<F: Fold + ?Sized> Fold for &F {
    open spec fn flat(&self) -> Seq<usize> {
        (**self).flat()
    }

    fn gather(&self, into: &mut Vec<usize>) {
        (**self).gather(into);
    }
}

impl Fold for () {
    open spec fn flat(&self) -> Seq<usize> {
        Seq::empty()
    }

    fn gather(&self, into: &mut Vec<usize>) {
    }
}

impl<F0: Fold> Fold for (F0,) {
    open spec fn flat(&self) -> Seq<usize> {
        self.0.flat()
    }

    fn gather(&self, into: &mut Vec<usize>) {
        self.0.gather(into);
    }
}

impl<F0: Fold, F1: Fold> Fold for (F0, F1) {
    open spec fn flat(&self) -> Seq<usize> {
        self.0.flat() + self.1.flat()
    }

    fn gather(&self, into: &mut Vec<usize>) {
        self.0.gather(into);
        self.1.gather(into);
    }
}

impl<F0: Fold, F1: Fold, F2: Fold> Fold for (F0, F1, F2) {
    open spec fn flat(&self) -> Seq<usize> {
        self.0.flat() + self.1.flat() + self.2.flat()
    }

    fn gather(&self, into: &mut Vec<usize>) {
        self.0.gather(into);
        self.1.gather(into);
        self.2.gather(into);
    }
}

impl<F0: Fold, F1: Fold, F2: Fold, F3: Fold> Fold for (F0, F1, F2, F3) {
    open spec fn flat(&self) -> Seq<usize> {
        self.0.flat() + self.1.flat() + self.2.flat() + self.3.flat()
    }

    fn gather(&self, into: &mut Vec<usize>) {
        self.0.gather(into);
        self.1.gather(into);
        self.2.gather(into);
        self.3.gather(into);
    }
}

impl<F0: Fold, F1: Fold, F2: Fold, F3: Fold, F4: Fold> Fold for (F0, F1, F2, F3, F4) {
    open spec fn flat(&self) -> Seq<usize> {
        self.0.flat() + self.1.flat() + self.2.flat() + self.3.flat() + self.4.flat()
    }

    fn gather(&self, into: &mut Vec<usize>) {
        self.0.gather(into);
        self.1.gather(into);
        self.2.gather(into);
        self.3.gather(into);
        self.4.gather(into);
    }
}

impl<F0: Fold, F1: Fold, F2: Fold, F3: Fold, F4: Fold, F5: Fold> Fold for (F0, F1, F2, F3, F4, F5) {
    open spec fn flat(&self) -> Seq<usize> {
        self.0.flat()
            + self.1.flat()
            + self.2.flat()
            + self.3.flat()
            + self.4.flat()
            + self.5.flat()
    }

    fn gather(&self, into: &mut Vec<usize>) {
        self.0.gather(into);
        self.1.gather(into);
        self.2.gather(into);
        self.3.gather(into);
        self.4.gather(into);
        self.5.gather(into);
    }
}

impl<F0: Fold, F1: Fold, F2: Fold, F3: Fold, F4: Fold, F5: Fold, F6: Fold> Fold for (F0, F1, F2, F3, F4, F5, F6) {
    open spec fn flat(&self) -> Seq<usize> {
        self.0.flat()
            + self.1.flat()
            + self.2.flat()
            + self.3.flat()
            + self.4.flat()
            + self.5.flat()
            + self.6.flat()
    }

    fn gather(&self, into: &mut Vec<usize>) {
        self.0.gather(into);
        self.1.gather(into);
        self.2.gather(into);
        self.3.gather(into);
        self.4.gather(into);
        self.5.gather(into);
        self.6.gather(into);
    }
}

impl<F0: Fold, F1: Fold, F2: Fold, F3: Fold, F4: Fold, F5: Fold, F6: Fold, F7: Fold> Fold for (F0, F1, F2, F3, F4, F5, F6, F7) {
    open spec fn flat(&self) -> Seq<usize> {
        self.0.flat()
            + self.1.flat()
            + self.2.flat()
            + self.3.flat()
            + self.4.flat()
            + self.5.flat()
            + self.6.flat()
            + self.7.flat()
    }

    fn gather(&self, into: &mut Vec<usize>) {
        self.0.gather(into);
        self.1.gather(into);
        self.2.gather(into);
        self.3.gather(into);
        self.4.gather(into);
        self.5.gather(into);
        self.6.gather(into);
        self.7.gather(into);
    }
}

/// Why an index cannot go into a key.
#[derive(Clone, Copy, Debug, PartialEq, Eq, Structural)]
pub enum Invalid {
    /// The mask has no bit for the index.
    OutOfBounds,
    /// The index was named before.
    Duplicate,
}

/// The first index of a description that cannot go into a key.
#[derive(Clone, Copy, Debug, PartialEq, Eq, Structural)]
pub struct InvalidIndexError {
    pub index: usize,
    pub kind: Invalid,
}

/// Whether the index at position `p` can go into a key over masks of type
/// `M` after those before it: the mask has a bit for it, and it was not
/// named before.
pub open spec fn admits<M: Mask>(indices: Seq<usize>, p: int) -> bool {
    M::fits(indices[p] as nat) && forall|q: int| 0 <= q < p ==> indices[q] != indices[p]
}

/// Whether every index can go into a key over masks of type `M`.
pub open spec fn valid<M: Mask>(indices: Seq<usize>) -> bool {
    forall|p: int| 0 <= p < indices.len() ==> admits::<M>(indices, p)
}

/// The set of the first `count` indices.
pub open spec fn named(indices: Seq<usize>, count: int) -> Set<nat> {
    Set::new(|i: nat| exists|q: int| 0 <= q < count && indices[q] == i)
}

/// What the plan gives at position `k` of a key's indices, to a guard that
/// owns `owned`, over a value of `slots` slots: the index there, if it is a
/// slot of the value, the guard owns it, and no earlier position named it.
pub open spec fn planned(indices: Seq<usize>, owned: Set<nat>, slots: nat, k: int) -> Option<
    usize,
> {
    if indices[k] < slots && owned.contains(indices[k] as nat) && forall|q: int|
        0 <= q < k ==> indices[q] != indices[k] {
        Some(indices[k])
    } else {
        None
    }
}

/// No slot is planned twice: two positions of a plan that both give a slot
/// give different slots.
pub proof fn plan_is_disjoint(indices: Seq<usize>, owned: Set<nat>, slots: nat, j: int, k: int)
    requires
        0 <= j < k < indices.len(),
    ensures
        planned(indices, owned, slots, j).is_some() && planned(indices, owned, slots, k).is_some()
            ==> planned(indices, owned, slots, j) != planned(indices, owned, slots, k),
        planned(indices, owned, slots, k) matches Some(slot) ==> owned.contains(slot as nat) && slot
            < slots,
{
}

/// Where no index is named twice, a position of the plan gives its index
/// whenever that is a slot of the value that the guard owns.
pub proof fn plan_of_valid_key<M: Mask>(indices: Seq<usize>, owned: Set<nat>, slots: nat, k: int)
    requires
        valid::<M>(indices),
        0 <= k < indices.len(),
    ensures
        planned(indices, owned, slots, k) == if indices[k] < slots && owned.contains(
            indices[k] as nat,
        ) {
            Some(indices[k])
        } else {
            None
        },
{
    assert(admits::<M>(indices, k));
}

/// A validated set of slot indices: the mask to reserve, and the
/// description that the indices came from.
pub struct Key<L: Mask, G: Fold> {
    mask: L,
    indices: G,
}

impl<M: Mask, F: Fold> Key<M, F> {
    /// The mask that the key reserves.
    pub closed spec fn spec_mask(&self) -> M {
        self.mask
    }

    /// The description that the key was made from.
    pub closed spec fn spec_indices(&self) -> F {
        self.indices
    }

    #[verifier::type_invariant]
    spec fn matched(self) -> bool {
        &&& valid::<M>(self.indices.flat())
        &&& self.mask.indices() == named(self.indices.flat(), self.indices.flat().len() as int)
    }

    /// Makes a key of the indices that `indices` names. The key is made if
    /// and only if the mask has a bit for every index and no index is named
    /// twice; if not, the error holds the first index that is out of
    /// bounds or named before, and says which.
    pub fn new(indices: F) -> (key: Result<Self, InvalidIndexError>)
        ensures
            match key {
                Ok(key) => {
                    &&& valid::<M>(indices.flat())
                    &&& key.spec_indices() == indices
                    &&& key.spec_mask().indices() == named(
                        indices.flat(),
                        indices.flat().len() as int,
                    )
                },
                Err(error) => exists|p: int|
                    {
                        &&& 0 <= p < indices.flat().len()
                        &&& forall|q: int| 0 <= q < p ==> admits::<M>(indices.flat(), q)
                        &&& !admits::<M>(indices.flat(), p)
                        &&& error.index == #[trigger] indices.flat()[p]
                        &&& error.kind == if M::fits(error.index as nat) {
                            Invalid::Duplicate
                        } else {
                            Invalid::OutOfBounds
                        }
                    },
            },
    {
        let mut list: Vec<usize> = Vec::new();
        indices.gather(&mut list);
        assert(list@ =~= indices.flat());
        let mut mask = M::new();
        assert(mask.indices() =~= named(list@, 0));
        let mut k: usize = 0;
        while k < list.len()
            invariant
                k <= list@.len(),
                list@ == indices.flat(),
                mask.indices() == named(list@, k as int),
                forall|q: int| 0 <= q < k ==> admits::<M>(list@, q),
            decreases list@.len() - k,
        {
            let index = list[k];
            let ghost before = mask.indices();
            if !mask.add(index) {
                let held = mask.contains(index);
                proof {
                    mask.indices_fit();
                    if held {
                        let q = choose|q: int| 0 <= q < k && list@[q] == index as nat;
                        assert(list@[q] == list@[k as int]);
                    } else {
                        assert(!M::fits(index as nat));
                    }
                    assert(!admits::<M>(list@, k as int));
                }
                let kind = if held {
                    Invalid::Duplicate
                } else {
                    Invalid::OutOfBounds
                };
                return Err(InvalidIndexError { index, kind });
            }
            proof {
                assert forall|q: int| 0 <= q < k implies list@[q] != list@[k as int] by {
                    if list@[q] == list@[k as int] {
                        assert(before.contains(list@[q] as nat));
                    }
                }
                assert(mask.indices() =~= named(list@, k + 1)) by {
                    assert forall|i: nat| mask.indices().contains(i) <==> named(
                        list@,
                        k + 1,
                    ).contains(i) by {
                        if named(list@, k + 1).contains(i) {
                            let q = choose|q: int| 0 <= q < k + 1 && list@[q] == i;
                            if q < k {
                                assert(named(list@, k as int).contains(i));
                            }
                        }
                        if before.contains(i) {
                            let q = choose|q: int| 0 <= q < k && list@[q] == i;
                            assert(0 <= q < k + 1 && list@[q] == i);
                        }
                        if i == index {
                            assert(list@[k as int] == i);
                        }
                    }
                }
            }
            k += 1;
        }
        Ok(Key { mask, indices })
    }

    /// The mask that the key reserves: it holds the indices that the
    /// description names, each of them named once, and nothing else.
    pub fn mask(&self) -> (mask: &M)
        ensures
            *mask == self.spec_mask(),
            valid::<M>(self.spec_indices().flat()),
            mask.indices() == named(
                self.spec_indices().flat(),
                self.spec_indices().flat().len() as int,
            ),
    {
        proof {
            use_type_invariant(self);
        }
        &self.mask
    }

    /// The description that the key was made from.
    pub fn indices(&self) -> (indices: &F)
        ensures
            *indices == self.spec_indices(),
    {
        &self.indices
    }

    /// Matches the key's indices to the slots of a value of `slots` slots,
    /// for a guard that owns `owned`. Position by position, the plan gives
    /// the index if it is a slot of the value that the guard owns and that
    /// no earlier position was given; else nothing.
    pub fn plan(&self, owned: M, slots: usize) -> (plan: Vec<Option<usize>>)
        ensures
            plan@.len() == self.spec_indices().flat().len(),
            forall|k: int|
                0 <= k < plan@.len() ==> #[trigger] plan@[k] == planned(
                    self.spec_indices().flat(),
                    owned.indices(),
                    slots as nat,
                    k,
                ),
    {
        let mut list: Vec<usize> = Vec::new();
        self.indices.gather(&mut list);
        assert(list@ =~= self.indices.flat());
        let mut pending = owned;
        let mut plan: Vec<Option<usize>> = Vec::new();
        let mut k: usize = 0;
        while k < list.len()
            invariant
                k <= list@.len(),
                plan@.len() == k,
                list@ == self.indices.flat(),
                forall|i: nat|
                    pending.indices().contains(i) <==> owned.indices().contains(i) && !exists|
                        q: int,
                    |
                        0 <= q < k && list@[q] == i && i < slots,
                forall|j: int|
                    0 <= j < k ==> #[trigger] plan@[j] == planned(
                        list@,
                        owned.indices(),
                        slots as nat,
                        j,
                    ),
            decreases list@.len() - k,
        {
            let index = list[k];
            let ghost before = pending.indices();
            let slot = if index < slots && pending.remove(index) {
                Some(index)
            } else {
                None
            };
            proof {
                if index < slots && before.contains(index as nat) {
                    assert forall|q: int| 0 <= q < k implies list@[q] != list@[k as int] by {
                        if list@[q] == list@[k as int] {
                            assert(0 <= q < k && list@[q] == index as nat && (index as nat)
                                < slots);
                        }
                    }
                } else if index < slots && owned.indices().contains(index as nat) {
                    let q = choose|q: int| 0 <= q < k && list@[q] == index as nat && (index as nat) < slots;
                    assert(list@[q] == list@[k as int]);
                }
                assert(slot == planned(list@, owned.indices(), slots as nat, k as int));
                assert forall|i: nat|
                    pending.indices().contains(i) <==> owned.indices().contains(i) && !exists|
                        q: int,
                    |
                        0 <= q < k + 1 && list@[q] == i && i < slots by {
                    if exists|q: int| 0 <= q < k + 1 && list@[q] == i && i < slots {
                        let q = choose|q: int| 0 <= q < k + 1 && list@[q] == i && i < slots;
                        if q < k {
                            assert(0 <= q < k && list@[q] == i && i < slots);
                        }
                    }
                    if exists|q: int| 0 <= q < k && list@[q] == i && i < slots {
                        let q = choose|q: int| 0 <= q < k && list@[q] == i && i < slots;
                        assert(0 <= q < k + 1 && list@[q] == i && i < slots);
                    }
                    if i == index && i < slots {
                        assert(0 <= k < k + 1 && list@[k as int] == i && i < slots);
                    }
                }
            }
            plan.push(slot);
            k += 1;
        }
        plan
    }
}

} // verus!
