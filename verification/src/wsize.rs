//! Masks in one `usize`, with a slot for each of its bits, and the atomic cell that holds
//! such a word.

use std::sync::atomic::AtomicUsize;
use std::sync::atomic::Ordering;
use vstd::prelude::*;
use crate::lock::reserve;
use crate::lock::reserved;
use crate::lock::Attempt;
use crate::lock::Lock;
use crate::lock::LockAll;
use crate::lock::Release;
use crate::lock::is_locked_word;
use crate::lock::lock_word;
use crate::lock::unlock_word;
use crate::mask::Mask;
use crate::word::folded;
use crate::word::Word;

verus! {

/// The number of bits in a `usize`.
pub const WIDTH: usize = usize::BITS as usize;

/// Whether bit `i` of `w` is set.
pub open spec fn bit_at(w: usize, i: nat) -> bool {
    i < usize::BITS && (w >> (i as usize)) & 1 == 1
}

/// The word in which bit `j` alone is set.
pub open spec fn single(j: nat) -> usize {
    1usize << (j as usize)
}

proof fn bit_facts(a: usize, b: usize, i: usize, j: usize)
    by (bit_vector)
    requires
        i < usize::BITS,
        j < usize::BITS,
    ensures
        (0usize >> i) & 1 == 0,
        ((!0usize) >> i) & 1 == 1,
        ((1usize << j) >> i) & 1 == 1 <==> i == j,
        ((a | b) >> i) & 1 == 1 <==> ((a >> i) & 1 == 1 || (b >> i) & 1 == 1),
        ((a & b) >> i) & 1 == 1 <==> ((a >> i) & 1 == 1 && (b >> i) & 1 == 1),
        ((a ^ b) >> i) & 1 == 1 <==> ((a >> i) & 1 == 1) != ((b >> i) & 1 == 1),
        ((a & !b) >> i) & 1 == 1 <==> ((a >> i) & 1 == 1 && (b >> i) & 1 != 1),
        a ^ b == 0 ==> a == b,
{
}

proof fn halving_facts(a: usize, j: usize)
    by (bit_vector)
    requires
        a != 0,
    ensures
        a & 1 == 1 <==> (a >> 0) & 1 == 1,
        a & 1 != 1 ==> a >> 1 != 0 && a >> 1 < a,
        j < usize::BITS && ((a >> 1) >> j) & 1 == 1 ==> j + 1 < usize::BITS && (a >> ((j + 1) as usize)) & 1 == 1,
{
}

proof fn widen_facts(a: usize, j: u64)
    by (bit_vector)
    requires
        j < 64,
    ensures
        ((a as u64) >> j) & 1 == 1 <==> j < usize::BITS && (a >> (j as usize)) & 1 == 1,
{
}

/// What each bitwise operation does to the indices that a word holds.
proof fn sets_of(a: usize, b: usize)
    ensures
        0usize.indices() == Set::<nat>::empty(),
        (!0usize).indices() == Set::new(|i: nat| i < usize::BITS),
        (a | b).indices() == a.indices().union(b.indices()),
        (a & b).indices() == a.indices().intersect(b.indices()),
        (a ^ b).indices() == a.indices().difference(b.indices()).union(
            b.indices().difference(a.indices()),
        ),
        (a & !b).indices() == a.indices().difference(b.indices()),
{
    assert forall|i: nat| !(#[trigger] bit_at(0usize, i)) by {
        if i < usize::BITS {
            bit_facts(a, b, i as usize, 0);
        }
    }
    assert(0usize.indices() =~= Set::<nat>::empty());
    assert forall|i: nat| #[trigger] bit_at(!0usize, i) <==> i < usize::BITS by {
        if i < usize::BITS {
            bit_facts(a, b, i as usize, 0);
        }
    }
    assert((!0usize).indices() =~= Set::new(|i: nat| i < usize::BITS));
    assert forall|i: nat| #[trigger] bit_at(a | b, i) <==> bit_at(a, i) || bit_at(b, i) by {
        if i < usize::BITS {
            bit_facts(a, b, i as usize, 0);
        }
    }
    assert((a | b).indices() =~= a.indices().union(b.indices()));
    assert forall|i: nat| #[trigger] bit_at(a & b, i) <==> bit_at(a, i) && bit_at(b, i) by {
        if i < usize::BITS {
            bit_facts(a, b, i as usize, 0);
        }
    }
    assert((a & b).indices() =~= a.indices().intersect(b.indices()));
    assert forall|i: nat| #[trigger] bit_at(a ^ b, i) <==> bit_at(a, i) != bit_at(b, i) by {
        if i < usize::BITS {
            bit_facts(a, b, i as usize, 0);
        }
    }
    assert((a ^ b).indices() =~= a.indices().difference(b.indices()).union(
        b.indices().difference(a.indices()),
    ));
    assert forall|i: nat| #[trigger] bit_at(a & !b, i) <==> bit_at(a, i) && !bit_at(b, i) by {
        if i < usize::BITS {
            bit_facts(a, b, i as usize, 0);
        }
    }
    assert((a & !b).indices() =~= a.indices().difference(b.indices()));
}

/// The word zero holds no index.
pub proof fn zero_is_empty()
    ensures
        0usize.indices() == Set::<nat>::empty(),
{
    sets_of(0, 0);
}

/// The word with one bit set holds one index.
pub proof fn single_holds(j: nat)
    requires
        j < usize::BITS,
    ensures
        single(j).indices() == set![j],
{
    assert forall|i: nat| #[trigger] single(j).indices().contains(i) <==> i == j by {
        if i < usize::BITS {
            bit_facts(0, 0, i as usize, j as usize);
        }
    }
    assert(single(j).indices() =~= set![j]);
}

/// A word other than zero has a bit set: its lowest, if that is set, or
/// else one above a bit of the word's upper part.
proof fn some_bit(a: usize) -> (i: nat)
    requires
        a != 0,
    ensures
        bit_at(a, i),
    decreases a,
{
    halving_facts(a, 0);
    if a & 1 == 1 {
        0
    } else {
        let j = some_bit(a >> 1);
        halving_facts(a, j as usize);
        j + 1
    }
}

/// The indices of a word are its set bits, so no two words hold the same indices.
proof fn told_apart(a: usize, b: usize)
    requires
        a != b,
    ensures
        a.indices() != b.indices(),
{
    bit_facts(a, b, 0, 0);
    let i = some_bit(a ^ b);
    sets_of(a, b);
    assert((a ^ b).indices().contains(i));
    assert(a.indices().contains(i) != b.indices().contains(i));
}

impl Mask for usize {
    open spec fn indices(&self) -> Set<nat> {
        Set::new(|i: nat| bit_at(*self, i))
    }

    open spec fn fits(index: nat) -> bool {
        index < usize::BITS
    }

    proof fn indices_fit(&self) {
    }

    fn new() -> (mask: Self) {
        proof {
            zero_is_empty();
        }
        0
    }

    fn add(&mut self, index: usize) -> (changed: bool) {
        if index >= WIDTH {
            return false;
        }
        let previous: usize = *self;
        let bit: usize = 1usize << (index as usize);
        *self = previous | bit;
        proof {
            let next = previous | bit;
            sets_of(previous, bit);
            single_holds(index as nat);
            assert(next.indices() =~= previous.indices().insert(index as nat));
            if previous.indices().contains(index as nat) {
                assert(next.indices() =~= previous.indices());
                if next != previous {
                    told_apart(next, previous);
                }
            } else {
                assert(next.indices().contains(index as nat));
                assert(!previous.indices().contains(index as nat));
            }
        }
        previous != *self
    }

    fn remove(&mut self, index: usize) -> (changed: bool) {
        if index >= WIDTH {
            proof {
                assert(self.indices().remove(index as nat) =~= self.indices());
            }
            return false;
        }
        let previous: usize = *self;
        let bit: usize = 1usize << (index as usize);
        *self = previous & !bit;
        proof {
            let next = previous & !bit;
            sets_of(previous, bit);
            single_holds(index as nat);
            assert(next.indices() =~= previous.indices().remove(index as nat));
            if !previous.indices().contains(index as nat) {
                assert(next.indices() =~= previous.indices());
                if next != previous {
                    told_apart(next, previous);
                }
            } else {
                assert(!next.indices().contains(index as nat));
                assert(previous.indices().contains(index as nat));
            }
        }
        previous != *self
    }

    fn contains(&self, index: usize) -> (held: bool) {
        index < WIDTH && (*self >> (index as usize)) & 1 == 1
    }

    fn is_empty(&self) -> (empty: bool) {
        proof {
            if *self == 0 {
                zero_is_empty();
            } else {
                let i = some_bit(*self);
                assert(self.indices().contains(i));
            }
        }
        *self == 0
    }

    fn union(&self, other: &Self) -> (both: Self) {
        proof {
            sets_of(*self, *other);
        }
        *self | *other
    }

    fn intersection(&self, other: &Self) -> (common: Self) {
        proof {
            sets_of(*self, *other);
        }
        *self & *other
    }

    fn difference(&self, other: &Self) -> (rest: Self) {
        proof {
            sets_of(*self, *other);
        }
        *self & !*other
    }

    fn symmetric_difference(&self, other: &Self) -> (apart: Self) {
        proof {
            sets_of(*self, *other);
        }
        *self ^ *other
    }

    fn clear(&mut self) {
        proof {
            zero_is_empty();
        }
        *self = 0;
    }
}

/// Makes the update that reserves `mask` in `cell`, by `fetch_update` of
/// `AtomicUsize`: the closure is tried on the cell's value until it refuses
/// or its result is stored. As the documentation of `fetch_update` says, the
/// value that the closure last saw comes back, in `Ok` when the closure gave
/// a new value and in `Err` when it refused.
#[verifier::external_body]
fn update(cell: &AtomicUsize, mask: usize) -> (seen: Result<usize, usize>)
    ensures
        seen matches Ok(previous) ==> reserved(previous, mask).is_some(),
        seen matches Err(previous) ==> reserved(previous, mask).is_none(),
{
    cell.fetch_update(Ordering::Acquire, Ordering::Relaxed, |state| reserve(state, mask))
}

impl Word for usize {
    type Cell = AtomicUsize;

    open spec fn bits() -> nat {
        usize::BITS as nat
    }

    proof fn width_is_domain() {
    }

    proof fn same_indices(self, other: Self) {
        if self != other {
            told_apart(self, other);
        }
    }

    fn width() -> (w: usize) {
        WIDTH
    }

    fn full() -> (mask: Self) {
        proof {
            sets_of(0, 0);
        }
        !0usize
    }

    fn widen(self) -> (wide: u64) {
        let wide: u64 = self as u64;
        proof {
            assert forall|j: nat| crate::w64::bit_at(wide, j) <==> bit_at(self, j) by {
                if j < 64 {
                    widen_facts(self, j as u64);
                }
            }
            assert(wide.indices() =~= self.indices());
        }
        wide
    }

    fn cell() -> (cell: Self::Cell) {
        AtomicUsize::new(0)
    }

    fn fetch_reserve(cell: &Self::Cell, mask: Self) -> (seen: Result<Self, Self>) {
        update(cell, mask)
    }

    fn fetch_union(cell: &Self::Cell, mask: Self) -> (previous: Self) {
        cell.fetch_or(mask, Ordering::Acquire)
    }

    fn fetch_difference(cell: &Self::Cell, mask: Self) -> (previous: Self) {
        cell.fetch_and(!mask, Ordering::Release)
    }

    fn load(cell: &Self::Cell) -> (value: Self) {
        cell.load(Ordering::Relaxed)
    }
}

impl Lock for usize {
    type State = AtomicUsize;

    fn fresh() -> (state: Self::State) {
        AtomicUsize::new(0)
    }

    fn lock(&self, state: &Self::State, taken: &mut Self, partial: bool, wait: bool) -> (attempt:
        Attempt) {
        lock_word(*self, state, taken, partial, wait)
    }

    open spec fn wakes(&self) -> Set<nat> {
        folded(self.indices())
    }

    fn unlock(&self, state: &Self::State, wake: bool) -> (release: Release)
        ensures
            release.changed && wake ==> release.wake.indices() == self.wakes(),
            !(release.changed && wake) ==> release.wake == 0,
    {
        proof {
            crate::w32::zero_is_empty();
        }
        unlock_word(*self, state, wake)
    }

    fn is_locked(&self, state: &Self::State, partial: bool) -> (locked: bool) {
        is_locked_word(*self, state, partial)
    }
}

impl LockAll for usize {
    fn all() -> (mask: Self) {
        <usize as Word>::full()
    }
}

} // verus!
