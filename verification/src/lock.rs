//! The acquire and release protocol on state words.
//!
//! A state word holds the indices that some guard owns. Every change to it
//! is one atomic update. The functions here make those updates and decide
//! what follows from the value that an update saw. Nothing here sleeps: a
//! caller that has to wait is told what to wait for, and tries again after.

use vstd::prelude::*;
use crate::mask::Mask;
use crate::word::fold;
use crate::word::folded;
use crate::word::Word;

verus! {

/// How an attempt to reserve a mask ended.
#[derive(Clone, Copy, Debug, PartialEq, Eq, Structural)]
pub enum Attempt {
    /// The reservation stands; what was reserved is in `taken`.
    Taken,
    /// An index was held by someone else and the caller did not ask to wait.
    /// Nothing is reserved. `wake` holds the bits to wake waiters by, for what
    /// was given back on the way; it is 0 when there is nobody to wake.
    Contended { wake: u32 },
    /// An index was held by someone else. Nothing is reserved. The caller
    /// should first wake by `wake` if that is not 0, then sleep on the watched
    /// word until it is woken by one of `bits` or the word no longer holds
    /// `expected`, and then try again.
    Park { expected: u64, bits: u32, wake: u32 },
    /// The state moved on while the attempt was made. Nothing is reserved.
    /// The caller should wake by `wake` if that is not 0 and try again at once.
    Retry { wake: u32 },
}

/// What a release did.
#[derive(Clone, Copy, Debug, PartialEq, Eq, Structural)]
pub struct Release {
    /// Whether any index that was given back had been held.
    pub changed: bool,
    /// The bits to wake waiters by; 0 when there is nobody to wake.
    pub wake: u32,
}

/// What a state word holds after `mask` is reserved in it: nothing new if
/// one of the mask's indices is held already, else both together.
pub open spec fn reserved<M: Mask>(state: M, mask: M) -> Option<Set<nat>> {
    if state.indices().disjoint(mask.indices()) {
        Some(state.indices().union(mask.indices()))
    } else {
        None
    }
}

/// The update that reserves `mask` in a state word: it goes through exactly
/// when none of the mask's indices is held.
pub fn reserve<W: Word>(state: W, mask: W) -> (next: Option<W>)
    ensures
        match next {
            Some(word) => reserved(state, mask) == Some(word.indices()),
            None => reserved(state, mask).is_none(),
        },
{
    let common = state.intersection(&mask);
    if common.is_empty() {
        proof {
            assert(state.indices().disjoint(mask.indices())) by {
                assert forall|i: nat| !(state.indices().contains(i) && mask.indices().contains(
                    i,
                )) by {
                    assert(!common.indices().contains(i));
                }
            }
        }
        Some(state.union(&mask))
    } else {
        proof {
            if state.indices().disjoint(mask.indices()) {
                assert(common.indices() =~= Set::<nat>::empty());
            }
        }
        None
    }
}

/// What a partial acquisition owns once its update saw `previous` in the
/// state word: the indices of the mask that nobody held.
pub fn owned<W: Word>(mask: W, previous: W) -> (taken: W)
    ensures
        taken.indices() == mask.indices().difference(previous.indices()),
{
    mask.difference(&previous)
}

/// What follows when the update that reserves `mask` saw `seen`: the
/// reservation stands if the update went through. If it did not, a caller
/// that does not wait gives up, and one that waits is told to sleep on the
/// state word, which held `expected`, until one of the mask's bits is woken.
pub fn settle<W: Word>(mask: W, seen: Result<W, W>, wait: bool) -> (attempt: Attempt)
    ensures
        match seen {
            Ok(_) => attempt == Attempt::Taken,
            Err(observed) => if wait {
                &&& attempt matches Attempt::Park { expected, bits, wake }
                &&& expected.indices() == observed.indices()
                &&& bits.indices() == folded(mask.indices())
                &&& wake == 0
            } else {
                attempt == (Attempt::Contended { wake: 0 })
            },
        },
{
    match seen {
        Ok(_) => Attempt::Taken,
        Err(observed) => if wait {
            Attempt::Park { expected: observed.widen(), bits: fold(mask), wake: 0 }
        } else {
            Attempt::Contended { wake: 0 }
        },
    }
}

/// What a release did, given that the update which took `mask` out of the
/// state word saw `previous` there: something changed if an index of the
/// mask was held, and then waiters on the mask's bits are to be woken if the
/// caller asked for that.
pub fn released<W: Word>(mask: W, previous: W, wake: bool) -> (release: Release)
    ensures
        release.changed <==> !previous.indices().disjoint(mask.indices()),
        release.changed && wake ==> release.wake.indices() == folded(mask.indices()),
        !(release.changed && wake) ==> release.wake == 0,
{
    let common = previous.intersection(&mask);
    if common.is_empty() {
        proof {
            assert forall|i: nat| !(previous.indices().contains(i) && mask.indices().contains(
                i,
            )) by {
                assert(!common.indices().contains(i));
            }
        }
        Release { changed: false, wake: 0 }
    } else {
        proof {
            if previous.indices().disjoint(mask.indices()) {
                assert(common.indices() =~= Set::<nat>::empty());
            }
        }
        if wake {
            Release { changed: true, wake: fold(mask) }
        } else {
            Release { changed: true, wake: 0 }
        }
    }
}

/// Whether `mask` counts as locked where `held` is held: never when the
/// mask is empty; else, when `partial`, if any of its indices is held, and
/// otherwise if all of them are.
pub open spec fn locked_in(mask: Set<nat>, held: Set<nat>, partial: bool) -> bool {
    mask != Set::<nat>::empty() && if partial {
        !held.disjoint(mask)
    } else {
        mask.subset_of(held)
    }
}

/// Whether `mask` counts as locked in a state word that holds `value`.
pub fn held<W: Word>(mask: W, value: W, partial: bool) -> (locked: bool)
    ensures
        locked <==> locked_in(mask.indices(), value.indices(), partial),
{
    if mask.is_empty() {
        false
    } else if partial {
        let common = value.intersection(&mask);
        let none = common.is_empty();
        proof {
            if none {
                assert forall|i: nat| !(value.indices().contains(i) && mask.indices().contains(
                    i,
                )) by {
                    assert(!common.indices().contains(i));
                }
            } else if value.indices().disjoint(mask.indices()) {
                assert(common.indices() =~= Set::<nat>::empty());
            }
        }
        !none
    } else {
        let missing = mask.difference(&value);
        let none = missing.is_empty();
        proof {
            if none {
                assert forall|i: nat| mask.indices().contains(i) implies value.indices().contains(
                    i,
                ) by {
                    assert(!missing.indices().contains(i));
                }
            } else if mask.indices().subset_of(value.indices()) {
                assert(missing.indices() =~= Set::<nat>::empty());
            }
        }
        none
    }
}

/// A mask that holds an index folds to bits of which one is set, so that
/// whoever sleeps on the mask can be woken.
pub proof fn fold_is_not_empty<W: Word>(mask: W)
    requires
        mask.indices() != Set::<nat>::empty(),
    ensures
        folded(mask.indices()) != Set::<nat>::empty(),
        forall|bits: u32| bits.indices() == folded(mask.indices()) ==> bits != 0,
{
    assert(!(mask.indices() =~= Set::<nat>::empty()));
    let i = choose|i: nat| mask.indices().contains(i);
    mask.indices_fit();
    W::width_is_domain();
    assert(W::fits(i));
    assert(i < 64);
    let j = if i < 32 {
        i
    } else {
        (i - 32) as nat
    };
    assert(mask.indices().contains(j) || mask.indices().contains(j + 32));
    assert(folded(mask.indices()).contains(j));
    crate::w32::zero_is_empty();
}

/// Reserves `mask` in the state word in `cell`.
///
/// An empty mask is reserved without a look at the cell. With `partial` the
/// indices that nobody holds are taken and the attempt always stands. Without
/// it the mask is taken whole or not at all; when it is not, `wait` decides
/// between giving up and being told what to sleep on.
pub fn lock_word<W: Word>(mask: W, cell: &W::Cell, taken: &mut W, partial: bool, wait: bool) -> (attempt:
    Attempt)
    ensures
        mask.indices() == Set::<nat>::empty() || partial ==> attempt is Taken,
        attempt is Taken ==> final(taken).indices().subset_of(mask.indices()),
        attempt is Taken && !partial ==> *final(taken) == mask,
        !(attempt is Taken) ==> final(taken).indices() == Set::<nat>::empty(),
        attempt matches Attempt::Contended { wake } ==> !wait && wake == 0,
        attempt matches Attempt::Park { expected, bits, wake } ==> {
            &&& wait
            &&& !expected.indices().disjoint(mask.indices())
            &&& bits.indices() == folded(mask.indices())
            &&& bits != 0
            &&& wake == 0
        },
        !(attempt is Retry),
{
    if mask.is_empty() {
        let none = W::new();
        proof {
            none.same_indices(mask);
        }
        *taken = none;
        Attempt::Taken
    } else if partial {
        let previous = W::fetch_union(cell, mask);
        *taken = owned(mask, previous);
        Attempt::Taken
    } else {
        let seen = W::fetch_reserve(cell, mask);
        let attempt = settle(mask, seen, wait);
        proof {
            fold_is_not_empty(mask);
        }
        match attempt {
            Attempt::Taken => {
                *taken = mask;
            },
            _ => {
                *taken = W::new();
            },
        }
        attempt
    }
}

/// Gives the indices of `mask` back in the state word in `cell`. An empty
/// mask changes nothing and the cell is not looked at.
pub fn unlock_word<W: Word>(mask: W, cell: &W::Cell, wake: bool) -> (release: Release)
    ensures
        mask.indices() == Set::<nat>::empty() ==> !release.changed,
        release.changed && wake ==> release.wake.indices() == folded(mask.indices()),
        !(release.changed && wake) ==> release.wake == 0,
{
    if mask.is_empty() {
        Release { changed: false, wake: 0 }
    } else {
        let previous = W::fetch_difference(cell, mask);
        released(mask, previous, wake)
    }
}

/// Whether `mask` counts as locked in the state word in `cell`, by the
/// value that the cell held at some moment during the call.
pub fn is_locked_word<W: Word>(mask: W, cell: &W::Cell, partial: bool) -> (locked: bool)
    ensures
        mask.indices() == Set::<nat>::empty() ==> !locked,
{
    if mask.is_empty() {
        false
    } else {
        let value = W::load(cell);
        held(mask, value, partial)
    }
}

/// A mask that can be reserved in, and given back to, a shared state.
pub trait Lock: Mask {
    /// The shared state that records which indices are held.
    type State;

    /// A state in which no index is held.
    fn fresh() -> (state: Self::State);

    /// Reserves the mask in `state` and leaves in `taken` what the caller
    /// now owns. With `partial` the indices that nobody holds are taken;
    /// without it the mask is taken whole or not at all. The call never
    /// sleeps: with `wait`, a caller whose mask is held is told what to do
    /// before it tries again, in place of being told that the mask is
    /// contended.
    fn lock(&self, state: &Self::State, taken: &mut Self, partial: bool, wait: bool) -> (attempt:
        Attempt)
        ensures
            self.indices() == Set::<nat>::empty() || partial ==> attempt is Taken,
            attempt is Taken ==> final(taken).indices().subset_of(self.indices()),
            attempt is Taken && !partial ==> final(taken).indices() == self.indices(),
            !(attempt is Taken) ==> final(taken).indices() == Set::<nat>::empty(),
            wait ==> !(attempt is Contended),
            !wait ==> attempt is Taken || attempt is Contended,
            attempt matches Attempt::Park { expected, bits, wake } ==> bits != 0,
    ;

    /// The bits by which a release of the mask wakes, when it wakes.
    spec fn wakes(&self) -> Set<nat>;

    /// Gives the indices of the mask back to `state`. Somebody is to be woken
    /// only if the caller asked for it and an index that was given back had
    /// been held, and then by no other bits than those of the mask.
    fn unlock(&self, state: &Self::State, wake: bool) -> (release: Release)
        ensures
            self.indices() == Set::<nat>::empty() ==> !release.changed,
            release.wake != 0 ==> release.changed && wake,
            release.wake.indices().subset_of(self.wakes()),
    ;

    /// Whether the mask counts as locked in `state`: with `partial` if any
    /// of its indices is held, without it if all of them are.
    fn is_locked(&self, state: &Self::State, partial: bool) -> (locked: bool)
        ensures
            self.indices() == Set::<nat>::empty() ==> !locked,
    ;
}

/// A mask with a value that holds every index of its domain.
pub trait LockAll: Lock {
    /// The mask of all indices.
    fn all() -> (mask: Self)
        ensures
            forall|i: nat| Self::fits(i) <==> mask.indices().contains(i),
    ;
}

} // verus!
