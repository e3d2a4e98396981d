//! The guarded container and its guards.
//!
//! A [`Multex`] owns a value and the lock state for its slots. A guard
//! records which indices its holder owns, and gives them back when it is
//! released. Nothing here sleeps and nothing here reaches into the value on
//! behalf of a guard: a guard made with a key carries the plan of the slots
//! that its holder may touch.

use vstd::prelude::*;
use crate::key::planned;
use crate::key::Fold;
use crate::key::Key;
use crate::lock::Attempt;
use crate::lock::Lock;
use crate::lock::LockAll;
use crate::lock::Release;
use crate::mask::Mask;

verus! {

/// A value made of slots that are counted from zero.
pub trait Slots {
    /// How many slots the value has.
    spec fn count(&self) -> nat;

    /// How many slots the value has.
    fn slots(&self) -> (slots: usize)
        ensures
            slots as nat == self.count(),
    ;
}

impl<T, const N: usize> Slots for [T; N] {
    open spec fn count(&self) -> nat {
        N as nat
    }

    fn slots(&self) -> (slots: usize) {
        N
    }
}

impl<T> Slots for Vec<T> {
    open spec fn count(&self) -> nat {
        self@.len()
    }

    fn slots(&self) -> (slots: usize) {
        self.len()
    }
}

impl Slots for () {
    open spec fn count(&self) -> nat {
        0
    }

    fn slots(&self) -> (slots: usize) {
        0
    }
}

impl<T> Slots for [T] {
    open spec fn count(&self) -> nat {
        self@.len()
    }

    fn slots(&self) -> (slots: usize) {
        self.len()
    }
}

impl<T: Slots + ?Sized> Slots for &T {
    open spec fn count(&self) -> nat {
        (**self).count()
    }

    fn slots(&self) -> (slots: usize) {
        (**self).slots()
    }
}

impl<T: Slots + ?Sized> Slots for &mut T {
    open spec fn count(&self) -> nat {
        (**self).count()
    }

    fn slots(&self) -> (slots: usize) {
        (**self).slots()
    }
}

impl<T: Slots + ?Sized> Slots for Box<T> {
    open spec fn count(&self) -> nat {
        (**self).count()
    }

    fn slots(&self) -> (slots: usize) {
        (**self).slots()
    }
}

impl Slots for u8 {
    open spec fn count(&self) -> nat {
        1
    }

    fn slots(&self) -> (slots: usize) {
        1
    }
}

impl Slots for u16 {
    open spec fn count(&self) -> nat {
        1
    }

    fn slots(&self) -> (slots: usize) {
        1
    }
}

impl Slots for u32 {
    open spec fn count(&self) -> nat {
        1
    }

    fn slots(&self) -> (slots: usize) {
        1
    }
}

impl Slots for u64 {
    open spec fn count(&self) -> nat {
        1
    }

    fn slots(&self) -> (slots: usize) {
        1
    }
}

impl Slots for usize {
    open spec fn count(&self) -> nat {
        1
    }

    fn slots(&self) -> (slots: usize) {
        1
    }
}

impl<A> Slots for (A,) {
    open spec fn count(&self) -> nat {
        1
    }

    fn slots(&self) -> (slots: usize) {
        1
    }
}

impl<A, B> Slots for (A, B) {
    open spec fn count(&self) -> nat {
        2
    }

    fn slots(&self) -> (slots: usize) {
        2
    }
}

impl<A, B, C> Slots for (A, B, C) {
    open spec fn count(&self) -> nat {
        3
    }

    fn slots(&self) -> (slots: usize) {
        3
    }
}

impl<A, B, C, D> Slots for (A, B, C, D) {
    open spec fn count(&self) -> nat {
        4
    }

    fn slots(&self) -> (slots: usize) {
        4
    }
}

impl<A, B, C, D, E> Slots for (A, B, C, D, E) {
    open spec fn count(&self) -> nat {
        5
    }

    fn slots(&self) -> (slots: usize) {
        5
    }
}

impl<A, B, C, D, E, F> Slots for (A, B, C, D, E, F) {
    open spec fn count(&self) -> nat {
        6
    }

    fn slots(&self) -> (slots: usize) {
        6
    }
}

impl<A, B, C, D, E, F, G> Slots for (A, B, C, D, E, F, G) {
    open spec fn count(&self) -> nat {
        7
    }

    fn slots(&self) -> (slots: usize) {
        7
    }
}

impl<A, B, C, D, E, F, G, H> Slots for (A, B, C, D, E, F, G, H) {
    open spec fn count(&self) -> nat {
        8
    }

    fn slots(&self) -> (slots: usize) {
        8
    }
}

/// A value together with the lock state for its slots.
pub struct Multex<T, L: Lock> {
    state: L::State,
    value: T,
}

/// A container locked by a `usize` of indices for each of `N` words.
pub type MultexN<T, const N: usize> = Multex<T, [usize; N]>;

/// A container of up to 8 slots.
pub type Multex8<T> = Multex<T, u8>;

/// A container of up to `8 * N` slots.
pub type Multex8N<T, const N: usize> = Multex<T, [u8; N]>;

/// A container of up to 16 slots.
pub type Multex16<T> = Multex<T, u16>;

/// A container of up to `16 * N` slots.
pub type Multex16N<T, const N: usize> = Multex<T, [u16; N]>;

/// A container of up to 32 slots.
pub type Multex32<T> = Multex<T, u32>;

/// A container of up to `32 * N` slots.
pub type Multex32N<T, const N: usize> = Multex<T, [u32; N]>;

/// A container of up to 64 slots.
pub type Multex64<T> = Multex<T, u64>;

/// A container of up to `64 * N` slots.
pub type Multex64N<T, const N: usize> = Multex<T, [u64; N]>;

/// The record of a reservation: the indices that its holder owns in the
/// state of a [`Multex`], and what the holder was given for them.
///
/// The indices stay reserved until [`Guard::release`] gives them back.
pub struct Guard<'a, T, L: Lock> {
    value: T,
    state: &'a L::State,
    mask: L,
}

/// Ends the life of `value`.
fn discard<T>(value: T) {
}

/// Whether `plan` is the plan of `indices` for a guard that owns `owned` over a
/// value of `slots` slots.
pub open spec fn is_plan(
    plan: Seq<Option<usize>>,
    indices: Seq<usize>,
    owned: Set<nat>,
    slots: nat,
) -> bool {
    &&& plan.len() == indices.len()
    &&& forall|k: int| 0 <= k < plan.len() ==> #[trigger] plan[k] == planned(indices, owned, slots, k)
}

impl<'a, T, L: Lock> Guard<'a, T, L> {
    /// What the holder was given.
    pub closed spec fn value(&self) -> T {
        self.value
    }

    /// The indices that the holder owns.
    pub closed spec fn owned(&self) -> L {
        self.mask
    }

    /// Replaces what the holder was given by what `map` makes of it. The
    /// reservation is the same.
    pub fn map<U, F: FnOnce(T) -> U>(guard: Self, map: F) -> (mapped: Guard<'a, U, L>)
        requires
            map.requires((guard.value(),)),
        ensures
            map.ensures((guard.value(),), mapped.value()),
            mapped.owned() == guard.owned(),
    {
        Guard { value: map(guard.value), state: guard.state, mask: guard.mask }
    }

    /// The indices that the holder owns.
    pub fn mask(&self) -> (mask: &L)
        ensures
            *mask == self.owned(),
    {
        &self.mask
    }

    /// What the holder was given.
    pub fn as_ref(&self) -> (value: &T)
        ensures
            *value == self.value(),
    {
        &self.value
    }

    /// What the holder was given, to change it.
    pub fn as_mut(&mut self) -> (value: &mut T)
        ensures
            *value == old(self).value(),
            final(self).value() == *final(value),
            final(self).owned() == old(self).owned(),
    {
        &mut self.value
    }

    /// Gives the guard's indices back and says whom to wake. What the
    /// holder was given is gone before anything is given back. A guard that
    /// owns nothing changes nothing.
    pub fn release(self) -> (release: Release)
        ensures
            self.owned().indices() == Set::<nat>::empty() ==> !release.changed,
            release.wake != 0 ==> release.changed,
            release.wake.indices().subset_of(self.owned().wakes()),
    {
        let Guard { value, state, mask } = self;
        discard(value);
        mask.unlock(state, true)
    }
}

impl<T, L: Lock> Multex<T, L> {
    /// The guarded value.
    pub closed spec fn value(&self) -> T {
        self.value
    }

    /// Guards `values`, with no index held.
    pub fn new(values: T) -> (multex: Self)
        ensures
            multex.value() == values,
    {
        Multex { state: L::fresh(), value: values }
    }

    /// Gives the value back.
    pub fn into_inner(self) -> (value: T)
        ensures
            value == self.value(),
    {
        self.value
    }

    /// The value, for a caller that has the container to itself.
    pub fn get_mut(&mut self) -> (value: &mut T)
        ensures
            *value == old(self).value(),
            final(self).value() == *final(value),
    {
        &mut self.value
    }

    /// The value, shared.
    pub fn get(&self) -> (value: &T)
        ensures
            *value == self.value(),
    {
        &self.value
    }

    /// The lock state of the container.
    pub closed spec fn spec_state(&self) -> L::State {
        self.state
    }

    /// The lock state, which is what waiters sleep on.
    pub fn state(&self) -> (state: &L::State)
        ensures
            *state == self.spec_state(),
    {
        &self.state
    }

    /// One step of reserving `mask`: the guard for what was taken, or why
    /// nothing was. With `partial` the indices that nobody holds are taken
    /// and there is always a guard; so there is for an empty mask. Else the
    /// mask is taken whole or not at all; when it is not, the caller that
    /// waits is told what to wait for, and the other that the mask is
    /// contended.
    pub fn acquire(&self, mask: &L, partial: bool, wait: bool) -> (outcome: Result<
        Guard<'_, (), L>,
        Attempt,
    >)
        ensures
            match outcome {
                Ok(guard) => {
                    &&& guard.owned().indices().subset_of(mask.indices())
                    &&& !partial ==> guard.owned().indices() == mask.indices()
                },
                Err(attempt) => {
                    &&& !partial
                    &&& mask.indices() != Set::<nat>::empty()
                    &&& wait ==> attempt is Park || attempt is Retry
                    &&& !wait ==> attempt is Contended
                    &&& attempt matches Attempt::Park { expected, bits, wake } ==> bits != 0
                },
            },
    {
        let mut taken = L::new();
        match mask.lock(&self.state, &mut taken, partial, wait) {
            Attempt::Taken => Ok(Guard { value: (), state: &self.state, mask: taken }),
            attempt => Err(attempt),
        }
    }

    /// Gives the indices of `mask` back, whoever holds them. This is for a
    /// holder whose guard was lost without a release.
    pub fn unlock_with(&self, mask: &L) -> (release: Release)
        ensures
            mask.indices() == Set::<nat>::empty() ==> !release.changed,
            release.wake != 0 ==> release.changed,
            release.wake.indices().subset_of(mask.wakes()),
    {
        mask.unlock(&self.state, true)
    }
}

impl<T, L: LockAll> Multex<T, L> {
    /// One step of taking every index: the guard if nobody held any, else
    /// what to wait for before the next step.
    pub fn lock(&self) -> (outcome: Result<Guard<'_, &T, L>, Attempt>)
        ensures
            match outcome {
                Ok(guard) => {
                    &&& *guard.value() == self.value()
                    &&& forall|i: nat| L::fits(i) <==> guard.owned().indices().contains(i)
                },
                Err(attempt) => {
                    &&& (attempt is Park || attempt is Retry)
                    &&& attempt matches Attempt::Park { expected, bits, wake } ==> bits != 0
                    &&& exists|i: nat| L::fits(i)
                },
            },
    {
        let all = L::all();
        let mut taken = L::new();
        proof {
            all.indices_fit();
            if !exists|i: nat| L::fits(i) {
                assert forall|i: nat| !all.indices().contains(i) by {
                    if all.indices().contains(i) {
                        assert(L::fits(i));
                    }
                }
                assert(all.indices() =~= Set::<nat>::empty());
            }
        }
        match all.lock(&self.state, &mut taken, false, true) {
            Attempt::Taken => Ok(Guard { value: &self.value, state: &self.state, mask: taken }),
            attempt => Err(attempt),
        }
    }

    /// Takes every index if nobody holds any. Where the mask has no index
    /// at all, there is nothing to hold and the guard is always given.
    pub fn try_lock(&self) -> (outcome: Option<Guard<'_, &T, L>>)
        ensures
            match outcome {
                Some(guard) => {
                    &&& *guard.value() == self.value()
                    &&& forall|i: nat| L::fits(i) <==> guard.owned().indices().contains(i)
                },
                None => exists|i: nat| L::fits(i),
            },
    {
        let all = L::all();
        let mut taken = L::new();
        proof {
            all.indices_fit();
            if !exists|i: nat| L::fits(i) {
                assert forall|i: nat| !all.indices().contains(i) by {
                    if all.indices().contains(i) {
                        assert(L::fits(i));
                    }
                }
                assert(all.indices() =~= Set::<nat>::empty());
            }
        }
        match all.lock(&self.state, &mut taken, false, false) {
            Attempt::Taken => Some(Guard { value: &self.value, state: &self.state, mask: taken }),
            _ => None,
        }
    }

    /// Gives every index back, whoever holds it. Where the mask has no
    /// index at all, nothing changes.
    pub fn unlock(&self) -> (release: Release)
        ensures
            release.wake != 0 ==> release.changed,
            release.changed ==> exists|i: nat| L::fits(i),
    {
        let all = L::all();
        proof {
            all.indices_fit();
            if !exists|i: nat| L::fits(i) {
                assert forall|i: nat| !all.indices().contains(i) by {
                    if all.indices().contains(i) {
                        assert(L::fits(i));
                    }
                }
                assert(all.indices() =~= Set::<nat>::empty());
            }
        }
        all.unlock(&self.state, true)
    }

    /// Whether the value counts as locked at some moment during the call:
    /// with `partial` if any index is held, without it if all are. Where
    /// the mask has no index at all, the value never counts as locked.
    pub fn is_locked(&self, partial: bool) -> (locked: bool)
        ensures
            locked ==> exists|i: nat| L::fits(i),
    {
        let all = L::all();
        proof {
            all.indices_fit();
            if !exists|i: nat| L::fits(i) {
                assert forall|i: nat| !all.indices().contains(i) by {
                    if all.indices().contains(i) {
                        assert(L::fits(i));
                    }
                }
                assert(all.indices() =~= Set::<nat>::empty());
            }
        }
        all.is_locked(&self.state, partial)
    }
}

impl<T: Slots, L: Lock + Copy> Multex<T, L> {
    /// One step of taking the key's indices: the guard, or what to wait for
    /// before the next step. With `partial` the indices that nobody holds
    /// are taken and the step always gives a guard; so it does for a key
    /// without indices.
    pub fn lock_with<'a, G: Fold>(&'a self, key: &Key<L, G>, partial: bool) -> (outcome: Result<
        Guard<'a, Vec<Option<usize>>, L>,
        Attempt,
    >)
        ensures
            match outcome {
                Ok(guard) => {
                    &&& guard.owned().indices().subset_of(key.spec_mask().indices())
                    &&& !partial ==> guard.owned().indices() == key.spec_mask().indices()
                    &&& is_plan(
                        guard.value()@,
                        key.spec_indices().flat(),
                        guard.owned().indices(),
                        self.value().count(),
                    )
                },
                Err(attempt) => {
                    &&& !partial
                    &&& key.spec_mask().indices() != Set::<nat>::empty()
                    &&& (attempt is Park || attempt is Retry)
                    &&& attempt matches Attempt::Park { expected, bits, wake } ==> bits != 0
                },
            },
    {
        match self.acquire(key.mask(), partial, true) {
            Ok(guard) => {
                let plan = key.plan(guard.mask, self.value.slots());
                Ok(Guard { value: plan, state: guard.state, mask: guard.mask })
            },
            Err(attempt) => Err(attempt),
        }
    }

    /// Takes the key's indices if nobody holds any of them; with `partial`,
    /// those of them that nobody holds.
    pub fn try_lock_with<'a, G: Fold>(&'a self, key: &Key<L, G>, partial: bool) -> (outcome:
        Option<Guard<'a, Vec<Option<usize>>, L>>)
        ensures
            match outcome {
                Some(guard) => {
                    &&& guard.owned().indices().subset_of(key.spec_mask().indices())
                    &&& !partial ==> guard.owned().indices() == key.spec_mask().indices()
                    &&& is_plan(
                        guard.value()@,
                        key.spec_indices().flat(),
                        guard.owned().indices(),
                        self.value().count(),
                    )
                },
                None => !partial && key.spec_mask().indices() != Set::<nat>::empty(),
            },
    {
        match self.acquire(key.mask(), partial, false) {
            Ok(guard) => {
                let plan = key.plan(guard.mask, self.value.slots());
                Some(Guard { value: plan, state: guard.state, mask: guard.mask })
            },
            Err(_) => None,
        }
    }

    /// Whether the key's indices count as locked at some moment during the
    /// call. A key without indices never does.
    pub fn is_locked_with<G: Fold>(&self, key: &Key<L, G>, partial: bool) -> (locked: bool)
        ensures
            key.spec_mask().indices() == Set::<nat>::empty() ==> !locked,
    {
        key.mask().is_locked(&self.state, partial)
    }

    /// The plan of the key's slots for a caller that has the container to
    /// itself, and so owns every index of the key.
    pub fn get_mut_with<G: Fold>(&mut self, key: &Key<L, G>) -> (plan: Vec<Option<usize>>)
        ensures
            final(self).value() == old(self).value(),
            is_plan(
                plan@,
                key.spec_indices().flat(),
                key.spec_mask().indices(),
                old(self).value().count(),
            ),
    {
        key.plan(*key.mask(), self.value.slots())
    }
}

} // verus!
