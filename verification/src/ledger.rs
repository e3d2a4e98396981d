//! The bookkeeping that the protocol keeps, as a model: which indices the
//! state holds, and which indices each live guard owns. Every atomic update
//! of the protocol is one step of this model, and the laws below hold of
//! every run of such steps.

use vstd::prelude::*;
use crate::lock::locked_in;
use crate::lock::reserved;
use crate::mask::Mask;

verus! {

/// The indices that the state holds, and what each live guard owns.
pub struct Ledger {
    pub held: Set<nat>,
    pub guards: Seq<Set<nat>>,
}

impl Ledger {
    /// The ledger of a new container: nothing held, no guard.
    pub open spec fn fresh() -> Ledger {
        Ledger { held: Set::empty(), guards: Seq::empty() }
    }

    /// No index is owned by two guards, and the state holds exactly what
    /// the guards own.
    pub open spec fn sound(self) -> bool {
        &&& forall|a: int, b: int|
            0 <= a < b < self.guards.len() ==> (#[trigger] self.guards[a]).disjoint(
                #[trigger] self.guards[b],
            )
        &&& forall|i: nat|
            self.held.contains(i) <==> exists|g: int|
                0 <= g < self.guards.len() && (#[trigger] self.guards[g]).contains(i)
    }

    /// The all-or-nothing step: a guard for `mask`, if the state holds none
    /// of it.
    pub open spec fn acquire(self, mask: Set<nat>) -> Option<Ledger> {
        if self.held.disjoint(mask) {
            Some(Ledger { held: self.held.union(mask), guards: self.guards.push(mask) })
        } else {
            None
        }
    }

    /// The partial step: a guard for what the state does not hold of `mask`.
    pub open spec fn acquire_partial(self, mask: Set<nat>) -> Ledger {
        Ledger {
            held: self.held.union(mask),
            guards: self.guards.push(mask.difference(self.held)),
        }
    }

    /// The step that ends guard `g`: what it owns is given back.
    pub open spec fn release(self, g: int) -> Ledger {
        Ledger { held: self.held.difference(self.guards[g]), guards: self.guards.remove(g) }
    }
}

/// The update that reserves a mask in a state word is the all-or-nothing
/// step of the ledger.
pub proof fn reserve_is_acquire<M: Mask>(ledger: Ledger, state: M, mask: M)
    requires
        ledger.held == state.indices(),
    ensures
        match ledger.acquire(mask.indices()) {
            Some(next) => reserved(state, mask) == Some(next.held),
            None => reserved(state, mask).is_none(),
        },
{
}

/// Any two live guards own disjoint indices.
pub proof fn guards_are_disjoint(ledger: Ledger, a: int, b: int)
    requires
        ledger.sound(),
        0 <= a < ledger.guards.len(),
        0 <= b < ledger.guards.len(),
        a != b,
    ensures
        ledger.guards[a].disjoint(ledger.guards[b]),
{
    if a < b {
        assert(ledger.guards[a].disjoint(ledger.guards[b]));
    } else {
        assert(ledger.guards[b].disjoint(ledger.guards[a]));
    }
}

/// A new container's ledger is sound.
pub proof fn fresh_is_sound()
    ensures
        Ledger::fresh().sound(),
{
}

/// An all-or-nothing step goes through exactly when every index of the
/// mask is free at that moment, and it keeps the ledger sound.
pub proof fn acquire_keeps_sound(ledger: Ledger, mask: Set<nat>)
    requires
        ledger.sound(),
    ensures
        ledger.acquire(mask).is_some() <==> forall|i: nat|
            mask.contains(i) ==> !ledger.held.contains(i),
        ledger.acquire(mask) matches Some(next) ==> next.sound() && next.guards.last() == mask,
{
    if ledger.held.disjoint(mask) {
        let next = ledger.acquire(mask).unwrap();
        pushed_is_sound(ledger, next, mask);
    }
}

/// A partial step keeps the ledger sound; its guard owns what was free of
/// the mask, which may be nothing.
pub proof fn acquire_partial_keeps_sound(ledger: Ledger, mask: Set<nat>)
    requires
        ledger.sound(),
    ensures
        ledger.acquire_partial(mask).sound(),
        ledger.acquire_partial(mask).guards.last() == mask.difference(ledger.held),
{
    let next = ledger.acquire_partial(mask);
    assert(next.held =~= ledger.held.union(mask.difference(ledger.held)));
    pushed_is_sound(ledger, next, mask.difference(ledger.held));
}

proof fn pushed_is_sound(ledger: Ledger, next: Ledger, own: Set<nat>)
    requires
        ledger.sound(),
        ledger.held.disjoint(own),
        next.held == ledger.held.union(own),
        next.guards == ledger.guards.push(own),
    ensures
        next.sound(),
{
    let n = ledger.guards.len() as int;
    assert forall|a: int, b: int| 0 <= a < b < next.guards.len() implies (
    #[trigger] next.guards[a]).disjoint(#[trigger] next.guards[b]) by {
        if b < n {
            assert(ledger.guards[a].disjoint(ledger.guards[b]));
        } else {
            assert forall|i: nat| !(next.guards[a].contains(i) && own.contains(i)) by {
                if ledger.guards[a].contains(i) {
                    assert(ledger.held.contains(i));
                }
            }
        }
    }
    assert forall|i: nat|
        next.held.contains(i) <==> exists|g: int|
            0 <= g < next.guards.len() && (#[trigger] next.guards[g]).contains(i) by {
        if ledger.held.contains(i) {
            let g = choose|g: int| 0 <= g < n && (#[trigger] ledger.guards[g]).contains(i);
            assert(next.guards[g].contains(i));
        }
        if own.contains(i) {
            assert(next.guards[n].contains(i));
        }
        if exists|g: int| 0 <= g < next.guards.len() && (#[trigger] next.guards[g]).contains(i) {
            let g = choose|g: int| 0 <= g < next.guards.len() && (#[trigger] next.guards[g]).contains(i);
            if g < n {
                assert(ledger.guards[g].contains(i));
            }
        }
    }
}

/// The end of a guard keeps the ledger sound.
pub proof fn release_keeps_sound(ledger: Ledger, g: int)
    requires
        ledger.sound(),
        0 <= g < ledger.guards.len(),
    ensures
        ledger.release(g).sound(),
{
    let next = ledger.release(g);
    assert forall|a: int, b: int| 0 <= a < b < next.guards.len() implies (
    #[trigger] next.guards[a]).disjoint(#[trigger] next.guards[b]) by {
        let a0 = if a < g { a } else { a + 1 };
        let b0 = if b < g { b } else { b + 1 };
        assert(ledger.guards[a0].disjoint(ledger.guards[b0]));
    }
    assert forall|i: nat|
        next.held.contains(i) <==> exists|h: int|
            0 <= h < next.guards.len() && (#[trigger] next.guards[h]).contains(i) by {
        if next.held.contains(i) {
            let h = choose|h: int| 0 <= h < ledger.guards.len() && (#[trigger] ledger.guards[h]).contains(i);
            let h1 = if h < g { h } else { h - 1 };
            assert(next.guards[h1].contains(i));
        }
        if exists|h: int| 0 <= h < next.guards.len() && (#[trigger] next.guards[h]).contains(i) {
            let h = choose|h: int| 0 <= h < next.guards.len() && (#[trigger] next.guards[h]).contains(i);
            let h0 = if h < g { h } else { h + 1 };
            assert(ledger.guards[h0].contains(i));
            guards_are_disjoint(ledger, h0, g);
        }
    }
}

/// Taking a mask and giving it back leaves the state as it was.
pub proof fn round_trip(ledger: Ledger, mask: Set<nat>)
    requires
        ledger.sound(),
        ledger.acquire(mask).is_some(),
    ensures
        ledger.acquire(mask).unwrap().release(ledger.guards.len() as int) == ledger,
{
    let next = ledger.acquire(mask).unwrap();
    let back = next.release(ledger.guards.len() as int);
    assert(back.held =~= ledger.held);
    assert(back.guards =~= ledger.guards);
}

/// When the last guard has ended, the state holds nothing, and no mask
/// counts as locked, in part or in whole.
pub proof fn nothing_stays_locked(ledger: Ledger, mask: Set<nat>, partial: bool)
    requires
        ledger.sound(),
        ledger.guards.len() == 0,
    ensures
        ledger.held == Set::<nat>::empty(),
        !locked_in(mask, ledger.held, partial),
{
    assert(ledger.held =~= Set::<nat>::empty());
    if mask != Set::<nat>::empty() && !partial {
        assert(!(mask =~= Set::<nat>::empty()));
        let i = choose|i: nat| mask.contains(i);
        assert(!ledger.held.contains(i));
    }
}

/// A mask without indices is always granted, leaves the state as it is, and
/// its guard gives nothing back.
pub proof fn empty_mask_is_free(ledger: Ledger)
    ensures
        ledger.acquire(Set::empty()) matches Some(next) && next.held == ledger.held
            && next.release(ledger.guards.len() as int).held == ledger.held,
{
    let next = ledger.acquire(Set::empty()).unwrap();
    assert(next.held =~= ledger.held);
    assert(next.release(ledger.guards.len() as int).held =~= ledger.held);
}

} // verus!
