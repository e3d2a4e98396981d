//! Sets of slot indices, kept as bits.

use vstd::prelude::*;

verus! {

/// A set of slot indices over a finite or growable index domain.
pub trait Mask: Sized {
    /// The indices that the mask holds.
    spec fn indices(&self) -> Set<nat>;

    /// Whether the representation has room for `index`.
    spec fn fits(index: nat) -> bool;

    /// Every index that a mask holds is one that the representation has room for.
    proof fn indices_fit(&self)
        ensures
            forall|i: nat| self.indices().contains(i) ==> Self::fits(i),
    ;

    /// The empty mask.
    fn new() -> (mask: Self)
        ensures
            mask.indices() == Set::<nat>::empty(),
    ;

    /// Puts `index` into the mask. Reports whether the mask changed: it does
    /// not when the index was already there or lies outside the domain.
    fn add(&mut self, index: usize) -> (changed: bool)
        ensures
            changed <==> Self::fits(index as nat) && !old(self).indices().contains(index as nat),
            changed ==> final(self).indices() == old(self).indices().insert(index as nat),
            !changed ==> final(self).indices() == old(self).indices(),
    ;

    /// Takes `index` out of the mask. Reports whether the mask changed.
    fn remove(&mut self, index: usize) -> (changed: bool)
        ensures
            changed <==> old(self).indices().contains(index as nat),
            final(self).indices() == old(self).indices().remove(index as nat),
    ;

    /// Whether the mask holds `index`.
    fn contains(&self, index: usize) -> (held: bool)
        ensures
            held <==> self.indices().contains(index as nat),
    ;

    /// Whether the mask holds no index at all.
    fn is_empty(&self) -> (empty: bool)
        ensures
            empty <==> self.indices() == Set::<nat>::empty(),
    ;

    /// The indices of either mask.
    fn union(&self, other: &Self) -> (both: Self)
        ensures
            both.indices() == self.indices().union(other.indices()),
    ;

    /// The indices that both masks hold.
    fn intersection(&self, other: &Self) -> (common: Self)
        ensures
            common.indices() == self.indices().intersect(other.indices()),
    ;

    /// The indices of `self` that `other` does not hold.
    fn difference(&self, other: &Self) -> (rest: Self)
        ensures
            rest.indices() == self.indices().difference(other.indices()),
    ;

    /// The indices that exactly one of the two masks holds.
    fn symmetric_difference(&self, other: &Self) -> (apart: Self)
        ensures
            apart.indices() == self.indices().difference(other.indices()).union(
                other.indices().difference(self.indices()),
            ),
    ;

    /// Empties the mask.
    fn clear(&mut self)
        ensures
            final(self).indices() == Set::<nat>::empty(),
    ;
}

} // verus!
