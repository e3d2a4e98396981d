//! Machine words as masks, and the atomic cell in which a state word lives.

use vstd::prelude::*;
use crate::lock::reserved;
use crate::mask::Mask;

verus! {

/// An unsigned machine word whose set bits are the indices that it holds.
pub trait Word: Mask + Copy {
    /// The atomic cell that holds a state word of this width.
    type Cell;

    /// The number of bits in the word.
    spec fn bits() -> nat;

    /// The word has room for exactly the indices below its width, and no
    /// word is wider than 64 bits.
    proof fn width_is_domain()
        ensures
            0 < Self::bits() <= 64,
            forall|i: nat| Self::fits(i) <==> i < Self::bits(),
    ;

    /// Words that hold the same indices are equal.
    proof fn same_indices(self, other: Self)
        requires
            self.indices() == other.indices(),
        ensures
            self == other,
    ;

    /// The number of bits in the word.
    fn width() -> (w: usize)
        ensures
            w as nat == Self::bits(),
    ;

    /// The word that holds every index of its domain.
    fn full() -> (mask: Self)
        ensures
            mask.indices() == Set::new(|i: nat| i < Self::bits()),
    ;

    /// The same indices in a word of 64 bits.
    fn widen(self) -> (wide: u64)
        ensures
            wide.indices() == self.indices(),
    ;

    /// A cell in which no index is held.
    fn cell() -> (cell: Self::Cell);

    /// Reserves `mask` in `cell` if none of its indices is held there. The
    /// cell's value from before comes back: in `Ok` if the mask was put in,
    /// and then it held none of the mask's indices; in `Err` if the cell was
    /// left alone, and then it held one of them.
    fn fetch_reserve(cell: &Self::Cell, mask: Self) -> (seen: Result<Self, Self>)
        ensures
            seen matches Ok(previous) ==> reserved(previous, mask).is_some(),
            seen matches Err(previous) ==> reserved(previous, mask).is_none(),
    ;

    /// Puts `mask` into `cell` whatever it holds, and returns the cell's
    /// value from before.
    fn fetch_union(cell: &Self::Cell, mask: Self) -> (previous: Self);

    /// Takes `mask` out of `cell`, and returns the cell's value from before.
    fn fetch_difference(cell: &Self::Cell, mask: Self) -> (previous: Self);

    /// The cell's value at some moment during the call.
    fn load(cell: &Self::Cell) -> (value: Self);
}

/// The set that `fold` makes of a set of indices below 64: each index, taken modulo 32.
pub open spec fn folded(indices: Set<nat>) -> Set<nat> {
    Set::new(|j: nat| j < 32 && (indices.contains(j) || indices.contains(j + 32)))
}

proof fn fold_facts(a: u64, j: u32)
    by (bit_vector)
    requires
        j < 32,
    ensures
        ((((a | (a >> 32)) & 0xffff_ffff) as u32) >> j) & 1 == 1 <==> ((a >> (j as u64)) & 1 == 1
            || (a >> ((j + 32) as u64)) & 1 == 1),
{
}

/// Folds a mask into the 32 bits by which waiters are woken: bit `j` of the
/// result is set when the mask holds `j` or `j + 32`.
pub fn fold<W: Word>(mask: W) -> (bits: u32)
    ensures
        bits.indices() == folded(mask.indices()),
{
    let wide: u64 = mask.widen();
    let bits: u32 = ((wide | (wide >> 32)) & 0xffff_ffff) as u32;
    proof {
        assert forall|j: nat| crate::w32::bit_at(bits, j) <==> j < 32 && (crate::w64::bit_at(
            wide,
            j,
        ) || crate::w64::bit_at(wide, j + 32)) by {
            if j < 32 {
                fold_facts(wide, j as u32);
            }
        }
        assert(bits.indices() =~= folded(wide.indices()));
    }
    bits
}

} // verus!
