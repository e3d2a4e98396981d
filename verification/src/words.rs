//! Masks wider than one word: an array of words, with index `i` in word
//! `i / BITS` at bit `i % BITS`.

use vstd::arithmetic::div_mod::lemma_fundamental_div_mod;
use vstd::arithmetic::div_mod::lemma_fundamental_div_mod_converse;
use vstd::prelude::*;
use crate::mask::Mask;
use crate::word::Word;

verus! {

/// Whether the words hold index `i`: the word `i / BITS` is there and holds
/// `i % BITS`.
pub open spec fn held_in<W: Word>(words: Seq<W>, i: nat) -> bool {
    i / W::bits() < words.len() && words[(i / W::bits()) as int].indices().contains(i % W::bits())
}

/// The indices that a sequence of words holds.
pub open spec fn indices_of<W: Word>(words: Seq<W>) -> Set<nat> {
    Set::new(|i: nat| held_in(words, i))
}

/// The index that bit `bit` of word `word` stands for.
pub open spec fn index_of<W: Word>(word: nat, bit: nat) -> nat {
    word * W::bits() + bit
}

/// An index is found again from its word and its bit, and from nothing else.
pub proof fn index_parts<W: Word>(i: nat)
    ensures
        i == index_of::<W>(i / W::bits(), i % W::bits()),
        0 <= i / W::bits(),
        0 <= i % W::bits() < W::bits(),
        forall|word: nat, bit: nat|
            bit < W::bits() && i == #[trigger] index_of::<W>(word, bit) ==> word == i / W::bits()
                && bit == i % W::bits(),
{
    W::width_is_domain();
    let b = W::bits() as int;
    lemma_fundamental_div_mod(i as int, b);
    assert(0 <= i as int / b) by (nonlinear_arith)
        requires
            0 <= i as int,
            0 < b,
    ;
    assert(b * (i as int / b) == (i as int / b) * b) by (nonlinear_arith);
    assert forall|word: nat, bit: nat|
        bit < W::bits() && i == #[trigger] index_of::<W>(word, bit) implies word == i / W::bits()
        && bit == i % W::bits() by {
        lemma_fundamental_div_mod_converse(i as int, b, word as int, bit as int);
    }
}

/// Words that hold nothing make a mask that holds nothing, and the other way round.
pub proof fn empty_words<W: Word>(words: Seq<W>)
    ensures
        indices_of(words) == Set::<nat>::empty() <==> forall|k: int|
            0 <= k < words.len() ==> (#[trigger] words[k]).indices() == Set::<nat>::empty(),
{
    if forall|k: int| 0 <= k < words.len() ==> (#[trigger] words[k]).indices() == Set::<nat>::empty() {
        assert forall|i: nat| !held_in(words, i) by {
            index_parts::<W>(i);
            if i / W::bits() < words.len() {
                assert(words[(i / W::bits()) as int].indices() == Set::<nat>::empty());
            }
        }
        assert(indices_of(words) =~= Set::<nat>::empty());
    }
    if indices_of(words) == Set::<nat>::empty() {
        assert forall|k: int| 0 <= k < words.len() implies (#[trigger] words[k]).indices()
            == Set::<nat>::empty() by {
            assert forall|bit: nat| !words[k].indices().contains(bit) by {
                if words[k].indices().contains(bit) {
                    words[k].indices_fit();
                    W::width_is_domain();
                    let i = index_of::<W>(k as nat, bit);
                    index_parts::<W>(i);
                    assert(W::fits(bit));
                    assert(i == index_of::<W>(k as nat, bit));
                    assert(i / W::bits() == k && i % W::bits() == bit);
                    assert(held_in(words, i));
                    assert(indices_of(words).contains(i));
                }
            }
            assert(words[k].indices() =~= Set::<nat>::empty());
        }
    }
}

/// Word by word inclusion is inclusion of the masks.
pub proof fn subset_words<W: Word>(inner: Seq<W>, outer: Seq<W>)
    requires
        inner.len() == outer.len(),
        forall|k: int|
            0 <= k < inner.len() ==> (#[trigger] inner[k]).indices().subset_of(outer[k].indices()),
    ensures
        indices_of(inner).subset_of(indices_of(outer)),
{
    assert forall|i: nat| indices_of(inner).contains(i) implies indices_of(outer).contains(i) by {
        index_parts::<W>(i);
        let k = (i / W::bits()) as int;
        assert(inner[k].indices().subset_of(outer[k].indices()));
    }
}

/// What putting a bit into one word, or taking it out, does to the mask.
proof fn word_changed<W: Word>(before: Seq<W>, after: Seq<W>, index: nat)
    requires
        after.len() == before.len(),
        index / W::bits() < before.len(),
        after == before.update((index / W::bits()) as int, after[(index / W::bits()) as int]),
    ensures
        after[(index / W::bits()) as int].indices() == before[(index / W::bits()) as int].indices().insert(
            index % W::bits(),
        ) ==> indices_of(after) == indices_of(before).insert(index),
        after[(index / W::bits()) as int].indices() == before[(index / W::bits()) as int].indices().remove(
            index % W::bits(),
        ) ==> indices_of(after) == indices_of(before).remove(index),
        after[(index / W::bits()) as int].indices() == before[(index / W::bits()) as int].indices()
            ==> indices_of(after) == indices_of(before),
        held_in(before, index) <==> before[(index / W::bits()) as int].indices().contains(
            index % W::bits(),
        ),
{
    let word = (index / W::bits()) as int;
    let bit = index % W::bits();
    index_parts::<W>(index);
    if after[word].indices() == before[word].indices().insert(bit) {
        assert forall|i: nat| held_in(after, i) <==> held_in(before, i) || i == index by {
            index_parts::<W>(i);
            if i / W::bits() == word {
                assert(after[word].indices().contains(i % W::bits()) <==> before[word].indices().contains(
                    i % W::bits(),
                ) || i % W::bits() == bit);
            }
        }
        assert(indices_of(after) =~= indices_of(before).insert(index));
    }
    if after[word].indices() == before[word].indices().remove(bit) {
        assert forall|i: nat| held_in(after, i) <==> held_in(before, i) && i != index by {
            index_parts::<W>(i);
            if i / W::bits() == word {
                assert(after[word].indices().contains(i % W::bits()) <==> before[word].indices().contains(
                    i % W::bits(),
                ) && i % W::bits() != bit);
            }
        }
        assert(indices_of(after) =~= indices_of(before).remove(index));
    }
    if after[word].indices() == before[word].indices() {
        assert forall|i: nat| held_in(after, i) <==> held_in(before, i) by {
            index_parts::<W>(i);
            if i / W::bits() == word {
                assert(after[word].indices().contains(i % W::bits()) <==> before[word].indices().contains(
                    i % W::bits(),
                ));
            }
        }
        assert(indices_of(after) =~= indices_of(before));
    }
}

/// What an operation that goes word by word does to the mask.
proof fn word_by_word<W: Word>(left: Seq<W>, right: Seq<W>, made: Seq<W>)
    requires
        left.len() == right.len() == made.len(),
    ensures
        (forall|k: int|
            0 <= k < made.len() ==> (#[trigger] made[k]).indices() == left[k].indices().union(
                right[k].indices(),
            )) ==> indices_of(made) == indices_of(left).union(indices_of(right)),
        (forall|k: int|
            0 <= k < made.len() ==> (#[trigger] made[k]).indices() == left[k].indices().intersect(
                right[k].indices(),
            )) ==> indices_of(made) == indices_of(left).intersect(indices_of(right)),
        (forall|k: int|
            0 <= k < made.len() ==> (#[trigger] made[k]).indices() == left[k].indices().difference(
                right[k].indices(),
            )) ==> indices_of(made) == indices_of(left).difference(indices_of(right)),
        (forall|k: int|
            0 <= k < made.len() ==> (#[trigger] made[k]).indices() == left[k].indices().difference(
                right[k].indices(),
            ).union(right[k].indices().difference(left[k].indices()))) ==> indices_of(made)
            == indices_of(left).difference(indices_of(right)).union(
            indices_of(right).difference(indices_of(left)),
        ),
{
    if forall|k: int|
        0 <= k < made.len() ==> (#[trigger] made[k]).indices() == left[k].indices().union(
            right[k].indices(),
        ) {
        assert forall|i: nat| held_in(made, i) <==> held_in(left, i) || held_in(right, i) by {
            index_parts::<W>(i);
            if i / W::bits() < made.len() {
                assert(made[(i / W::bits()) as int].indices().contains(i % W::bits()) <==> left[(i
                    / W::bits()) as int].indices().contains(i % W::bits()) || right[(i
                    / W::bits()) as int].indices().contains(i % W::bits()));
            }
        }
        assert(indices_of(made) =~= indices_of(left).union(indices_of(right)));
    }
    if forall|k: int|
        0 <= k < made.len() ==> (#[trigger] made[k]).indices() == left[k].indices().intersect(
            right[k].indices(),
        ) {
        assert forall|i: nat| held_in(made, i) <==> held_in(left, i) && held_in(right, i) by {
            index_parts::<W>(i);
            if i / W::bits() < made.len() {
                assert(made[(i / W::bits()) as int].indices().contains(i % W::bits()) <==> left[(i
                    / W::bits()) as int].indices().contains(i % W::bits()) && right[(i
                    / W::bits()) as int].indices().contains(i % W::bits()));
            }
        }
        assert(indices_of(made) =~= indices_of(left).intersect(indices_of(right)));
    }
    if forall|k: int|
        0 <= k < made.len() ==> (#[trigger] made[k]).indices() == left[k].indices().difference(
            right[k].indices(),
        ) {
        assert forall|i: nat| held_in(made, i) <==> held_in(left, i) && !held_in(right, i) by {
            index_parts::<W>(i);
            if i / W::bits() < made.len() {
                assert(made[(i / W::bits()) as int].indices().contains(i % W::bits()) <==> left[(i
                    / W::bits()) as int].indices().contains(i % W::bits()) && !right[(i
                    / W::bits()) as int].indices().contains(i % W::bits()));
            }
        }
        assert(indices_of(made) =~= indices_of(left).difference(indices_of(right)));
    }
    if forall|k: int|
        0 <= k < made.len() ==> (#[trigger] made[k]).indices() == left[k].indices().difference(
            right[k].indices(),
        ).union(right[k].indices().difference(left[k].indices())) {
        assert forall|i: nat| held_in(made, i) <==> held_in(left, i) != held_in(right, i) by {
            index_parts::<W>(i);
            if i / W::bits() < made.len() {
                assert(made[(i / W::bits()) as int].indices().contains(i % W::bits()) <==> left[(i
                    / W::bits()) as int].indices().contains(i % W::bits()) != right[(i
                    / W::bits()) as int].indices().contains(i % W::bits()));
            }
        }
        assert(indices_of(made) =~= indices_of(left).difference(indices_of(right)).union(
            indices_of(right).difference(indices_of(left)),
        ));
    }
}

impl<W: Word, const N: usize> Mask for [W; N] {
    open spec fn indices(&self) -> Set<nat> {
        indices_of(self@)
    }

    open spec fn fits(index: nat) -> bool {
        index / W::bits() < N
    }

    proof fn indices_fit(&self) {
    }

    fn new() -> (mask: Self) {
        let mask = [W::new();N];
        proof {
            empty_words(mask@);
        }
        mask
    }

    fn add(&mut self, index: usize) -> (changed: bool) {
        proof {
            W::width_is_domain();
            index_parts::<W>(index as nat);
        }
        let width = W::width();
        let word = index / width;
        if word >= N {
            return false;
        }
        let mut bits: W = self[word];
        let changed = bits.add(index % width);
        self[word] = bits;
        proof {
            word_changed(old(self)@, self@, index as nat);
        }
        changed
    }

    fn remove(&mut self, index: usize) -> (changed: bool) {
        proof {
            W::width_is_domain();
            index_parts::<W>(index as nat);
        }
        let width = W::width();
        let word = index / width;
        if word >= N {
            proof {
                assert(self.indices().remove(index as nat) =~= self.indices());
            }
            return false;
        }
        let mut bits: W = self[word];
        let changed = bits.remove(index % width);
        self[word] = bits;
        proof {
            word_changed(old(self)@, self@, index as nat);
        }
        changed
    }

    fn contains(&self, index: usize) -> (held: bool) {
        proof {
            W::width_is_domain();
        }
        let width = W::width();
        let word = index / width;
        word < N && self[word].contains(index % width)
    }

    fn is_empty(&self) -> (empty: bool) {
        let mut k: usize = 0;
        while k < N
            invariant
                k <= N,
                forall|j: int| 0 <= j < k ==> (#[trigger] self@[j]).indices() == Set::<nat>::empty(),
            decreases N - k,
        {
            if !self[k].is_empty() {
                proof {
                    empty_words(self@);
                }
                return false;
            }
            k += 1;
        }
        proof {
            empty_words(self@);
        }
        true
    }

    fn union(&self, other: &Self) -> (both: Self) {
        let mut both = *self;
        let mut k: usize = 0;
        while k < N
            invariant
                k <= N,
                forall|j: int|
                    0 <= j < k ==> (#[trigger] both@[j]).indices() == self@[j].indices().union(other@[j].indices()),
            decreases N - k,
        {
            both[k] = self[k].union(&other[k]);
            k += 1;
        }
        proof {
            word_by_word(self@, other@, both@);
        }
        both
    }

    fn intersection(&self, other: &Self) -> (common: Self) {
        let mut common = *self;
        let mut k: usize = 0;
        while k < N
            invariant
                k <= N,
                forall|j: int|
                    0 <= j < k ==> (#[trigger] common@[j]).indices() == self@[j].indices().intersect(other@[j].indices()),
            decreases N - k,
        {
            common[k] = self[k].intersection(&other[k]);
            k += 1;
        }
        proof {
            word_by_word(self@, other@, common@);
        }
        common
    }

    fn difference(&self, other: &Self) -> (rest: Self) {
        let mut rest = *self;
        let mut k: usize = 0;
        while k < N
            invariant
                k <= N,
                forall|j: int|
                    0 <= j < k ==> (#[trigger] rest@[j]).indices() == self@[j].indices().difference(other@[j].indices()),
            decreases N - k,
        {
            rest[k] = self[k].difference(&other[k]);
            k += 1;
        }
        proof {
            word_by_word(self@, other@, rest@);
        }
        rest
    }

    fn symmetric_difference(&self, other: &Self) -> (apart: Self) {
        let mut apart = *self;
        let mut k: usize = 0;
        while k < N
            invariant
                k <= N,
                forall|j: int|
                    0 <= j < k ==> (#[trigger] apart@[j]).indices() == self@[j].indices().difference(
                        other@[j].indices(),
                    ).union(other@[j].indices().difference(self@[j].indices())),
            decreases N - k,
        {
            apart[k] = self[k].symmetric_difference(&other[k]);
            k += 1;
        }
        proof {
            word_by_word(self@, other@, apart@);
        }
        apart
    }

    fn clear(&mut self) {
        *self = [W::new();N];
        proof {
            empty_words(self@);
        }
    }
}

} // verus!
