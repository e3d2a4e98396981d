//! Locks wider than one word: one state cell for each word of the mask, and
//! a version counter by which those who wait for a word are told of releases.
//!
//! The lowest bit of the version says that somebody waits; the bits above it
//! count the releases that woke somebody.

use std::sync::atomic::AtomicU32;
use std::sync::atomic::Ordering;
use vstd::prelude::*;
use crate::lock::is_locked_word;
use crate::lock::lock_word;
use crate::lock::unlock_word;
use crate::lock::Attempt;
use crate::lock::Lock;
use crate::lock::LockAll;
use crate::lock::Release;
use crate::mask::Mask;
use crate::word::Word;
use crate::words::empty_words;
use crate::words::index_parts;
use crate::words::subset_words;

verus! {

/// The bit of the version that says that somebody waits.
pub const WAIT: u32 = 1;

/// A state cell that is shared as it stands.
pub struct Same<T>(pub T);

/// The shared state of a lock of `N` words: a cell for each word, and the
/// version.
pub struct State<T, const N: usize> {
    words: Vec<Same<T>>,
    version: AtomicU32,
}

impl<T, const N: usize> State<T, N> {
    #[verifier::type_invariant]
    spec fn sized(self) -> bool {
        self.words@.len() == N
    }

    /// The cells of the state, one for each word.
    pub closed spec fn spec_words(&self) -> Seq<Same<T>> {
        self.words@
    }

    /// The version of the state.
    pub closed spec fn spec_version(&self) -> AtomicU32 {
        self.version
    }

    /// The cells, one for each word.
    pub fn words(&self) -> (words: &[Same<T>])
        ensures
            words@ == self.spec_words(),
            words@.len() == N,
    {
        proof {
            use_type_invariant(self);
        }
        self.words.as_slice()
    }

    /// The version, which is the word that waiters sleep on.
    pub fn version(&self) -> (version: &AtomicU32)
        ensures
            *version == self.spec_version(),
    {
        &self.version
    }
}

/// How many releases the version has counted.
pub open spec fn sequence(version: u32) -> u32 {
    version >> 1
}

/// The bit by which waiters for word `index` are woken.
pub open spec fn bit_of(index: usize) -> u32 {
    1u32 << ((index % 32) as u32)
}

/// The bit by which waiters for word `index` are woken: every word has one,
/// and words 32 apart share it.
pub fn bit(index: usize) -> (one: u32)
    ensures
        one == bit_of(index),
        one.indices() == set![(index % 32) as nat],
        one != 0,
{
    let shift: u32 = (index % 32) as u32;
    proof {
        crate::w32::single_holds(shift as nat);
        assert(1u32 << shift != 0) by (bit_vector)
            requires
                shift < 32,
        ;
    }
    1u32 << shift
}

fn snapshot(version: &AtomicU32) -> u32 {
    version.load(Ordering::Acquire)
}

fn raise(version: &AtomicU32) {
    version.fetch_or(WAIT, Ordering::Release);
}

fn lower(version: &AtomicU32) -> u32 {
    version.fetch_and(!WAIT, Ordering::Release)
}

fn advance(version: &AtomicU32) {
    version.fetch_add(2, Ordering::Release);
}

/// What a release of whole words did, given the bits of the words that
/// changed and the version from before its wait bit was cleared: waiters are
/// woken by those bits if the caller asked for it and somebody waited.
pub fn signal(changed: u32, previous: u32, wake: bool) -> (release: Release)
    ensures
        release == (Release {
            changed: changed != 0,
            wake: if wake && previous & WAIT == WAIT {
                changed
            } else {
                0
            },
        }),
{
    if wake && previous & WAIT == WAIT {
        Release { changed: changed != 0, wake: changed }
    } else {
        Release { changed: changed != 0, wake: 0 }
    }
}

/// Tells the version of a release that changed the words whose bits are in
/// `changed`. With `aloud`, the wait bit is cleared, and if it was set the
/// count of releases goes up by one and the caller is told to wake by
/// `changed`.
pub fn wake(version: &AtomicU32, changed: u32, aloud: bool) -> (release: Release)
    ensures
        release.changed <==> changed != 0,
        release.wake == 0 || (aloud && release.wake == changed),
{
    if changed == 0 || !aloud {
        signal(changed, 0, false)
    } else {
        let previous = lower(version);
        let release = signal(changed, previous, true);
        if release.wake != 0 {
            advance(version);
        }
        release
    }
}

/// What a waiter does after word `word` of its mask was found held. It
/// sleeps on the version only if it saw the wait bit set in `snapshot`,
/// taken before the attempt, and no release that woke somebody was counted
/// between that and `current`: then every later release of a word will
/// change the version and wake by the word's bit. A waiter that did not see
/// the bit tries again at once, since a release that came before the bit was
/// set told nobody. Either way it first wakes by `wake`, unless that is 0.
pub fn parking(snapshot: u32, current: u32, word: usize, wake: u32) -> (attempt: Attempt)
    ensures
        attempt == if sequence(snapshot) == sequence(current) && snapshot & WAIT == WAIT {
            Attempt::Park { expected: snapshot as u64, bits: bit_of(word), wake }
        } else {
            Attempt::Retry { wake }
        },
{
    if snapshot >> 1 == current >> 1 && snapshot & WAIT == WAIT {
        Attempt::Park { expected: snapshot as u64, bits: bit(word), wake }
    } else {
        Attempt::Retry { wake }
    }
}

/// Whether a waiter that saw `snapshot` before its attempt and `current`
/// after it makes sure that the wait bit is set: it does unless a release
/// that woke somebody was counted in between.
pub fn announces(snapshot: u32, current: u32) -> (raise: bool)
    ensures
        raise <==> sequence(snapshot) == sequence(current),
{
    snapshot >> 1 == current >> 1
}

/// The bits of the words among the first `count` of `masks` that hold an
/// index: the only bits by which a release of those words wakes.
pub open spec fn bits_of_words<W: Word>(masks: Seq<W>, count: int) -> Set<nat> {
    Set::new(
        |b: nat|
            exists|j: int|
                0 <= j < count && (#[trigger] masks[j]).indices() != Set::<nat>::empty() && b == j
                    % 32,
    )
}

fn unlock_first<W: Word, const N: usize>(
    states: &[Same<W::Cell>],
    version: &AtomicU32,
    masks: &[W; N],
    count: usize,
    wake: bool,
) -> (release: Release)
    requires
        states@.len() == N,
        count <= N,
    ensures
        release.changed ==> exists|j: int|
            0 <= j < count && (#[trigger] masks@[j]).indices() != Set::<nat>::empty(),
        release.wake != 0 ==> release.changed && wake,
        release.wake.indices().subset_of(bits_of_words(masks@, count as int)),
{
    let mut changed: u32 = 0;
    let mut k: usize = 0;
    proof {
        crate::w32::zero_is_empty();
    }
    while k < count
        invariant
            k <= count <= N,
            states@.len() == N,
            changed != 0 ==> exists|j: int|
                0 <= j < k && (#[trigger] masks@[j]).indices() != Set::<nat>::empty(),
            changed.indices().subset_of(bits_of_words(masks@, k as int)),
        decreases count - k,
    {
        let ghost before = changed;
        let release = unlock_word(masks[k], &states[k].0, false);
        if release.changed {
            let one = bit(k);
            changed = changed.union(&one);
            proof {
                assert(masks@[k as int].indices() != Set::<nat>::empty());
                assert(changed.indices().contains((k % 32) as nat));
            }
        }
        proof {
            assert forall|b: nat| changed.indices().contains(b) implies bits_of_words(
                masks@,
                k + 1,
            ).contains(b) by {
                if before.indices().contains(b) {
                    assert(bits_of_words(masks@, k as int).contains(b));
                    let j = choose|j: int|
                        0 <= j < k && (#[trigger] masks@[j]).indices() != Set::<nat>::empty() && b
                            == j % 32;
                    assert(0 <= j < k + 1 && masks@[j].indices() != Set::<nat>::empty() && b == j
                        % 32);
                } else {
                    assert(0 <= k < k + 1 && masks@[k as int].indices() != Set::<nat>::empty()
                        && b == k as int % 32);
                }
            }
        }
        k += 1;
    }
    self::wake(version, changed, wake)
}

/// Gives back every word of `masks` in its cell, and tells the version if
/// any of them changed.
pub fn unlock_all<W: Word, const N: usize>(
    states: &[Same<W::Cell>],
    version: &AtomicU32,
    masks: &[W; N],
    wake: bool,
) -> (release: Release)
    requires
        states@.len() == N,
    ensures
        release.changed ==> exists|j: int|
            0 <= j < N && (#[trigger] masks@[j]).indices() != Set::<nat>::empty(),
        release.wake != 0 ==> release.changed && wake,
        release.wake.indices().subset_of(bits_of_words(masks@, N as int)),
{
    unlock_first(states, version, masks, N, wake)
}

/// Whether any word of `masks` counts as locked in its cell.
pub fn are_locked<W: Word, const N: usize>(
    states: &[Same<W::Cell>],
    masks: &[W; N],
    partial: bool,
) -> (locked: bool)
    requires
        states@.len() == N,
    ensures
        locked ==> exists|j: int|
            0 <= j < N && (#[trigger] masks@[j]).indices() != Set::<nat>::empty(),
{
    let mut k: usize = 0;
    while k < N
        invariant
            k <= N,
            states@.len() == N,
        decreases N - k,
    {
        if is_locked_word(masks[k], &states[k].0, partial) {
            proof {
                assert(masks@[k as int].indices() != Set::<nat>::empty());
            }
            return true;
        }
        k += 1;
    }
    false
}

/// Reserves every word of `mask` in its cell, in ascending order, all or
/// nothing unless `partial`.
///
/// When a word is found held, the words taken before it are given back. A
/// caller that does not wait is then told that the mask is contended. One
/// that waits makes sure that the wait bit is set, and is told to sleep on
/// the version if it had seen the bit set before the attempt, else to try
/// again at once.
pub fn lock_all<W: Word, const N: usize>(
    states: &[Same<W::Cell>],
    version: &AtomicU32,
    mask: &[W; N],
    taken: &mut [W; N],
    partial: bool,
    wait: bool,
) -> (attempt: Attempt)
    requires
        states@.len() == N,
    ensures
        partial ==> attempt is Taken,
        attempt is Taken ==> forall|j: int|
            0 <= j < N ==> (#[trigger] final(taken)@[j]).indices().subset_of(mask@[j].indices()),
        attempt is Taken && !partial ==> final(taken)@ == mask@,
        !(attempt is Taken) ==> {
            &&& forall|j: int|
                0 <= j < N ==> (#[trigger] final(taken)@[j]).indices() == Set::<nat>::empty()
            &&& exists|j: int|
                0 <= j < N && (#[trigger] mask@[j]).indices() != Set::<nat>::empty()
        },
        wait ==> !(attempt is Contended),
        !wait ==> attempt is Taken || attempt is Contended,
        attempt matches Attempt::Park { expected, bits, wake } ==> {
            &&& expected & 1 == 1
            &&& bits != 0
            &&& exists|j: int|
                0 <= j < N && bits == bit_of(j as usize) && (#[trigger] mask@[j]).indices()
                    != Set::<nat>::empty()
        },
{
    let before: u32 = if wait {
        snapshot(version)
    } else {
        u32::MAX
    };
    let mut k: usize = 0;
    while k < N
        invariant
            k <= N,
            states@.len() == N,
            forall|j: int|
                0 <= j < k ==> (#[trigger] taken@[j]).indices().subset_of(mask@[j].indices()),
            !partial ==> forall|j: int| 0 <= j < k ==> #[trigger] taken@[j] == mask@[j],
        decreases N - k,
    {
        let mut word: W = W::new();
        let attempt = lock_word(mask[k], &states[k].0, &mut word, partial, false);
        match attempt {
            Attempt::Taken => {
                taken[k] = word;
                k += 1;
            },
            _ => {
                let release = unlock_first(states, version, taken, k, true);
                *taken = [W::new();N];
                proof {
                    assert(mask@[k as int].indices() != Set::<nat>::empty());
                }
                if wait {
                    let current = snapshot(version);
                    if announces(before, current) {
                        raise(version);
                    }
                    proof {
                        assert(before & 1 == 1 ==> before as u64 & 1 == 1) by (bit_vector);
                        let shift = (k % 32) as u32;
                        assert(1u32 << shift != 0) by (bit_vector)
                            requires
                                shift < 32,
                        ;
                    }
                    return parking(before, current, k, release.wake);
                } else {
                    return Attempt::Contended { wake: release.wake };
                }
            },
        }
    }
    proof {
        if !partial {
            assert(taken@ =~= mask@);
        }
    }
    Attempt::Taken
}

impl<W: Word, const N: usize> Lock for [W; N] {
    type State = State<W::Cell, N>;

    fn fresh() -> (state: Self::State)
        ensures
            state.spec_words().len() == N,
    {
        let mut words: Vec<Same<W::Cell>> = Vec::new();
        let mut k: usize = 0;
        while k < N
            invariant
                k <= N,
                words@.len() == k,
            decreases N - k,
        {
            words.push(Same(W::cell()));
            k += 1;
        }
        State { words, version: AtomicU32::new(0) }
    }

    fn lock(&self, state: &Self::State, taken: &mut Self, partial: bool, wait: bool) -> (attempt:
        Attempt) {
        let attempt = lock_all(state.words(), state.version(), self, taken, partial, wait);
        proof {
            empty_words(self@);
            empty_words(taken@);
            if attempt is Taken {
                subset_words(taken@, self@);
            }
        }
        attempt
    }

    open spec fn wakes(&self) -> Set<nat> {
        bits_of_words(self@, N as int)
    }

    fn unlock(&self, state: &Self::State, wake: bool) -> (release: Release) {
        proof {
            empty_words(self@);
        }
        unlock_all(state.words(), state.version(), self, wake)
    }

    fn is_locked(&self, state: &Self::State, partial: bool) -> (locked: bool) {
        proof {
            empty_words(self@);
        }
        are_locked(state.words(), self, partial)
    }
}

impl<W: Word, const N: usize> LockAll for [W; N] {
    fn all() -> (mask: Self) {
        let mask = [W::full();N];
        proof {
            assert forall|i: nat| Self::fits(i) <==> mask.indices().contains(i) by {
                index_parts::<W>(i);
            }
        }
        mask
    }
}

} // verus!
