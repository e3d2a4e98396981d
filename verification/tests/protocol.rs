use multex::compound::announces;
use multex::compound::are_locked;
use multex::compound::bit;
use multex::compound::lock_all;
use multex::compound::parking;
use multex::compound::signal;
use multex::compound::unlock_all;
use multex::compound::wake;
use multex::compound::WAIT;
use multex::lock::held;
use multex::lock::is_locked_word;
use multex::lock::lock_word;
use multex::lock::owned;
use multex::lock::released;
use multex::lock::reserve;
use multex::lock::settle;
use multex::lock::unlock_word;
use multex::word::fold;
use multex::Attempt;
use multex::Lock;
use multex::LockAll;
use multex::Mask;
use multex::Release;
use multex::Word;
use std::sync::atomic::AtomicU32;
use std::sync::atomic::Ordering;

#[test]
fn mask_of_a_word() {
    let mut mask = <u8 as Mask>::new();
    assert!(Mask::is_empty(&mask));
    assert!(mask.add(3));
    assert!(!mask.add(3));
    assert!(!mask.add(8));
    assert!(!mask.add(usize::MAX));
    assert!(mask.add(7));
    assert_eq!(mask, 0b1000_1000);
    assert!(Mask::contains(&mask, 7));
    assert!(!Mask::contains(&mask, 6));
    assert!(!Mask::contains(&mask, 8));
    assert!(mask.remove(3));
    assert!(!mask.remove(3));
    assert!(!mask.remove(300));
    assert_eq!(mask, 0b1000_0000);
    assert!(!Mask::is_empty(&mask));
    Mask::clear(&mut mask);
    assert_eq!(mask, 0);
}

#[test]
fn mask_of_each_width() {
    let mut a = <u16 as Mask>::new();
    assert!(a.add(15) && !a.add(16));
    assert_eq!(a, 0x8000);
    let mut b = <u32 as Mask>::new();
    assert!(b.add(31) && !b.add(32));
    assert_eq!(b, 0x8000_0000);
    let mut c = <u64 as Mask>::new();
    assert!(c.add(63) && !c.add(64));
    assert_eq!(c, 0x8000_0000_0000_0000);
    let mut d = <usize as Mask>::new();
    assert!(d.add(usize::BITS as usize - 1) && !d.add(usize::BITS as usize));
    assert_eq!(d, 1 << (usize::BITS - 1));
    assert_eq!(<u8 as Word>::width(), 8);
    assert_eq!(<u16 as Word>::width(), 16);
    assert_eq!(<u32 as Word>::width(), 32);
    assert_eq!(<u64 as Word>::width(), 64);
    assert_eq!(<usize as Word>::width(), usize::BITS as usize);
    assert_eq!(<u8 as Word>::full(), u8::MAX);
    assert_eq!(<usize as Word>::full(), usize::MAX);
    assert_eq!(<u64 as LockAll>::all(), u64::MAX);
}

#[test]
fn mask_of_several_words() {
    let mut mask = <[u8; 3] as Mask>::new();
    assert_eq!(mask, [0, 0, 0]);
    assert!(Mask::is_empty(&mask));
    assert!(mask.add(0));
    assert!(mask.add(9));
    assert!(mask.add(23));
    assert!(!mask.add(24));
    assert!(!mask.add(9));
    assert_eq!(mask, [0x01, 0x02, 0x80]);
    assert!(Mask::contains(&mask, 23));
    assert!(!Mask::contains(&mask, 22));
    assert!(!Mask::contains(&mask, 24));
    assert!(mask.remove(9));
    assert!(!mask.remove(9));
    assert!(!mask.remove(1000));
    assert_eq!(mask, [0x01, 0x00, 0x80]);
    assert!(!Mask::is_empty(&mask));
    Mask::clear(&mut mask);
    assert!(Mask::is_empty(&mask));
    assert_eq!(<[u16; 2] as LockAll>::all(), [0xffff, 0xffff]);
}

#[test]
fn set_algebra_of_words() {
    assert_eq!(0b0110u8.union(&0b0011), 0b0111);
    assert_eq!(0b0110u8.intersection(&0b0011), 0b0010);
    assert_eq!(0b0110u8.difference(&0b0011), 0b0100);
    assert_eq!(0b0110u8.symmetric_difference(&0b0011), 0b0101);
    assert_eq!(0xf0f0u16.difference(&0x00ff), 0xf000);
    assert_eq!(u64::MAX.symmetric_difference(&1), u64::MAX - 1);
    let left = [0b0110u8, 0xff, 0x00];
    let right = [0b0011u8, 0x0f, 0x80];
    assert_eq!(Mask::union(&left, &right), [0b0111, 0xff, 0x80]);
    assert_eq!(Mask::intersection(&left, &right), [0b0010, 0x0f, 0x00]);
    assert_eq!(Mask::difference(&left, &right), [0b0100, 0xf0, 0x00]);
    assert_eq!(Mask::symmetric_difference(&left, &right), [0b0101, 0xf0, 0x80]);
    assert_eq!(0x81u8.widen(), 0x81u64);
    assert_eq!(usize::MAX.widen(), usize::MAX as u64);
}

#[test]
fn masks_fold_to_wake_bits() {
    assert_eq!(fold(0x81u8), 0x81);
    assert_eq!(fold(0x8001u16), 0x8001);
    assert_eq!(fold(0x8000_0001u32), 0x8000_0001);
    assert_eq!(fold(0x0000_0002_0000_0001u64), 0x3);
    assert_eq!(fold(0x8000_0000_0000_0000u64), 0x8000_0000);
    assert_eq!(fold(1usize << (usize::BITS - 1)), 0x8000_0000);
    assert_eq!(bit(0), 1);
    assert_eq!(bit(31), 0x8000_0000);
    assert_eq!(bit(32), 1);
    assert_eq!(bit(33), 2);
}

#[test]
fn reserving_is_all_or_nothing() {
    assert_eq!(reserve(0b0101u8, 0b1010), Some(0b1111));
    assert_eq!(reserve(0b0101u8, 0b0100), None);
    assert_eq!(reserve(0u32, 0), Some(0));
    assert_eq!(reserve(7u64, 0), Some(7));
    assert_eq!(owned(0b0110u8, 0b0011), 0b0100);
    assert_eq!(owned(0b0110u16, 0b0110), 0);
    assert_eq!(settle(6u8, Ok(1), true), Attempt::Taken);
    assert_eq!(settle(6u8, Err(3), false), Attempt::Contended { wake: 0 });
    assert_eq!(settle(6u8, Err(3), true), Attempt::Park { expected: 3, bits: 6, wake: 0 });
    assert_eq!(
        settle(1u64 << 40, Err(u64::MAX), true),
        Attempt::Park { expected: u64::MAX, bits: 1 << 8, wake: 0 }
    );
}

#[test]
fn releases_say_whom_to_wake() {
    assert_eq!(released(0b0110u8, 0b0100, true), Release { changed: true, wake: 0b0110 });
    assert_eq!(released(0b0110u8, 0b0100, false), Release { changed: true, wake: 0 });
    assert_eq!(released(0b0110u8, 0b1001, true), Release { changed: false, wake: 0 });
    assert_eq!(signal(0, 1, true), Release { changed: false, wake: 0 });
    assert_eq!(signal(6, 5, true), Release { changed: true, wake: 6 });
    assert_eq!(signal(6, 4, true), Release { changed: true, wake: 0 });
    assert_eq!(signal(6, 5, false), Release { changed: true, wake: 0 });
}

#[test]
fn held_reads_a_state_word() {
    assert!(!held(0u8, 0xff, true));
    assert!(!held(0u8, 0xff, false));
    assert!(held(0b0110u8, 0b0100, true));
    assert!(!held(0b0110u8, 0b0100, false));
    assert!(held(0b0110u8, 0b1110, false));
    assert!(!held(0b0110u8, 0b1001, true));
}

#[test]
fn waiters_park_on_the_version() {
    assert_eq!(WAIT, 1);
    assert_eq!(parking(4, 5, 3, 0), Attempt::Retry { wake: 0 });
    assert_eq!(parking(5, 4, 35, 6), Attempt::Park { expected: 5, bits: 8, wake: 6 });
    assert_eq!(parking(5, 5, 0, 0), Attempt::Park { expected: 5, bits: 1, wake: 0 });
    assert_eq!(parking(4, 6, 3, 7), Attempt::Retry { wake: 7 });
    assert_eq!(parking(5, 7, 3, 7), Attempt::Retry { wake: 7 });
    assert!(announces(4, 5));
    assert!(announces(5, 4));
    assert!(!announces(4, 6));
}

#[test]
fn version_counts_releases_that_wake() {
    let version = AtomicU32::new(0);
    assert_eq!(wake(&version, 0, true), Release { changed: false, wake: 0 });
    assert_eq!(wake(&version, 4, true), Release { changed: true, wake: 0 });
    assert_eq!(version.load(Ordering::Relaxed), 0);
    version.store(3, Ordering::Relaxed);
    assert_eq!(wake(&version, 4, false), Release { changed: true, wake: 0 });
    assert_eq!(version.load(Ordering::Relaxed), 3);
    assert_eq!(wake(&version, 4, true), Release { changed: true, wake: 4 });
    assert_eq!(version.load(Ordering::Relaxed), 4);
}

#[test]
fn word_protocol_on_each_width() {
    let cell8 = <u8 as Word>::cell();
    let mut taken8 = 0xffu8;
    assert_eq!(lock_word(0u8, &cell8, &mut taken8, false, false), Attempt::Taken);
    assert_eq!(taken8, 0);
    assert_eq!(lock_word(0b11u8, &cell8, &mut taken8, false, false), Attempt::Taken);
    assert_eq!(taken8, 0b11);
    assert_eq!(lock_word(0b110u8, &cell8, &mut taken8, false, false), Attempt::Contended { wake: 0 });
    assert_eq!(taken8, 0);
    assert_eq!(
        lock_word(0b110u8, &cell8, &mut taken8, false, true),
        Attempt::Park { expected: 0b11, bits: 0b110, wake: 0 }
    );
    assert_eq!(lock_word(0b110u8, &cell8, &mut taken8, true, false), Attempt::Taken);
    assert_eq!(taken8, 0b100);
    assert!(is_locked_word(0b1001u8, &cell8, true));
    assert!(!is_locked_word(0b1001u8, &cell8, false));
    assert!(is_locked_word(0b101u8, &cell8, false));
    assert_eq!(unlock_word(0b11u8, &cell8, true), Release { changed: true, wake: 0b11 });
    assert_eq!(unlock_word(0b11u8, &cell8, true), Release { changed: false, wake: 0 });
    assert_eq!(unlock_word(0u8, &cell8, true), Release { changed: false, wake: 0 });
    assert_eq!(<u8 as Word>::load(&cell8), 0b100);

    let cell16 = <u16 as Word>::cell();
    let mut taken16 = 0u16;
    assert_eq!(lock_word(0x8000u16, &cell16, &mut taken16, false, false), Attempt::Taken);
    assert_eq!(lock_word(0x8001u16, &cell16, &mut taken16, false, false), Attempt::Contended { wake: 0 });
    assert_eq!(<u16 as Word>::load(&cell16), 0x8000);

    let cell32 = <u32 as Word>::cell();
    let mut taken32 = 0u32;
    assert_eq!(lock_word(0x8000_0000u32, &cell32, &mut taken32, false, false), Attempt::Taken);
    assert_eq!(lock_word(0x8000_0001u32, &cell32, &mut taken32, false, false), Attempt::Contended { wake: 0 });
    assert_eq!(<u32 as Word>::load(&cell32), 0x8000_0000);

    let cell64 = <u64 as Word>::cell();
    let mut taken64 = 0u64;
    assert_eq!(lock_word(1u64 << 63, &cell64, &mut taken64, false, false), Attempt::Taken);
    assert_eq!(lock_word(3u64 << 62, &cell64, &mut taken64, false, false), Attempt::Contended { wake: 0 });
    assert_eq!(<u64 as Word>::load(&cell64), 1 << 63);

    let cell = <usize as Word>::cell();
    let mut taken = 0usize;
    assert_eq!(lock_word(5usize, &cell, &mut taken, false, false), Attempt::Taken);
    assert_eq!(lock_word(4usize, &cell, &mut taken, false, false), Attempt::Contended { wake: 0 });
    assert_eq!(<usize as Word>::load(&cell), 5);
}

#[test]
fn several_words_are_taken_whole_or_not_at_all() {
    let state = <[u8; 3] as Lock>::fresh();
    let mut taken = [0u8; 3];
    let first = [0x01, 0x00, 0x80];
    assert_eq!(
        lock_all(state.words(), state.version(), &first, &mut taken, false, false),
        Attempt::Taken
    );
    assert_eq!(taken, first);

    let second = [0x02, 0x04, 0x80];
    assert_eq!(
        lock_all(state.words(), state.version(), &second, &mut taken, false, false),
        Attempt::Contended { wake: 0 }
    );
    assert_eq!(taken, [0, 0, 0]);
    assert!(!are_locked(state.words(), &[0x02u8, 0x04, 0x00], true));

    let mut taken = second;
    assert_eq!(
        lock_all(state.words(), state.version(), &second, &mut taken, true, false),
        Attempt::Taken
    );
    assert_eq!(taken, [0x02, 0x04, 0x00]);
    assert!(are_locked(state.words(), &[0x00u8, 0x04, 0x00], false));
    assert!(are_locked(state.words(), &[0x00u8, 0x06, 0x00], true));
    assert!(!are_locked(state.words(), &[0x04u8, 0x06, 0x01], false));

    assert_eq!(
        unlock_all(state.words(), state.version(), &first, true),
        Release { changed: true, wake: 0 }
    );
    assert_eq!(
        unlock_all(state.words(), state.version(), &first, true),
        Release { changed: false, wake: 0 }
    );
    assert_eq!(
        unlock_all(state.words(), state.version(), &taken, false),
        Release { changed: true, wake: 0 }
    );
    assert!(!are_locked(state.words(), &[0xffu8, 0xff, 0xff], true));
    assert_eq!(state.version().load(Ordering::Relaxed), 0);
}

#[test]
fn waiter_sleeps_once_the_wait_bit_was_seen() {
    let state = <[u8; 3] as Lock>::fresh();
    let mut taken = [0u8; 3];
    let held = [0x01, 0x00, 0x80];
    assert_eq!(held.lock(&state, &mut taken, false, false), Attempt::Taken);

    // Held at the first word: nothing was taken on the way. The first
    // attempt sets the wait bit, the second saw it and sleeps.
    let front = [0x03, 0x00, 0x00];
    assert_eq!(front.lock(&state, &mut taken, false, true), Attempt::Retry { wake: 0 });
    assert_eq!(state.version().load(Ordering::Relaxed), 1);
    assert_eq!(
        front.lock(&state, &mut taken, false, true),
        Attempt::Park { expected: 1, bits: 1, wake: 0 }
    );
    assert_eq!(state.version().load(Ordering::Relaxed), 1);
    assert_eq!(taken, [0, 0, 0]);

    // Held at the last word: the two words before it are given back, which
    // counts as a release, so the waiter looks again at once.
    let back = [0x02, 0x04, 0x80];
    assert_eq!(back.lock(&state, &mut taken, false, true), Attempt::Retry { wake: 0b11 });
    assert_eq!(state.version().load(Ordering::Relaxed), 2);
    assert_eq!(taken, [0, 0, 0]);
    assert!(![0x02u8, 0x04, 0x00].is_locked(&state, true));
    assert!(held.is_locked(&state, false));

    assert_eq!(front.lock(&state, &mut taken, false, true), Attempt::Retry { wake: 0 });
    assert_eq!(state.version().load(Ordering::Relaxed), 3);
    assert_eq!(held.unlock(&state, true), Release { changed: true, wake: 0b101 });
    assert_eq!(state.version().load(Ordering::Relaxed), 4);
    assert_eq!(front.lock(&state, &mut taken, false, true), Attempt::Taken);
    assert_eq!(taken, front);
    assert!(front.is_locked(&state, false));
    assert_eq!(front.unlock(&state, true), Release { changed: true, wake: 0 });
    assert_eq!(state.version().load(Ordering::Relaxed), 4);
}

#[test]
fn fresh_state_has_a_cell_for_each_word() {
    let state = <[u16; 5] as Lock>::fresh();
    assert_eq!(state.words().len(), 5);
    assert_eq!(state.version().load(Ordering::Relaxed), 0);
    assert!(std::ptr::eq(state.version(), state.version()));
    let none = <[u16; 0] as Lock>::fresh();
    assert!(none.words().is_empty());
    for cell in state.words() {
        assert_eq!(<u16 as Word>::load(&cell.0), 0);
    }
}

#[test]
fn releases_wake_by_the_bits_of_their_words_only() {
    let state = <[u8; 40] as Lock>::fresh();
    let mut taken = [0u8; 40];
    let mut mask = [0u8; 40];
    mask[1] = 0x10;
    mask[33] = 0x01;
    mask[7] = 0x80;
    assert_eq!(mask.lock(&state, &mut taken, false, false), Attempt::Taken);
    let mut waiter = [0u8; 40];
    waiter[1] = 0x10;
    assert_eq!(waiter.lock(&state, &mut taken, false, true), Attempt::Retry { wake: 0 });
    assert_eq!(
        waiter.lock(&state, &mut taken, false, true),
        Attempt::Park { expected: 1, bits: 0b10, wake: 0 }
    );
    assert_eq!(mask.unlock(&state, true), Release { changed: true, wake: 0b1000_0010 });
    assert_eq!(mask.unlock(&state, true), Release { changed: false, wake: 0 });
}
