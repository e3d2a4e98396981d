use multex::At;
use multex::Attempt;
use multex::Guard;
use multex::Invalid;
use multex::InvalidIndexError;
use multex::Key;
use multex::Multex;
use multex::Multex16;
use multex::Multex32;
use multex::Multex64;
use multex::Multex8;
use multex::MultexN;
use multex::Release;

#[test]
fn two_holders_write_their_own_slots() {
    let mut multex = Multex8::new([1, 2, 3, 4]);
    let key1 = Key::new([0]).unwrap();
    let key2 = Key::new([1]).unwrap();
    let guard1 = multex.lock_with(&key1, false).unwrap();
    let guard2 = multex.lock_with(&key2, false).unwrap();
    let slots1 = guard1.as_ref().clone();
    let slots2 = guard2.as_ref().clone();
    assert_eq!(slots1, vec![Some(0)]);
    assert_eq!(slots2, vec![Some(1)]);
    assert_eq!(*guard1.mask(), 0b01);
    assert_eq!(*guard2.mask(), 0b10);
    assert!(multex.is_locked(true));
    guard1.release();
    guard2.release();
    assert!(!multex.is_locked(true));
    for slot in slots1.into_iter().chain(slots2).flatten() {
        multex.get_mut()[slot] = 10;
    }
    assert_eq!(multex.into_inner(), [10, 10, 3, 4]);
}

#[test]
fn shared_bit_outside_the_value_makes_the_second_key_wait() {
    let multex = Multex16::new([1, 2, 3, 4]);
    let key1 = Key::new([0, 4]).unwrap();
    let key2 = Key::new([1, 4]).unwrap();
    let guard1 = multex.lock_with(&key1, false).unwrap();
    assert_eq!(*guard1.mask(), 0b10001);
    let Err(Attempt::Park { expected, bits, wake }) = multex.lock_with(&key2, false) else {
        panic!()
    };
    assert_eq!(expected, 0b10001);
    assert_eq!(bits, 0b10010);
    assert_eq!(wake, 0);
    assert!(multex.try_lock_with(&key2, false).is_none());
    assert_eq!(guard1.release(), Release { changed: true, wake: 0b10001 });
    assert!(multex.try_lock_with(&key2, false).is_some());
}

#[test]
fn whole_value_round_trip() {
    let mut multex = Multex32::new(Vec::new());
    let guard = multex.lock().unwrap();
    assert_eq!(*guard.mask(), u32::MAX);
    assert_eq!(**guard.as_ref(), Vec::<i32>::new());
    assert!(multex.try_lock().is_none());
    assert!(matches!(multex.lock(), Err(Attempt::Park { expected: 0xffff_ffff, bits: 0xffff_ffff, wake: 0 })));
    assert!(multex.is_locked(false));
    guard.release();
    assert!(!multex.is_locked(false));
    assert!(!multex.is_locked(true));
    multex.get_mut().push(1);
    assert_eq!(multex.get(), &vec![1]);
    assert_eq!(multex.into_inner(), vec![1]);
}

#[test]
fn duplicate_index_is_rejected() {
    let Err(error) = Key::<u8, _>::new([0, 1, 0]) else {
        panic!()
    };
    assert_eq!(error, InvalidIndexError { index: 0, kind: Invalid::Duplicate });
}

#[test]
fn first_offending_index_is_reported() {
    let Err(error) = Key::<u8, _>::new((3, [9, 3], At::<200>)) else {
        panic!()
    };
    assert_eq!(error, InvalidIndexError { index: 9, kind: Invalid::OutOfBounds });
    let Err(error) = Key::<u16, _>::new((3, [9, 3], At::<200>)) else {
        panic!()
    };
    assert_eq!(error, InvalidIndexError { index: 3, kind: Invalid::Duplicate });
    let Err(error) = Key::<[u8; 2], _>::new(vec![15, 16]) else {
        panic!()
    };
    assert_eq!(error, InvalidIndexError { index: 16, kind: Invalid::OutOfBounds });
    let Err(error) = Key::<u64, _>::new((63, 64)) else {
        panic!()
    };
    assert_eq!(error, InvalidIndexError { index: 64, kind: Invalid::OutOfBounds });
}

#[test]
fn valid_keys_are_made() {
    let key = Key::<u8, _>::new([0usize, 1, 2, 3, 4, 5, 6, 7]).unwrap();
    assert_eq!(*key.mask(), 0xff);
    assert_eq!(key.indices(), &[0, 1, 2, 3, 4, 5, 6, 7]);
    let key = Key::<u32, _>::new((At::<31>, 0usize, [4usize, 2])).unwrap();
    assert_eq!(*key.mask(), 0x8000_0015);
    let key = Key::<[u8; 2], _>::new([15usize, 0, 8]).unwrap();
    assert_eq!(*key.mask(), [0x01, 0x81]);
    let key = Key::<usize, _>::new(()).unwrap();
    assert_eq!(*key.mask(), 0);
}

#[test]
fn contention_is_reported() {
    let multex = Multex8::new(0u8);
    let held = Key::new([0]).unwrap();
    let guard = multex.lock_with(&held, false).unwrap();
    assert_eq!(guard.as_ref(), &vec![Some(0)]);

    let same = Key::new([0]).unwrap();
    assert!(multex.try_lock_with(&same, false).is_none());

    let partial = multex.try_lock_with(&same, true).unwrap();
    assert_eq!(partial.as_ref(), &vec![None]);
    assert_eq!(*partial.mask(), 0);
    assert_eq!(partial.release(), Release { changed: false, wake: 0 });
    assert!(multex.is_locked_with(&same, false));

    let other = Key::new([1]).unwrap();
    let outside = multex.try_lock_with(&other, false).unwrap();
    assert_eq!(outside.as_ref(), &vec![None]);
    assert_eq!(*outside.mask(), 0b10);
    assert!(multex.is_locked_with(&other, true));
    outside.release();
    assert!(!multex.is_locked_with(&other, true));
    guard.release();
    assert!(!multex.is_locked_with(&same, true));
}

#[test]
fn tuple_field_is_projected() {
    let mut multex = Multex8::new((1u8, 2u16));
    let key = Key::new(At::<1>).unwrap();
    let guard = multex.lock_with(&key, false).unwrap();
    assert_eq!(guard.as_ref(), &vec![Some(1)]);
    guard.release();
    multex.get_mut().1 = 5;
    assert_eq!(multex.into_inner(), (1, 5));
}

#[test]
fn key_without_indices_is_free() {
    let multex = Multex64::new([0u8; 3]);
    let all = multex.lock().unwrap();
    let key = Key::new(()).unwrap();
    let first = multex.lock_with(&key, false).unwrap();
    let second = multex.try_lock_with(&key, false).unwrap();
    assert_eq!(*first.mask(), 0);
    assert!(first.as_ref().is_empty());
    assert!(!multex.is_locked_with(&key, true));
    assert_eq!(first.release(), Release { changed: false, wake: 0 });
    assert_eq!(second.release(), Release { changed: false, wake: 0 });
    assert!(multex.is_locked(false));
    all.release();
}

#[test]
fn partial_takes_what_is_free() {
    let multex = Multex8::new([0u8; 8]);
    let first = Key::new([1, 2]).unwrap();
    let second = Key::<u8, _>::new([2, 3, 9]);
    assert!(second.is_err());
    let second = Key::new([2, 3, 7]).unwrap();
    let guard1 = multex.lock_with(&first, false).unwrap();
    let guard2 = multex.lock_with(&second, true).unwrap();
    assert_eq!(*guard2.mask(), 0b1000_1000);
    assert_eq!(guard2.as_ref(), &vec![None, Some(3), Some(7)]);
    assert_eq!(guard1.release().changed, true);
    assert!(multex.is_locked(true));
    assert!(!multex.is_locked(false));
    assert_eq!(guard2.release().changed, true);
    assert!(!multex.is_locked(true));
}

#[test]
fn forced_unlock_gives_back() {
    let multex = MultexN::<[u8; 2], 2>::new([1, 2]);
    let key = Key::new([0, 1]).unwrap();
    let guard = multex.try_lock_with(&key, false).unwrap();
    let mask = *guard.mask();
    std::mem::forget(guard);
    assert!(multex.is_locked_with(&key, false));
    assert!(multex.unlock_with(&mask).changed);
    assert!(!multex.is_locked_with(&key, true));
    assert!(!multex.unlock_with(&mask).changed);
    let all = multex.try_lock().unwrap();
    std::mem::forget(all);
    assert!(multex.try_lock().is_none());
    assert!(multex.unlock().changed);
    assert!(multex.try_lock().is_some());
}

#[test]
fn guard_is_mapped() {
    let multex = Multex::<[u8; 4], u16>::new([5, 6, 7, 8]);
    let key = Key::new([3, 1, 4]).unwrap();
    let guard = multex.lock_with(&key, false).unwrap();
    let values = multex.get();
    let mapped = Guard::map(guard, |plan| {
        plan.into_iter().map(|slot| slot.map(|slot| values[slot])).collect::<Vec<_>>()
    });
    assert_eq!(mapped.as_ref(), &vec![Some(8), Some(6), None]);
    assert_eq!(*mapped.mask(), 0b11010);
    assert!(mapped.release().changed);
    assert!(!multex.is_locked(true));
}

#[test]
fn exclusive_plan_needs_no_lock() {
    let mut multex = Multex8::new(vec![1, 2, 3]);
    let key = Key::new((2, [0, 5])).unwrap();
    assert_eq!(multex.get_mut_with(&key), vec![Some(2), Some(0), None]);
    assert!(!multex.is_locked(true));
}

#[test]
fn keys_are_read_in_the_order_of_their_description() {
    let key = Key::<u16, _>::new((7usize, (6usize, At::<5>), [4usize, 3], vec![2usize], &1usize, 0usize, (), (8usize,)))
        .unwrap();
    assert_eq!(*key.mask(), 0x1ff);
    let mut multex = Multex16::new(Box::new([0u8; 6]));
    let guard = multex.try_lock_with(&key, false).unwrap();
    assert_eq!(
        guard.as_ref(),
        &vec![None, None, Some(5), Some(4), Some(3), Some(2), Some(1), Some(0), None]
    );
    guard.release();
    assert_eq!(
        multex.get_mut_with(&key),
        vec![None, None, Some(5), Some(4), Some(3), Some(2), Some(1), Some(0), None]
    );
    let indices = [1usize, 0];
    let key = Key::<u8, _>::new(&indices[..]).unwrap();
    assert_eq!(*key.mask(), 0b11);
    let wide = Multex8::new((0u8, 1u16, 2u32, 3u64, 4usize, 5i8, 6i16, 7i32));
    let all = Key::<u8, _>::new([7usize, 8]);
    assert!(all.is_err());
    let all = Key::new([7usize, 0]).unwrap();
    assert_eq!(wide.try_lock_with(&all, false).unwrap().as_ref(), &vec![Some(7), Some(0)]);
}

#[test]
fn container_without_indices_is_always_granted() {
    let multex = Multex::<[u8; 2], [u32; 0]>::new([1, 2]);
    let first = multex.try_lock().unwrap();
    let second = multex.try_lock().unwrap();
    assert!(multex.lock().is_ok());
    assert!(!multex.is_locked(true));
    assert!(!multex.is_locked(false));
    assert_eq!(multex.unlock(), Release { changed: false, wake: 0 });
    assert_eq!(first.release(), Release { changed: false, wake: 0 });
    assert_eq!(second.release(), Release { changed: false, wake: 0 });
}
