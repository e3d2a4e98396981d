use multex::At;
use multex::Attempt;
use multex::Invalid;
use multex::Key;
use multex::Multex;
use multex::Multex16;
use multex::Multex32;
use multex::Multex8;

#[test]
fn cannot_lock_the_same_index_twice() {
    if let Err(error) = Key::<usize, _>::new([0, 1, 0]) {
        assert_eq!(error.index, 0);
    } else {
        panic!();
    }
}

#[test]
fn can_lock_lots_of_indices() {
    let mut items = (0..1000).collect::<Vec<usize>>();
    let multex = Multex::<_, [u64; 16]>::new(&mut items);
    let indices = (0..1000).collect::<Vec<usize>>();
    let key = Key::new(indices.as_slice()).unwrap();
    let guard = multex.lock_with(&key, false).unwrap();
    assert_eq!(guard.as_ref().len(), 1000);
    for (i, item) in guard.as_ref().iter().enumerate() {
        assert_eq!(item, &Some(i));
        assert_eq!(multex.get()[item.unwrap()], i);
    }
    guard.release();
}

#[test]
fn multex_locks_different_indices() {
    let multex = Multex8::new([1u8, 2u8, 3u8, 4u8]);
    let key1 = Key::new([0]).unwrap();
    let key2 = Key::new((1,)).unwrap();
    let guard1 = multex.lock_with(&key1, false).unwrap();
    let guard2 = multex.lock_with(&key2, false).unwrap();
    let [Some(slot1)] = guard1.as_ref()[..] else {
        panic!()
    };
    let [Some(slot2)] = guard2.as_ref()[..] else {
        panic!()
    };
    assert_eq!(multex.get()[slot1], 1u8);
    assert_eq!(multex.get()[slot2], 2u8);
}

#[test]
fn lib_locks_different_indices() {
    let multex = Multex8::new([1u8, 2u8, 3u8, 4u8]);
    let key1 = Key::new([0]).unwrap();
    let key2 = Key::new([1]).unwrap();
    let guard1 = multex.lock_with(&key1, false).unwrap();
    let guard2 = multex.lock_with(&key2, false).unwrap();
    let Some(slot1) = guard1.as_ref()[0] else {
        panic!()
    };
    let Some(slot2) = guard2.as_ref()[0] else {
        panic!()
    };
    assert_eq!(multex.get()[slot1], 1u8);
    assert_eq!(multex.get()[slot2], 2u8);
}

#[test]
fn does_not_contend_on_out_of_bounds_indices() {
    let multex = Multex16::new([1u8, 2u8, 3u8, 4u8]);
    let key1 = Key::new([0, 4]).unwrap();
    let key2 = Key::new([1, 4]).unwrap();
    let guard1 = multex.lock_with(&key1, false).unwrap();
    // Index 4 is no slot of the value, so it is planned as nothing; its bit is
    // reserved all the same, and the second key has to wait for it.
    assert_eq!(guard1.as_ref(), &vec![Some(0), None]);
    assert!(matches!(multex.lock_with(&key2, false), Err(Attempt::Park { .. })));
    guard1.release();
    let guard2 = multex.lock_with(&key2, false).unwrap();
    assert_eq!(guard2.as_ref(), &vec![Some(1), None]);
}

#[test]
fn multex_locks_all_without_panic() {
    let mut multex = Multex32::new(Vec::new());
    let guard = multex.lock().unwrap();
    assert!(guard.as_ref().is_empty());
    guard.release();
    multex.get_mut().push(1);
    assert_eq!(multex.into_inner(), vec![1]);
}

#[test]
fn lib_locks_all_without_panic() {
    let mut multex = Multex32::new(Vec::new());
    multex.lock().unwrap().release();
    multex.get_mut().push(1);
    assert!(!multex.is_locked(true));
}

#[test]
fn locks_with_unit() {
    let multex = Multex8::new(());
    let key1 = Key::new([0, 3, 5, 7]).unwrap();
    let key2 = Key::new([2, 4, 5, 6]).unwrap();
    let guard1 = multex.try_lock_with(&key1, false);
    let guard2 = multex.try_lock_with(&key2, false);
    assert!(guard1.is_some());
    assert!(guard2.is_none());
}

#[test]
fn lib_boba() {
    let mut multex = Multex8::new((1u8, 2u16));
    let key1 = Key::new(At::<1>).unwrap();
    let key2 = Key::new((At::<1>, At::<0>)).unwrap();
    let key3 = Key::new([0, 1]).unwrap();
    let key4 = Key::new((0, 1)).unwrap();
    let guard1 = multex.lock_with(&key1, false).unwrap();
    assert_eq!(guard1.as_ref(), &vec![Some(1)]);
    guard1.release();
    let guard2 = multex.lock_with(&key2, false).unwrap();
    assert_eq!(guard2.as_ref(), &vec![Some(1), Some(0)]);
    guard2.release();
    let guard3 = multex.lock_with(&key3, false).unwrap();
    assert_eq!(guard3.as_ref(), &vec![Some(0), Some(1)]);
    guard3.release();
    let guard4 = multex.lock_with(&key4, false).unwrap();
    assert_eq!(guard4.as_ref(), &vec![Some(0), Some(1)]);
    guard4.release();
    let plan = multex.get_mut_with(&key2);
    assert_eq!(plan, vec![Some(1), Some(0)]);
    let value = multex.get_mut();
    value.1 += 1;
    value.0 += 1;
    assert_eq!(multex.into_inner(), (2u8, 3u16));
}

#[test]
fn out_of_bounds_index_is_rejected() {
    let Err(error) = Key::<u8, _>::new([0, 8, 0]) else {
        panic!()
    };
    assert_eq!(error.index, 8);
    assert_eq!(error.kind, Invalid::OutOfBounds);
}
