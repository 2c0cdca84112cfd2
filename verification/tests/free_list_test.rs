use lock_free_freelist::bits::capacity;
use lock_free_freelist::{FreeList, Reusable, Reuse, SmartPointer};
use std::any::Any;
use std::sync::atomic::{AtomicUsize, Ordering};
use std::sync::{Arc, Mutex};

// A stand-in for the heap: an object whose handle was given up for its address is
// parked here until the address is turned into a handle again.
static HEAP: Mutex<Vec<Option<Box<dyn Any + Send>>>> = Mutex::new(Vec::new());

const BASE: usize = 0x1000;

struct Parked<C: Reusable + Send + 'static> {
    contents: Option<C>,
    at: usize,
}

impl<C: Reusable + Send + 'static> SmartPointer for Parked<C> {
    type Target = C;

    fn address(&self) -> usize {
        BASE + self.at
    }

    fn contents(&self) -> &C {
        self.contents.as_ref().unwrap()
    }

    fn from_raw(raw: usize) -> Self {
        let parked = HEAP.lock().unwrap()[raw - BASE].take().expect("nothing is parked there");
        Parked { contents: Some(*parked.downcast::<C>().unwrap()), at: raw - BASE }
    }

    fn into_raw(mut smart_pointer: Self) -> usize {
        let contents = smart_pointer.contents.take().unwrap();
        HEAP.lock().unwrap()[smart_pointer.at] = Some(Box::new(contents));
        BASE + smart_pointer.at
    }

    fn new(contents: C) -> Self {
        let mut heap = HEAP.lock().unwrap();
        heap.push(None);
        Parked { contents: Some(contents), at: heap.len() - 1 }
    }

    fn target(&self) -> &C {
        self.contents.as_ref().unwrap()
    }

    fn target_mut(&mut self) -> &mut C {
        self.contents.as_mut().unwrap()
    }
}

// Contents that count their destructions.
struct Probe {
    label: usize,
    drops: Arc<AtomicUsize>,
}

impl Probe {
    fn new(label: usize, drops: &Arc<AtomicUsize>) -> Probe {
        Probe { label, drops: drops.clone() }
    }
}

impl Drop for Probe {
    fn drop(&mut self) {
        self.drops.fetch_add(1, Ordering::SeqCst);
    }
}

impl Reusable for Probe {
    fn set_new_val(&mut self, other: Self) {
        *self = other;
    }
}

fn counter() -> Arc<AtomicUsize> {
    Arc::new(AtomicUsize::new(0))
}

fn count(drops: &Arc<AtomicUsize>) -> usize {
    drops.load(Ordering::SeqCst)
}

#[test]
fn empty_reuse_miss() {
    let pool = FreeList::<Parked<String>>::new();
    match pool.reuse(String::from("e1")) {
        Ok(_) => panic!("a new pool has nothing to reuse"),
        Err(back) => assert_eq!(back, "e1"),
    }
    let guard = pool.allocate(String::from("e2"));
    assert_eq!(guard.target(), "e2");
    guard.release();
    match pool.reuse(String::from("e3")) {
        Ok(guard) => assert_eq!(guard.target(), "e3"),
        Err(_) => panic!("the released storage should be reused"),
    };
}

#[test]
fn reuse_discards_the_old_contents() {
    let drops = counter();
    let pool = FreeList::<Parked<Probe>>::new();
    let guard = pool.allocate(Probe::new(2, &drops));
    let address = guard.address();
    guard.release();
    // The object is retained, not destroyed.
    assert_eq!(count(&drops), 0);
    let guard = pool.reuse(Probe::new(3, &drops)).ok().expect("one object is retained");
    // The old contents went when the new ones came, and the storage is the same.
    assert_eq!(count(&drops), 1);
    assert_eq!(guard.target().label, 3);
    assert_eq!(guard.address(), address);
}

#[test]
fn allocate_uses_fresh_storage() {
    let pool = FreeList::<Parked<u32>>::new();
    let first = pool.allocate(7);
    let second = pool.allocate(8);
    assert_eq!(*first.target(), 7);
    assert_eq!(*second.target(), 8);
    assert_ne!(first.address(), second.address());
}

#[test]
fn reuse_or_alloc_allocates_on_a_miss() {
    let pool = FreeList::<Parked<u64>>::new();
    let guard = pool.reuse_or_alloc(11);
    assert_eq!(*guard.target(), 11);
    let address = guard.address();
    guard.release();
    let again = pool.reuse_or_alloc(12);
    assert_eq!(*again.target(), 12);
    assert_eq!(again.address(), address);
    let fresh = pool.reuse_or_alloc(13);
    assert_eq!(*fresh.target(), 13);
    assert_ne!(fresh.address(), address);
}

#[test]
fn guard_gives_mutable_access() {
    let pool = FreeList::<Parked<String>>::new();
    let mut guard = pool.allocate(String::from("ab"));
    guard.target_mut().push('c');
    assert_eq!(guard.target(), "abc");
    guard.release();
    let guard = pool.reuse(String::new()).ok().expect("one object is retained");
    assert_eq!(guard.target(), "");
}

// Holds one guard more than the dump has slots, releases them in the order that
// `pick` chooses among those that are left, and reuses what the dump kept.
fn saturate(pick: fn(usize) -> usize) {
    let drops = counter();
    let pool = FreeList::<Parked<Probe>>::new();
    let width = capacity();
    let mut live: Vec<Reuse<Parked<Probe>>> = Vec::new();
    for label in 0..width + 1 {
        live.push(pool.allocate(Probe::new(label, &drops)));
    }
    assert_eq!(count(&drops), 0);
    // The dump keeps as many as it has slots.
    let mut released = 0;
    while !live.is_empty() {
        let guard = live.remove(pick(live.len()));
        guard.release();
        released += 1;
        if released <= width {
            assert_eq!(count(&drops), 0);
        }
    }
    assert_eq!(released, width + 1);
    // The one that found the dump full was destroyed on the spot.
    assert_eq!(count(&drops), 1);
    for round in 0..width {
        match pool.reuse(Probe::new(1000 + round, &drops)) {
            Ok(guard) => {
                assert_eq!(guard.target().label, 1000 + round);
                live.push(guard);
            },
            Err(_) => panic!("reuse {} should succeed", round),
        }
    }
    // Each reuse destroyed the contents that it replaced.
    assert_eq!(count(&drops), 1 + width);
    match pool.reuse(Probe::new(5000, &drops)) {
        Ok(_) => panic!("nothing is left to reuse"),
        Err(back) => assert_eq!(back.label, 5000),
    };
}

#[test]
fn capacity_saturation() {
    saturate(|left| left - 1);
}

#[test]
fn capacity_saturation_first_to_last() {
    saturate(|_| 0);
}

#[test]
fn capacity_saturation_from_the_middle() {
    saturate(|left| left / 2);
}

#[test]
fn guard_binds_a_handle_to_a_pool() {
    let drops = counter();
    let pool = FreeList::<Parked<Probe>>::new();
    let handle = Parked::new(Probe::new(1, &drops));
    let address = handle.address();
    let guard = Reuse::new(handle, &pool);
    assert_eq!(guard.target().label, 1);
    assert_eq!(guard.address(), address);
    guard.release();
    assert_eq!(count(&drops), 0);
    let again = pool.reuse(Probe::new(2, &drops)).ok().expect("one object is retained");
    assert_eq!(again.address(), address);
    assert_eq!(count(&drops), 1);
}

#[test]
fn dropped_guard_destroys_its_object() {
    let drops = counter();
    let pool = FreeList::<Parked<Probe>>::new();
    drop(pool.allocate(Probe::new(1, &drops)));
    assert_eq!(count(&drops), 1);
    assert!(pool.reuse(Probe::new(2, &drops)).is_err());
}

#[test]
fn single_thread_ordering() {
    let pool = FreeList::<Parked<String>>::new();
    let a = pool.allocate(String::from("A"));
    let b = pool.allocate(String::from("B"));
    let c = pool.allocate(String::from("C"));
    let mut storages = vec![a.address(), b.address(), c.address()];
    a.release();
    b.release();
    c.release();
    let mut reused = Vec::new();
    let mut guards = Vec::new();
    for contents in ["x", "y", "z"] {
        let guard = pool.reuse(String::from(contents)).ok().expect("three objects are retained");
        assert_eq!(guard.target(), contents);
        reused.push(guard.address());
        guards.push(guard);
    }
    // The lowest slot comes out first, so the storages return in release order.
    assert_eq!(reused, storages);
    storages.sort();
    reused.sort();
    assert_eq!(reused, storages);
    assert!(pool.reuse(String::from("w")).is_err());
}

fn drain_safety(retained: usize) {
    let drops = counter();
    let mut pool = FreeList::<Parked<Probe>>::new();
    let mut live = Vec::new();
    for label in 0..retained {
        live.push(pool.allocate(Probe::new(label, &drops)));
    }
    for guard in live {
        guard.release();
    }
    assert_eq!(count(&drops), 0);
    pool.clear();
    assert_eq!(count(&drops), retained);
    match pool.reuse(Probe::new(9, &drops)) {
        Ok(_) => panic!("a cleared pool has nothing to reuse"),
        Err(back) => assert_eq!(back.label, 9),
    };
    pool.clear();
    // Only the contents that `reuse` handed back went since.
    assert_eq!(count(&drops), retained + 1);
}

#[test]
fn drain_safety_empty() {
    drain_safety(0);
}

#[test]
fn drain_safety_some() {
    drain_safety(5);
}

#[test]
fn drain_safety_full() {
    drain_safety(capacity());
}

#[test]
fn clear_then_retain_again() {
    let drops = counter();
    let mut pool = FreeList::<Parked<Probe>>::new();
    pool.allocate(Probe::new(1, &drops)).release();
    pool.clear();
    assert_eq!(count(&drops), 1);
    pool.allocate(Probe::new(2, &drops)).release();
    let guard = pool.reuse(Probe::new(3, &drops)).ok().expect("one object is retained");
    assert_eq!(guard.target().label, 3);
    assert_eq!(count(&drops), 2);
}

#[test]
fn every_object_is_destroyed_once() {
    let drops = counter();
    let mut pool = FreeList::<Parked<Probe>>::new();
    let rounds = 1000;
    for label in 0..rounds {
        let guard = pool.reuse_or_alloc(Probe::new(label, &drops));
        assert_eq!(guard.target().label, label);
        guard.release();
    }
    pool.clear();
    assert_eq!(count(&drops), rounds);
}

#[test]
fn reusable_replaces_the_value() {
    let mut n: u8 = 1;
    n.set_new_val(2);
    assert_eq!(n, 2);
    let mut wide: i128 = -1;
    wide.set_new_val(170141183460469231731687303715884105727);
    assert_eq!(wide, i128::MAX);
    let mut text = String::from("old");
    text.set_new_val(String::from("new"));
    assert_eq!(text, "new");
    let mut maybe: Option<u32> = Some(1);
    maybe.set_new_val(None);
    assert_eq!(maybe, None);
    let mut outcome: Result<u8, String> = Ok(1);
    outcome.set_new_val(Err(String::from("no")));
    assert_eq!(outcome, Err(String::from("no")));
}

#[test]
fn revive_hands_the_contents_back_when_nothing_came_out() {
    let drops = counter();
    let pool = FreeList::<Parked<Probe>>::new();
    match pool.revive(Err(()), Probe::new(4, &drops)) {
        Ok(_) => panic!("there is nothing to revive"),
        Err(back) => assert_eq!(back.label, 4),
    };
    assert_eq!(count(&drops), 1);
}

#[test]
fn revive_puts_the_contents_at_the_address() {
    let drops = counter();
    let pool = FreeList::<Parked<Probe>>::new();
    let address = Parked::into_raw(Parked::new(Probe::new(1, &drops)));
    let guard = pool.revive(Ok(address), Probe::new(2, &drops)).ok().expect("an address came out");
    assert_eq!(guard.address(), address);
    assert_eq!(guard.target().label, 2);
    // The contents that were there went when the new ones came.
    assert_eq!(count(&drops), 1);
    guard.release();
    let again = pool.reuse(Probe::new(3, &drops)).ok().expect("one object is retained");
    assert_eq!(again.address(), address);
}

#[test]
fn revive_or_allocate_revives_what_came_out() {
    let pool = FreeList::<Parked<String>>::new();
    let address = Parked::into_raw(Parked::new(String::from("old")));
    let guard = pool.revive_or_allocate(Ok(address), String::from("new"));
    assert_eq!(guard.address(), address);
    assert_eq!(guard.target(), "new");
}

#[test]
fn revive_or_allocate_allocates_when_nothing_came_out() {
    let pool = FreeList::<Parked<String>>::new();
    let kept = pool.allocate(String::from("kept"));
    let guard = pool.revive_or_allocate(Err(()), String::from("fresh"));
    assert_eq!(guard.target(), "fresh");
    assert_ne!(guard.address(), kept.address());
}

#[test]
fn reuse_fails_exactly_when_nothing_is_retained() {
    let pool = FreeList::<Parked<u32>>::new();
    assert_eq!(pool.reuse(1).err(), Some(1));
    pool.allocate(2).release();
    pool.allocate(3).release();
    assert!(pool.reuse(4).is_ok());
    assert!(pool.reuse(5).is_ok());
    assert_eq!(pool.reuse(6).err(), Some(6));
}
