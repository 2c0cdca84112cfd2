use lock_free_freelist::bits::capacity;
use lock_free_freelist::dump::ready_slots;
use lock_free_freelist::Dump;
use std::cell::RefCell;

fn drained(dump: &mut Dump) -> Vec<usize> {
    let seen = RefCell::new(Vec::new());
    dump.for_each(|raw| seen.borrow_mut().push(raw));
    seen.into_inner()
}

#[test]
fn new_dump_is_empty() {
    let dump = Dump::new();
    assert_eq!(dump.recycle(), Err(()));
    assert_eq!(dump.recycle(), Err(()));
}

#[test]
fn throw_then_recycle_returns_the_same_address() {
    let dump = Dump::new();
    assert_eq!(dump.throw(0xdead0), Ok(()));
    assert_eq!(dump.recycle(), Ok(0xdead0));
    assert_eq!(dump.recycle(), Err(()));
}

#[test]
fn recycle_takes_the_lowest_ready_slot() {
    let dump = Dump::new();
    assert_eq!(dump.throw(10), Ok(()));
    assert_eq!(dump.throw(20), Ok(()));
    assert_eq!(dump.throw(30), Ok(()));
    assert_eq!(dump.recycle(), Ok(10));
    // slot 0 is free again, so the next address goes there and comes out first.
    assert_eq!(dump.throw(40), Ok(()));
    assert_eq!(dump.recycle(), Ok(40));
    assert_eq!(dump.recycle(), Ok(20));
    assert_eq!(dump.recycle(), Ok(30));
    assert_eq!(dump.recycle(), Err(()));
}

#[test]
fn throw_on_a_held_dump_does_not_come_back_first() {
    let dump = Dump::new();
    assert_eq!(dump.throw(1), Ok(()));
    assert_eq!(dump.throw(2), Ok(()));
    assert_eq!(dump.recycle(), Ok(1));
    assert_eq!(dump.recycle(), Ok(2));
}

#[test]
fn full_dump_hands_the_address_back() {
    let dump = Dump::new();
    for i in 0..capacity() {
        assert_eq!(dump.throw(1000 + i), Ok(()));
    }
    assert_eq!(dump.throw(7), Err(7));
    assert_eq!(dump.throw(8), Err(8));
    for i in 0..capacity() {
        assert_eq!(dump.recycle(), Ok(1000 + i));
    }
}

#[test]
fn recycle_fails_after_the_last_address() {
    let dump = Dump::new();
    for i in 0..capacity() {
        assert_eq!(dump.throw(i + 1), Ok(()));
    }
    for i in 0..capacity() {
        assert_eq!(dump.recycle(), Ok(i + 1));
    }
    assert_eq!(dump.recycle(), Err(()));
}

#[test]
fn recycle_makes_room_in_a_full_dump() {
    let dump = Dump::new();
    for i in 0..capacity() {
        assert_eq!(dump.throw(i), Ok(()));
    }
    assert_eq!(dump.throw(500), Err(500));
    assert_eq!(dump.recycle(), Ok(0));
    assert_eq!(dump.throw(500), Ok(()));
    assert_eq!(dump.throw(501), Err(501));
    assert_eq!(dump.recycle(), Ok(500));
}

#[test]
fn other_slots_keep_their_addresses() {
    let dump = Dump::new();
    for i in 0..8 {
        assert_eq!(dump.throw(100 + i), Ok(()));
    }
    assert_eq!(dump.recycle(), Ok(100));
    assert_eq!(dump.recycle(), Ok(101));
    assert_eq!(dump.throw(900), Ok(()));
    assert_eq!(dump.recycle(), Ok(900));
    assert_eq!(dump.throw(901), Ok(()));
    assert_eq!(dump.throw(902), Ok(()));
    let mut out = Vec::new();
    while let Ok(raw) = dump.recycle() {
        out.push(raw);
    }
    assert_eq!(out, vec![901, 902, 102, 103, 104, 105, 106, 107]);
}

#[test]
fn for_each_visits_every_address_lowest_slot_first() {
    let mut dump = Dump::new();
    for raw in [5, 6, 7, 8] {
        assert_eq!(dump.throw(raw), Ok(()));
    }
    assert_eq!(dump.recycle(), Ok(5));
    assert_eq!(dump.recycle(), Ok(6));
    assert_eq!(dump.throw(9), Ok(()));
    assert_eq!(drained(&mut dump), vec![9, 7, 8]);
}

#[test]
fn for_each_on_an_empty_dump_visits_nothing() {
    let mut dump = Dump::new();
    assert_eq!(drained(&mut dump), Vec::<usize>::new());
    assert_eq!(dump.throw(3), Ok(()));
    assert_eq!(dump.recycle(), Ok(3));
    assert_eq!(drained(&mut dump), Vec::<usize>::new());
}

#[test]
fn for_each_leaves_the_dump_empty() {
    let mut dump = Dump::new();
    for i in 0..capacity() {
        assert_eq!(dump.throw(i + 1), Ok(()));
    }
    let seen = drained(&mut dump);
    assert_eq!(seen, (1..=capacity()).collect::<Vec<usize>>());
    assert_eq!(dump.recycle(), Err(()));
    assert_eq!(dump.recycle(), Err(()));
    assert_eq!(drained(&mut dump), Vec::<usize>::new());
    // After the drain every slot is free again.
    for i in 0..capacity() {
        assert_eq!(dump.throw(i + 50), Ok(()));
    }
    assert_eq!(dump.throw(1), Err(1));
    assert_eq!(dump.recycle(), Ok(50));
}

#[test]
fn duplicate_addresses_are_kept_apart() {
    let dump = Dump::new();
    assert_eq!(dump.throw(4), Ok(()));
    assert_eq!(dump.throw(4), Ok(()));
    assert_eq!(dump.recycle(), Ok(4));
    assert_eq!(dump.recycle(), Ok(4));
    assert_eq!(dump.recycle(), Err(()));
}

#[test]
fn ready_slots_of_the_zero_word() {
    assert_eq!(ready_slots(0), Vec::<usize>::new());
}

#[test]
fn ready_slots_are_the_set_bits_lowest_first() {
    assert_eq!(ready_slots(0b1), vec![0]);
    assert_eq!(ready_slots(0b1011), vec![0, 1, 3]);
    assert_eq!(ready_slots(0b1000_0000), vec![7]);
    assert_eq!(ready_slots(1 << (capacity() - 1)), vec![capacity() - 1]);
    assert_eq!(ready_slots((1 << (capacity() - 1)) | 0b100), vec![2, capacity() - 1]);
}

#[test]
fn ready_slots_of_the_full_word() {
    assert_eq!(ready_slots(usize::MAX), (0..capacity()).collect::<Vec<usize>>());
    assert_eq!(ready_slots(usize::MAX - 1), (1..capacity()).collect::<Vec<usize>>());
}

#[test]
fn hand_over_gives_the_address_back_on_a_claim_given_up() {
    let dump = Dump::new();
    assert_eq!(dump.hand_over(Err(usize::MAX), 9), Err(9));
    // Nothing was stored and nothing published.
    assert_eq!(dump.recycle(), Err(()));
}

#[test]
fn hand_over_stores_and_publishes_in_the_claimed_slot() {
    let mut dump = Dump::new();
    // A claim that replaced 0b0111 took slot 3, one that replaced 0 took slot 0.
    assert_eq!(dump.hand_over(Ok(0b0111), 33), Ok(()));
    assert_eq!(dump.hand_over(Ok(0), 11), Ok(()));
    assert_eq!(drained(&mut dump), vec![11, 33]);
}

#[test]
fn take_out_reports_empty_on_a_claim_given_up() {
    let dump = Dump::new();
    assert_eq!(dump.throw(5), Ok(()));
    assert_eq!(dump.take_out(Err(0)), Err(()));
    // The address is still there.
    assert_eq!(dump.recycle(), Ok(5));
}

#[test]
fn take_out_returns_what_the_claimed_slot_holds() {
    let dump = Dump::new();
    for raw in [10, 20, 30] {
        assert_eq!(dump.throw(raw), Ok(()));
    }
    // A claim that replaced 0b110 took slot 1, one that replaced 0b100 took slot 2.
    assert_eq!(dump.take_out(Ok(0b110)), Ok(20));
    assert_eq!(dump.take_out(Ok(0b100)), Ok(30));
    assert_eq!(dump.take_out(Ok(0b111)), Ok(10));
}

#[test]
fn take_out_frees_the_slot_for_the_next_throw() {
    let dump = Dump::new();
    for raw in 0..capacity() {
        assert_eq!(dump.throw(raw), Ok(()));
    }
    assert_eq!(dump.throw(99), Err(99));
    assert_eq!(dump.take_out(Ok(0b1000)), Ok(3));
    assert_eq!(dump.throw(99), Ok(()));
    assert_eq!(dump.throw(100), Err(100));
}
