//! The dump: a fixed array of slots shared by any number of threads, with two
//! bitmap words that say which slots writers and readers may take.
//!
//! Each operation is a short run of the steps of [`crate::protocol`]: every update
//! of a word is one atomic read-modify-write, and a cell is touched only by the
//! caller that owns its slot at that moment.

use crate::bits::{
    capacity, clear_bit, count_ones, find_first_one, find_first_zero, first_one, first_zero,
    has_bit, lemma_clear_decreases, lemma_first_one, lemma_first_zero, lemma_positions,
    lemma_positions_skip, lemma_without_bit, positions, positions_below, set_bit, width, with_bit,
    without_bit,
};
use crate::protocol::{DumpState, Step};
use std::sync::atomic::AtomicUsize;
use std::sync::atomic::Ordering;
use vstd::prelude::*;

verus! {

/// `AtomicUsize::fetch_update`: the compare-and-swap loop of the standard library.
/// It hands the word's value to `f` and, if `f` returns a new value, tries to swap
/// it in, starting over with the value it found whenever the word has changed
/// meanwhile. It returns `Ok` with the value that it replaced once a swap has
/// succeeded, so `f` returned `Some` for that value; it returns `Err` with the
/// value that it last read once `f` has returned `None` for it. The ordering for
/// loads must be one that a load accepts.
pub assume_specification<F>[ AtomicUsize::fetch_update::<F> ](
    atomic: &AtomicUsize,
    set_order: Ordering,
    fetch_order: Ordering,
    f: F,
) -> (outcome: Result<usize, usize>) where F: FnMut(usize) -> Option<usize>
    requires
        fetch_order == Ordering::Relaxed || fetch_order == Ordering::Acquire || fetch_order
            == Ordering::SeqCst,
        forall|word: usize| call_requires(f, (word,)),
    ensures
        match outcome {
            Ok(seen) => exists|next: usize| call_ensures(f, (seen,), Some(next)),
            Err(seen) => call_ensures(f, (seen,), None),
        },
;

/// The writer word after a writer has claimed the lowest free slot of `word`, or
/// `None` if every slot is taken.
pub open spec fn free_slot_claimed(word: usize) -> Option<usize> {
    if first_zero(word) < width() {
        Some(with_bit(word, first_zero(word)))
    } else {
        None
    }
}

/// The reader word after a reader has claimed the lowest ready slot of `word`, or
/// `None` if no slot is ready.
pub open spec fn ready_slot_claimed(word: usize) -> Option<usize> {
    if first_one(word) < width() {
        Some(without_bit(word, first_one(word)))
    } else {
        None
    }
}

/// Whether `claimed` is what a writer's claim can come back with: the word that it
/// replaced, which had a clear bit, or the word that made it give up, which had
/// none.
pub open spec fn writer_claim(claimed: Result<usize, usize>) -> bool {
    match claimed {
        Ok(seen) => free_slot_claimed(seen) is Some,
        Err(seen) => free_slot_claimed(seen) is None,
    }
}

/// Whether `claimed` is what a reader's claim can come back with: the word that it
/// replaced, which had a set bit, or the word that made it give up, which had
/// none.
pub open spec fn reader_claim(claimed: Result<usize, usize>) -> bool {
    match claimed {
        Ok(seen) => ready_slot_claimed(seen) is Some,
        Err(seen) => ready_slot_claimed(seen) is None,
    }
}

/// What a writer's claim on `word` comes back with if nothing changes the word
/// meanwhile.
pub open spec fn writer_claim_on(word: usize) -> Result<usize, usize> {
    if free_slot_claimed(word) is Some {
        Ok(word)
    } else {
        Err(word)
    }
}

/// What a reader's claim on `word` comes back with if nothing changes the word
/// meanwhile.
pub open spec fn reader_claim_on(word: usize) -> Result<usize, usize> {
    if ready_slot_claimed(word) is Some {
        Ok(word)
    } else {
        Err(word)
    }
}

/// What a throw of `raw` returns for what its claim came back with.
pub open spec fn thrown(claimed: Result<usize, usize>, raw: usize) -> Result<(), usize> {
    match claimed {
        Ok(_) => Ok(()),
        Err(_) => Err(raw),
    }
}

/// `word` with the bit of `slot` set.
pub open spec fn slot_marked(word: usize, slot: usize) -> usize {
    with_bit(word, slot as nat)
}

/// `word` with the bit of `slot` cleared.
pub open spec fn slot_unmarked(word: usize, slot: usize) -> usize {
    without_bit(word, slot as nat)
}

/// The words that the operations swap in are those of the protocol's steps: a
/// claim is made exactly when the step is enabled and gives the word that the step
/// gives, it is given up exactly when the step that gives up is enabled, and each
/// other update gives the word that its step gives.
pub proof fn law_updates_are_steps(s: DumpState, raw: usize, slot: usize)
    ensures
        free_slot_claimed(s.writer) is Some <==> s.enabled(Step::Claim { raw }),
        free_slot_claimed(s.writer) is None <==> s.enabled(Step::Reject { raw }),
        s.enabled(Step::Claim { raw }) ==> free_slot_claimed(s.writer) == Some(
            s.apply(Step::Claim { raw }).writer,
        ),
        ready_slot_claimed(s.reader) is Some <==> s.enabled(Step::Take),
        ready_slot_claimed(s.reader) is None <==> s.enabled(Step::Miss),
        s.enabled(Step::Take) ==> ready_slot_claimed(s.reader) == Some(s.apply(Step::Take).reader),
        slot_marked(s.reader, slot) == s.apply(Step::Publish { slot: slot as nat }).reader,
        slot_unmarked(s.writer, slot) == s.apply(Step::Release { slot: slot as nat }).writer,
{
}

/// What the operations return for what their claims come back with is what the
/// protocol gives for an operation that runs undisturbed: a throw succeeds or
/// hands its address back as the undisturbed throw does, and a recycle succeeds
/// exactly when the undisturbed recycle does.
pub proof fn law_outcomes_are_steps(s: DumpState, raw: usize)
    ensures
        writer_claim(writer_claim_on(s.writer)),
        thrown(writer_claim_on(s.writer), raw) == s.throw(raw).1,
        reader_claim(reader_claim_on(s.reader)),
        reader_claim_on(s.reader) is Ok <==> s.recycle().1 is Ok,
{
}

/// What a writer wants the writer word to become: the lowest free slot claimed.
pub fn claim_free_slot(word: usize) -> (next: Option<usize>)
    ensures
        next == free_slot_claimed(word),
{
    let slot = find_first_zero(word);
    if slot == capacity() {
        None
    } else {
        proof {
            lemma_first_zero(word);
        }
        Some(set_bit(word, slot))
    }
}

/// What a reader wants the reader word to become: the lowest ready slot claimed.
pub fn claim_ready_slot(word: usize) -> (next: Option<usize>)
    ensures
        next == ready_slot_claimed(word),
{
    let slot = find_first_one(word);
    if slot == capacity() {
        None
    } else {
        proof {
            lemma_first_one(word);
        }
        Some(clear_bit(word, slot))
    }
}

/// The slots that a drain visits for the reader word that it read: those whose bit
/// is set, lowest first.
pub fn ready_slots(word: usize) -> (slots: Vec<usize>)
    ensures
        slots@ == positions(word),
        slots@.len() == count_ones(word),
        forall|k: int|
            0 <= k < slots@.len() ==> (#[trigger] slots@[k]) < width() && has_bit(
                word,
                slots@[k] as nat,
            ),
        forall|a: int, b: int| 0 <= a < b < slots@.len() ==> slots@[a] < slots@[b],
{
    let mut slots: Vec<usize> = Vec::new();
    let mut pending = word;
    let ghost mut done: nat = 0;
    loop
        invariant
            done <= width(),
            slots@ == positions_below(word, done),
            forall|j: nat| j < width() ==> has_bit(pending, j) == (has_bit(word, j) && j >= done),
        ensures
            slots@ == positions(word),
        decreases pending,
    {
        let slot = find_first_one(pending);
        proof {
            lemma_first_one(pending);
        }
        if slot == capacity() {
            proof {
                lemma_positions_skip(word, done, width());
            }
            break ;
        }
        proof {
            lemma_clear_decreases(pending, slot as nat);
            lemma_positions_skip(word, done, slot as nat);
            assert forall|j: nat| j < width() implies has_bit(without_bit(pending, slot as nat), j)
                == (has_bit(word, j) && j >= slot + 1) by {
                lemma_without_bit(pending, slot as nat, j);
            }
            done = (slot + 1) as nat;
        }
        pending = clear_bit(pending, slot);
        slots.push(slot);
    }
    proof {
        lemma_positions(word, width());
    }
    slots
}

/// A bounded store of raw addresses for many producers and many consumers. It has
/// as many slots as a machine word has bits.
pub struct Dump {
    reader_bitmap: AtomicUsize,
    writer_bitmap: AtomicUsize,
    slots: Vec<AtomicUsize>,
}

impl Dump {
    #[verifier::type_invariant]
    spec fn has_all_slots(self) -> bool {
        self.slots@.len() == width()
    }

    /// The number of slots of the dump.
    pub closed spec fn slot_count(&self) -> nat {
        self.slots@.len()
    }

    /// An empty dump: both words zero, and one slot for each bit of a word.
    pub fn new() -> (dump: Self)
        ensures
            dump.slot_count() == width(),
    {
        let mut slots: Vec<AtomicUsize> = Vec::new();
        while slots.len() < capacity()
            invariant
                slots@.len() <= width(),
            decreases width() - slots@.len(),
        {
            slots.push(AtomicUsize::new(0));
        }
        Dump { reader_bitmap: AtomicUsize::new(0), writer_bitmap: AtomicUsize::new(0), slots }
    }

    /// Tries to retain `raw`. It fails only if it found every slot taken, and then
    /// hands `raw` back.
    ///
    /// On success it has taken the steps `Claim`, `Store` and `Publish` for the
    /// lowest slot that was free when its claim went through; on failure, the step
    /// `Reject`.
    pub fn throw(&self, raw: usize) -> (outcome: Result<(), usize>)
        ensures
            outcome matches Err(back) ==> back == raw,
    {
        let claimed = self.writer_bitmap.fetch_update(
            Ordering::Relaxed,
            Ordering::Relaxed,
            claim_free_slot,
        );
        self.hand_over(claimed, raw)
    }

    /// What a throw of `raw` does once its claim has come back as `claimed`. A
    /// claim that went through holds the word that it replaced: the slot is the
    /// lowest clear bit of that word, `raw` goes into its cell and the slot is
    /// published. A claim that was given up holds the word that made it so, with
    /// every bit set, and `raw` goes back to the caller.
    ///
    /// The slot is the caller's by its claim alone: `claimed` must be what a claim
    /// on the writer word of this dump came back with, and be handed in once.
    pub fn hand_over(&self, claimed: Result<usize, usize>, raw: usize) -> (outcome: Result<
        (),
        usize,
    >)
        requires
            writer_claim(claimed),
        ensures
            outcome == thrown(claimed, raw),
    {
        proof {
            use_type_invariant(self);
        }
        match claimed {
            Err(_) => Err(raw),
            Ok(seen) => {
                let slot = find_first_zero(seen);
                self.slots[slot].store(raw, Ordering::Relaxed);
                // Release: a reader that sees the bit sees the address in the cell.
                let publish = |word: usize| -> (next: Option<usize>)
                    ensures
                        next == Some(slot_marked(word, slot)),
                    { Some(set_bit(word, slot)) };
                let _ = self.reader_bitmap.fetch_update(
                    Ordering::Release,
                    Ordering::Relaxed,
                    publish,
                );
                Ok(())
            },
        }
    }

    /// Tries to take a retained address out. It fails only if it found no slot
    /// ready.
    ///
    /// On success it has taken the steps `Take`, `Load` and `Release` for the
    /// lowest slot that was ready when its claim went through, and returns what it
    /// read from that slot's cell; on failure, the step `Miss`.
    pub fn recycle(&self) -> (outcome: Result<usize, ()>) {
        // Acquire: pairs with the release that published the slot.
        let claimed = self.reader_bitmap.fetch_update(
            Ordering::Acquire,
            Ordering::Relaxed,
            claim_ready_slot,
        );
        self.take_out(claimed)
    }

    /// What a recycle does once its claim has come back as `claimed`. A claim that
    /// went through holds the word that it replaced: the slot is the lowest set bit
    /// of that word, what its cell holds is returned and the slot is released. A
    /// claim that was given up holds the word that made it so, the zero word, and
    /// the dump is reported empty.
    ///
    /// The slot is the caller's by its claim alone: `claimed` must be what a claim
    /// on the reader word of this dump came back with, and be handed in once.
    pub fn take_out(&self, claimed: Result<usize, usize>) -> (outcome: Result<usize, ()>)
        requires
            reader_claim(claimed),
        ensures
            outcome is Ok <==> claimed is Ok,
    {
        proof {
            use_type_invariant(self);
        }
        match claimed {
            Err(_) => Err(()),
            Ok(seen) => {
                let slot = find_first_one(seen);
                let raw = self.slots[slot].load(Ordering::Relaxed);
                let release = |word: usize| -> (next: Option<usize>)
                    ensures
                        next == Some(slot_unmarked(word, slot)),
                    { Some(clear_bit(word, slot)) };
                let _ = self.writer_bitmap.fetch_update(
                    Ordering::Relaxed,
                    Ordering::Relaxed,
                    release,
                );
                Ok(raw)
            },
        }
    }

    /// Empties the dump, calling `f` on each published address, lowest slot first.
    ///
    /// The exclusive borrow stands for the protocol's demand that no other
    /// operation is under way. A slot that a writer had claimed and not yet
    /// published would be skipped, and its address lost.
    pub fn for_each<F>(&mut self, f: F) where F: Fn(usize) -> ()
        requires
            forall|raw: usize| call_requires(f, (raw,)),
        ensures
            final(self).slot_count() == old(self).slot_count(),
    {
        proof {
            use_type_invariant(&*self);
        }
        let pending = self.reader_bitmap.load(Ordering::Relaxed);
        self.reader_bitmap.store(0, Ordering::Relaxed);
        self.writer_bitmap.store(0, Ordering::Relaxed);
        let visits = ready_slots(pending);
        let mut next: usize = 0;
        while next < visits.len()
            invariant
                self.slots@.len() == width(),
                self.slot_count() == old(self).slot_count(),
                forall|k: int| 0 <= k < visits@.len() ==> (#[trigger] visits@[k]) < width(),
                forall|raw: usize| call_requires(f, (raw,)),
            decreases visits.len() - next,
        {
            let raw = self.slots[visits[next]].load(Ordering::Relaxed);
            f(raw);
            next = next + 1;
        }
    }
}

} // verus!
