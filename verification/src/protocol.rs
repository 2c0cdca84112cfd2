//! The slot protocol of the dump, as a transition system over plain values.
//!
//! A dump is two bitmap words and one cell per bit. Every operation on a live dump
//! is a short run of atomic steps, and steps of different callers interleave freely.
//! This module states what each step does, the invariant that every step keeps, and
//! the laws that follow for whole runs. What the operations do when they run
//! undisturbed is in [`crate::sequential`].
//!
//! A step is an update of a word that went through, or the one look at a word that
//! made an operation give up. A compare-and-swap that fails changes nothing, and
//! one that succeeds found the word equal to the snapshot it computed from, so each
//! update is one step on the word as it stood. The model takes steps one after
//! another in a single order; it does not speak of memory orderings weaker than
//! that.

use crate::bits::{
    count_ones, first_one, first_zero, has_bit, lemma_first_one, lemma_first_one_none,
    lemma_first_zero, lemma_first_zero_none, lemma_same_bits, lemma_with_bit, lemma_without_bit,
    lemma_zero_word, ones_below, positions, positions_below, width, with_bit, without_bit,
};
use vstd::multiset::Multiset;
use vstd::prelude::*;

verus! {

/// Who owns a slot.
pub enum Phase {
    /// Nobody: the next writer may claim it.
    Free,
    /// A writer that is handing over `raw`; `stored` says whether `raw` is in the cell yet.
    Writing { raw: usize, stored: bool },
    /// Nobody: the cell holds a published address that the next reader may claim.
    Ready,
    /// A reader; `seen` is the address it has read from the cell, once it has read it.
    Reading { seen: Option<usize> },
}

/// One atomic step of an operation.
pub enum Step {
    /// A writer sets the lowest clear bit of the writer word, to hand over `raw`.
    Claim { raw: usize },
    /// A writer finds every bit of the writer word set, and hands `raw` back.
    Reject { raw: usize },
    /// The writer that owns `slot` writes its address into the cell.
    Store { slot: nat },
    /// The writer that owns `slot` sets the slot's bit in the reader word.
    Publish { slot: nat },
    /// A reader clears the lowest set bit of the reader word.
    Take,
    /// A reader finds no bit of the reader word set, and reports the dump empty.
    Miss,
    /// The reader that owns `slot` reads the cell.
    Load { slot: nat },
    /// The reader that owns `slot` clears the slot's bit in the writer word.
    Release { slot: nat },
}

impl Step {
    /// Whether the step is the look at a word that makes an operation give up.
    pub open spec fn gives_up(self) -> bool {
        self is Reject || self is Miss
    }
}

/// A dump at one instant: its two words, its cells, and the owner of each slot.
pub struct DumpState {
    pub writer: usize,
    pub reader: usize,
    pub cells: Seq<usize>,
    pub phases: Seq<Phase>,
}

/// The address that a slot answers for, if any: the one being handed over, the one
/// published in the cell, or the one being taken out.
pub open spec fn in_custody(phase: Phase, cell: usize) -> Multiset<usize> {
    match phase {
        Phase::Free => Multiset::empty(),
        Phase::Writing { raw, .. } => Multiset::singleton(raw),
        Phase::Ready => Multiset::singleton(cell),
        Phase::Reading { seen: None } => Multiset::singleton(cell),
        Phase::Reading { seen: Some(v) } => Multiset::singleton(v),
    }
}

/// The addresses in the cells below `n` whose bit in `word` is set, lowest slot first.
pub open spec fn ready_below(word: usize, cells: Seq<usize>, n: nat) -> Seq<usize>
    decreases n,
{
    if n == 0 {
        Seq::empty()
    } else if has_bit(word, (n - 1) as nat) {
        ready_below(word, cells, (n - 1) as nat).push(cells[n - 1])
    } else {
        ready_below(word, cells, (n - 1) as nat)
    }
}

impl DumpState {
    /// The dump as it is created: both words zero, every slot free.
    pub open spec fn empty() -> DumpState {
        DumpState {
            writer: 0,
            reader: 0,
            cells: Seq::new(width(), |i: int| 0usize),
            phases: Seq::new(width(), |i: int| Phase::Free),
        }
    }

    /// The words agree with the owner of slot `i`, and the cell with what its owner knows.
    pub open spec fn slot_ok(self, i: int) -> bool {
        match self.phases[i] {
            Phase::Free => !has_bit(self.writer, i as nat) && !has_bit(self.reader, i as nat),
            Phase::Writing { raw, stored } => {
                &&& has_bit(self.writer, i as nat)
                &&& !has_bit(self.reader, i as nat)
                &&& stored ==> self.cells[i] == raw
            },
            Phase::Ready => has_bit(self.writer, i as nat) && has_bit(self.reader, i as nat),
            Phase::Reading { seen } => {
                &&& has_bit(self.writer, i as nat)
                &&& !has_bit(self.reader, i as nat)
                &&& seen matches Some(v) ==> v == self.cells[i]
            },
        }
    }

    /// The invariant of the protocol.
    pub open spec fn wf(self) -> bool {
        &&& self.cells.len() == width()
        &&& self.phases.len() == width()
        &&& forall|i: int| 0 <= i < width() ==> #[trigger] self.slot_ok(i)
    }

    /// No operation is under way: every slot is free or ready.
    pub open spec fn quiescent(self) -> bool {
        forall|i: int|
            0 <= i < self.phases.len() ==> #[trigger] self.phases[i] == Phase::Free
                || self.phases[i] == Phase::Ready
    }

    /// The slot that `step` works on. It is the width for a step that finds none.
    pub open spec fn slot_of(self, step: Step) -> nat {
        match step {
            Step::Claim { .. } => first_zero(self.writer),
            Step::Reject { .. } => first_zero(self.writer),
            Step::Take => first_one(self.reader),
            Step::Miss => first_one(self.reader),
            Step::Store { slot } => slot,
            Step::Publish { slot } => slot,
            Step::Load { slot } => slot,
            Step::Release { slot } => slot,
        }
    }

    /// Whether `step` can be taken now.
    pub open spec fn enabled(self, step: Step) -> bool {
        let slot = self.slot_of(step);
        match step {
            Step::Claim { .. } => slot < width(),
            Step::Reject { .. } => slot >= width(),
            Step::Take => slot < width(),
            Step::Miss => slot >= width(),
            Step::Store { .. } => slot < width() && self.phases[slot as int] matches Phase::Writing {
                stored: false,
                ..
            },
            Step::Publish { .. } => slot < width()
                && self.phases[slot as int] matches Phase::Writing { stored: true, .. },
            Step::Load { .. } => slot < width() && self.phases[slot as int] == (Phase::Reading {
                seen: None,
            }),
            Step::Release { .. } => slot < width()
                && self.phases[slot as int] matches Phase::Reading { seen: Some(_) },
        }
    }

    /// The dump after `step`.
    pub open spec fn apply(self, step: Step) -> DumpState {
        let slot = self.slot_of(step);
        match step {
            Step::Claim { raw } => DumpState {
                writer: with_bit(self.writer, slot),
                phases: self.phases.update(slot as int, Phase::Writing { raw, stored: false }),
                ..self
            },
            Step::Reject { .. } => self,
            Step::Miss => self,
            Step::Store { .. } => {
                let raw = self.phases[slot as int]->Writing_raw;
                DumpState {
                    cells: self.cells.update(slot as int, raw),
                    phases: self.phases.update(slot as int, Phase::Writing { raw, stored: true }),
                    ..self
                }
            },
            Step::Publish { .. } => DumpState {
                reader: with_bit(self.reader, slot),
                phases: self.phases.update(slot as int, Phase::Ready),
                ..self
            },
            Step::Take => DumpState {
                reader: without_bit(self.reader, slot),
                phases: self.phases.update(slot as int, Phase::Reading { seen: None }),
                ..self
            },
            Step::Load { .. } => DumpState {
                phases: self.phases.update(
                    slot as int,
                    Phase::Reading { seen: Some(self.cells[slot as int]) },
                ),
                ..self
            },
            Step::Release { .. } => DumpState {
                writer: without_bit(self.writer, slot),
                phases: self.phases.update(slot as int, Phase::Free),
                ..self
            },
        }
    }

    /// The published addresses, lowest slot first.
    pub open spec fn ready(self) -> Seq<usize> {
        ready_below(self.reader, self.cells, width())
    }

    /// The addresses that the dump holds for its callers.
    pub open spec fn held(self) -> Multiset<usize> {
        self.ready().to_multiset()
    }

    /// The addresses that the slots below `n` answer for.
    pub open spec fn custody_below(self, n: nat) -> Multiset<usize>
        decreases n,
    {
        if n == 0 {
            Multiset::empty()
        } else {
            self.custody_below((n - 1) as nat).add(
                in_custody(self.phases[n - 1], self.cells[n - 1]),
            )
        }
    }

    /// Every address that the dump answers for: those it holds and those in flight.
    pub open spec fn custody(self) -> Multiset<usize> {
        self.custody_below(width())
    }
}

/// The address that enters the dump with `step`, if any.
pub open spec fn taken_in(step: Step) -> Multiset<usize> {
    match step {
        Step::Claim { raw } => Multiset::singleton(raw),
        _ => Multiset::empty(),
    }
}

/// The address that leaves the dump with `step`, if any.
pub open spec fn handed_out(s: DumpState, step: Step) -> Multiset<usize> {
    match step {
        Step::Release { slot } => in_custody(s.phases[slot as int], s.cells[slot as int]),
        _ => Multiset::empty(),
    }
}

/// The empty dump meets the invariant, is quiescent and holds nothing.
pub proof fn law_empty()
    ensures
        DumpState::empty().wf(),
        DumpState::empty().quiescent(),
        DumpState::empty().ready() == Seq::<usize>::empty(),
        DumpState::empty().custody() == Multiset::<usize>::empty(),
{
    let s = DumpState::empty();
    assert forall|j: nat| j < width() implies !has_bit(0usize, j) by {
        lemma_zero_word(j);
    }
    lemma_nothing_ready(0, s.cells, width());
    lemma_free_custody(s, width());
}

/// A word with no bit set below `n` has nothing ready below `n`.
pub(crate) proof fn lemma_nothing_ready(word: usize, cells: Seq<usize>, n: nat)
    requires
        forall|j: nat| j < n ==> !has_bit(word, j),
    ensures
        ready_below(word, cells, n) == Seq::<usize>::empty(),
    decreases n,
{
    if n > 0 {
        lemma_nothing_ready(word, cells, (n - 1) as nat);
    }
}

/// Free slots answer for nothing.
pub(crate) proof fn lemma_free_custody(s: DumpState, n: nat)
    requires
        n <= s.phases.len(),
        forall|i: int| 0 <= i < n ==> s.phases[i] == Phase::Free,
    ensures
        s.custody_below(n) == Multiset::<usize>::empty(),
    decreases n,
{
    if n > 0 {
        lemma_free_custody(s, (n - 1) as nat);
    }
}

/// Every step keeps the invariant.
pub proof fn law_step_keeps_wf(s: DumpState, step: Step)
    requires
        s.wf(),
        s.enabled(step),
    ensures
        s.apply(step).wf(),
{
    let t = s.apply(step);
    let slot = s.slot_of(step);
    lemma_first_zero(s.writer);
    lemma_first_one(s.reader);
    if !step.gives_up() {
        assert forall|i: int| 0 <= i < width() implies #[trigger] t.slot_ok(i) by {
            assert(s.slot_ok(i));
            lemma_with_bit(s.writer, slot, i as nat);
            lemma_with_bit(s.reader, slot, i as nat);
            lemma_without_bit(s.writer, slot, i as nat);
            lemma_without_bit(s.reader, slot, i as nat);
        }
    }
}

/// The cycle of a slot: free, writing, ready, reading, and free again. A writer
/// stores before it publishes, and a reader loads before it releases.
pub open spec fn moves_on(before: Phase, after: Phase) -> bool {
    match (before, after) {
        (Phase::Free, Phase::Writing { stored: false, .. }) => true,
        (Phase::Writing { raw, stored: false }, Phase::Writing { raw: same, stored: true }) => raw
            == same,
        (Phase::Writing { stored: true, .. }, Phase::Ready) => true,
        (Phase::Ready, Phase::Reading { seen: None }) => true,
        (Phase::Reading { seen: None }, Phase::Reading { seen: Some(_) }) => true,
        (Phase::Reading { seen: Some(_) }, Phase::Free) => true,
        _ => false,
    }
}

/// Every step moves its slot one place on in the cycle, and no step moves a slot
/// in any other way. A step that gives up moves nothing.
pub proof fn law_slot_cycle(s: DumpState, step: Step)
    requires
        s.wf(),
        s.enabled(step),
    ensures
        step.gives_up() ==> s.apply(step) == s,
        !step.gives_up() ==> moves_on(
            s.phases[s.slot_of(step) as int],
            s.apply(step).phases[s.slot_of(step) as int],
        ),
{
    if !step.gives_up() {
        lemma_first_zero(s.writer);
        lemma_first_one(s.reader);
        assert(s.slot_ok(s.slot_of(step) as int));
    }
}

/// Giving up has one cause each and changes nothing: a throw gives up exactly when
/// it cannot claim, which is when every slot is taken, and a recycle exactly when
/// it cannot take, which is when the reader word is zero. Neither takes an address
/// in nor hands one out.
pub proof fn law_giving_up(s: DumpState, raw: usize)
    ensures
        s.enabled(Step::Reject { raw }) <==> !s.enabled(Step::Claim { raw }),
        s.enabled(Step::Reject { raw }) <==> count_ones(s.writer) == width(),
        s.enabled(Step::Miss) <==> !s.enabled(Step::Take),
        s.enabled(Step::Miss) <==> s.reader == 0,
        s.apply(Step::Reject { raw }) == s,
        s.apply(Step::Miss) == s,
        taken_in(Step::Reject { raw }) == Multiset::<usize>::empty(),
        handed_out(s, Step::Miss) == Multiset::<usize>::empty(),
{
    lemma_first_zero(s.writer);
    lemma_first_zero_none(s.writer);
    lemma_first_one(s.reader);
    lemma_first_one_none(s.reader);
}

/// In every state that meets the invariant, a slot whose bit is set in the reader
/// word has its bit set in the writer word.
pub proof fn law_reader_within_writer(s: DumpState, i: nat)
    requires
        s.wf(),
        has_bit(s.reader, i),
    ensures
        has_bit(s.writer, i),
{
    assert(s.slot_ok(i as int));
}

/// A step touches one slot: the cell, the owner and both bits of every other slot
/// stay as they were. Only a `Store` writes a cell at all.
pub proof fn law_step_touches_one_slot(s: DumpState, step: Step, j: nat)
    requires
        s.wf(),
        s.enabled(step),
        j < width(),
        j != s.slot_of(step),
    ensures
        s.apply(step).cells[j as int] == s.cells[j as int],
        s.apply(step).phases[j as int] == s.phases[j as int],
        has_bit(s.apply(step).writer, j) == has_bit(s.writer, j),
        has_bit(s.apply(step).reader, j) == has_bit(s.reader, j),
        !(step is Store) ==> s.apply(step).cells == s.cells,
{
    let slot = s.slot_of(step);
    if !step.gives_up() {
        lemma_with_bit(s.writer, slot, j);
        lemma_with_bit(s.reader, slot, j);
        lemma_without_bit(s.writer, slot, j);
        lemma_without_bit(s.reader, slot, j);
    }
}

/// A release makes room: right after a reader has released its slot, a writer
/// finds a clear bit to claim, whatever the dump held before.
pub proof fn law_release_makes_room(s: DumpState, slot: nat, raw: usize)
    requires
        s.wf(),
        s.enabled(Step::Release { slot }),
    ensures
        s.apply(Step::Release { slot }).enabled(Step::Claim { raw }),
        first_zero(s.apply(Step::Release { slot }).writer) <= slot,
{
    let t = s.apply(Step::Release { slot });
    lemma_without_bit(s.writer, slot, slot);
    lemma_first_zero(t.writer);
}

/// The published addresses are what the cells hold at the positions of the set
/// bits of the reader word, lowest first: to walk those positions and read each
/// cell is to visit the published addresses in the order of a drain.
pub proof fn law_ready_at_positions(s: DumpState)
    ensures
        s.ready() == positions(s.reader).map(|k: int, slot: usize| s.cells[slot as int]),
{
    lemma_ready_at_positions(s.reader, s.cells, width());
}

proof fn lemma_ready_at_positions(word: usize, cells: Seq<usize>, n: nat)
    requires
        n <= width(),
    ensures
        ready_below(word, cells, n) == positions_below(word, n).map(
            |k: int, slot: usize| cells[slot as int],
        ),
    decreases n,
{
    let at = |k: int, slot: usize| cells[slot as int];
    if n > 0 {
        lemma_ready_at_positions(word, cells, (n - 1) as nat);
        let below = positions_below(word, (n - 1) as nat);
        if has_bit(word, (n - 1) as nat) {
            assert(below.push((n - 1) as usize).map(at) =~= below.map(at).push(cells[n - 1]));
        }
    } else {
        assert(positions_below(word, n).map(at) =~= Seq::<usize>::empty());
    }
}

/// The number of published addresses is the number of set bits of the reader word,
/// and no more than the width.
pub proof fn law_ready_count(s: DumpState)
    ensures
        s.ready().len() == count_ones(s.reader),
        s.held().len() == count_ones(s.reader),
        count_ones(s.reader) <= width(),
        count_ones(s.reader) == 0 <==> s.reader == 0,
{
    lemma_ready_len(s.reader, s.cells, width());
    s.ready().to_multiset_ensures();
    lemma_ready_split(s.reader, s.cells, width());
    lemma_first_one(s.reader);
    lemma_first_one_none(s.reader);
    if s.reader != 0 {
        let rest = ready_below(without_bit(s.reader, first_one(s.reader)), s.cells, width());
        assert(s.ready().len() == 1 + rest.len());
    }
}

/// Below `n` there are as many ready addresses as set bits, and at most `n`.
pub(crate) proof fn lemma_ready_len(word: usize, cells: Seq<usize>, n: nat)
    ensures
        ready_below(word, cells, n).len() == ones_below(word, n),
        ones_below(word, n) <= n,
    decreases n,
{
    if n > 0 {
        lemma_ready_len(word, cells, (n - 1) as nat);
    }
}

/// Two states that differ in one slot at most answer for the same addresses but
/// for that slot's.
proof fn lemma_custody_frame(s: DumpState, t: DumpState, slot: nat, n: nat)
    requires
        n <= s.phases.len() == t.phases.len(),
        s.cells.len() == t.cells.len() == s.phases.len(),
        slot < s.phases.len(),
        forall|j: int|
            0 <= j < n && j != slot ==> t.phases[j] == s.phases[j] && t.cells[j] == s.cells[j],
    ensures
        n <= slot ==> t.custody_below(n) == s.custody_below(n),
        n > slot ==> t.custody_below(n).add(
            in_custody(s.phases[slot as int], s.cells[slot as int]),
        ) == s.custody_below(n).add(in_custody(t.phases[slot as int], t.cells[slot as int])),
    decreases n,
{
    if n > 0 {
        lemma_custody_frame(s, t, slot, (n - 1) as nat);
        if n > slot {
            let was = in_custody(s.phases[slot as int], s.cells[slot as int]);
            let is = in_custody(t.phases[slot as int], t.cells[slot as int]);
            let low_s = s.custody_below((n - 1) as nat);
            let low_t = t.custody_below((n - 1) as nat);
            assert forall|a: usize|
                t.custody_below(n).add(was).count(a) == s.custody_below(n).add(is).count(a) by {
                if n - 1 > slot {
                    assert(low_t.add(was).count(a) == low_s.add(is).count(a));
                }
            }
        }
    }
}

/// A step changes what the dump answers for by the address that it takes in or
/// hands out, and by nothing else.
pub proof fn law_step_conserves(s: DumpState, step: Step)
    requires
        s.wf(),
        s.enabled(step),
    ensures
        s.apply(step).custody().add(handed_out(s, step)) == s.custody().add(taken_in(step)),
{
    let t = s.apply(step);
    let slot = s.slot_of(step);
    let given = handed_out(s, step);
    let taken = taken_in(step);
    if step.gives_up() {
        assert(t.custody().add(given) =~= s.custody().add(taken));
    } else {
        lemma_first_zero(s.writer);
        lemma_first_one(s.reader);
        assert(s.slot_ok(slot as int));
        lemma_custody_frame(s, t, slot, width());
        let before = in_custody(s.phases[slot as int], s.cells[slot as int]);
        let after = in_custody(t.phases[slot as int], t.cells[slot as int]);
        assert forall|a: usize|
            t.custody().add(given).count(a) == s.custody().add(taken).count(a) by {
            assert(t.custody().add(before).count(a) == s.custody().add(after).count(a));
        }
    }
}

/// Whether the steps can be taken one after another, starting in `s`.
pub open spec fn valid_run(s: DumpState, steps: Seq<Step>) -> bool
    decreases steps.len(),
{
    steps.len() == 0 || (s.enabled(steps[0]) && valid_run(s.apply(steps[0]), steps.drop_first()))
}

/// The dump after the steps, taken one after another starting in `s`.
pub open spec fn run(s: DumpState, steps: Seq<Step>) -> DumpState
    decreases steps.len(),
{
    if steps.len() == 0 {
        s
    } else {
        run(s.apply(steps[0]), steps.drop_first())
    }
}

/// The addresses that the steps took in.
pub open spec fn thrown_in(steps: Seq<Step>) -> Multiset<usize>
    decreases steps.len(),
{
    if steps.len() == 0 {
        Multiset::empty()
    } else {
        taken_in(steps[0]).add(thrown_in(steps.drop_first()))
    }
}

/// The addresses that the steps handed out, starting in `s`.
pub open spec fn recycled_out(s: DumpState, steps: Seq<Step>) -> Multiset<usize>
    decreases steps.len(),
{
    if steps.len() == 0 {
        Multiset::empty()
    } else {
        handed_out(s, steps[0]).add(recycled_out(s.apply(steps[0]), steps.drop_first()))
    }
}

/// Every run keeps the invariant, and what the dump answers for after it is what it
/// answered for before, plus what the run took in, minus what it handed out.
pub proof fn law_run_conserves(s: DumpState, steps: Seq<Step>)
    requires
        s.wf(),
        valid_run(s, steps),
    ensures
        run(s, steps).wf(),
        run(s, steps).custody().add(recycled_out(s, steps)) == s.custody().add(thrown_in(steps)),
    decreases steps.len(),
{
    if steps.len() > 0 {
        let t = s.apply(steps[0]);
        let rest = steps.drop_first();
        law_step_keeps_wf(s, steps[0]);
        law_step_conserves(s, steps[0]);
        law_run_conserves(t, rest);
        let end = run(s, steps);
        assert(end.custody().add(recycled_out(s, steps)) =~= end.custody().add(
            recycled_out(t, rest),
        ).add(handed_out(s, steps[0])));
        assert(s.custody().add(thrown_in(steps)) =~= s.custody().add(taken_in(steps[0])).add(
            thrown_in(rest),
        ));
    }
}

/// At rest the two words are the same: every slot that a writer has claimed is
/// published, and every slot that is not published is free.
pub proof fn law_words_agree_at_rest(s: DumpState)
    requires
        s.wf(),
        s.quiescent(),
    ensures
        s.writer == s.reader,
{
    assert forall|j: nat| j < width() implies has_bit(s.writer, j) == has_bit(s.reader, j) by {
        assert(s.slot_ok(j as int));
        assert(s.phases[j as int] == Phase::Free || s.phases[j as int] == Phase::Ready);
    }
    lemma_same_bits(s.writer, s.reader);
}

/// At rest the dump answers for the published addresses and for no others.
pub proof fn law_quiescent_custody(s: DumpState)
    requires
        s.wf(),
        s.quiescent(),
    ensures
        s.custody() == s.held(),
{
    lemma_quiescent_custody(s, width());
}

proof fn lemma_quiescent_custody(s: DumpState, n: nat)
    requires
        s.wf(),
        s.quiescent(),
        n <= width(),
    ensures
        s.custody_below(n) == ready_below(s.reader, s.cells, n).to_multiset(),
    decreases n,
{
    broadcast use vstd::seq_lib::group_to_multiset_ensures;

    if n > 0 {
        lemma_quiescent_custody(s, (n - 1) as nat);
        assert(s.slot_ok(n - 1));
    }
}

/// Between two moments of rest, the addresses in the dump are those that were in
/// it, plus those thrown in, minus those recycled out: none is lost and none is
/// made up.
pub proof fn law_conservation(s: DumpState, steps: Seq<Step>)
    requires
        s.wf(),
        s.quiescent(),
        valid_run(s, steps),
        run(s, steps).quiescent(),
    ensures
        run(s, steps).wf(),
        run(s, steps).held().add(recycled_out(s, steps)) == s.held().add(thrown_in(steps)),
{
    law_run_conserves(s, steps);
    law_quiescent_custody(s);
    law_quiescent_custody(run(s, steps));
}

/// Whatever the callers of a dump do from its creation on, in whatever order their
/// steps fall: the invariant holds, no bit is set in the reader word that is clear
/// in the writer word, every address handed out had been taken in, and the dump
/// answers for exactly the addresses taken in and not handed out. At rest those
/// are the addresses that it holds.
pub proof fn law_from_empty(steps: Seq<Step>)
    requires
        valid_run(DumpState::empty(), steps),
    ensures
        run(DumpState::empty(), steps).wf(),
        forall|i: nat|
            has_bit(run(DumpState::empty(), steps).reader, i) ==> has_bit(
                run(DumpState::empty(), steps).writer,
                i,
            ),
        recycled_out(DumpState::empty(), steps).subset_of(thrown_in(steps)),
        run(DumpState::empty(), steps).custody() == thrown_in(steps).sub(
            recycled_out(DumpState::empty(), steps),
        ),
        run(DumpState::empty(), steps).quiescent() ==> run(DumpState::empty(), steps).held()
            == thrown_in(steps).sub(recycled_out(DumpState::empty(), steps)),
{
    let start = DumpState::empty();
    let end = run(start, steps);
    let taken = thrown_in(steps);
    let given = recycled_out(start, steps);
    law_empty();
    law_run_conserves(start, steps);
    assert forall|i: nat| has_bit(end.reader, i) implies has_bit(end.writer, i) by {
        law_reader_within_writer(end, i);
    }
    assert forall|a: usize| given.count(a) <= taken.count(a) by {
        assert(end.custody().add(given).count(a) == start.custody().add(taken).count(a));
    }
    assert forall|a: usize| end.custody().count(a) == taken.sub(given).count(a) by {
        assert(end.custody().add(given).count(a) == start.custody().add(taken).count(a));
    }
    if end.quiescent() {
        law_quiescent_custody(end);
    }
}

/// An address leaves the dump no more often than it entered it: at every moment,
/// the times that it has been handed out and the times that the dump still answers
/// for it add up to the times that it was taken in. An address that its owner gives
/// up once is therefore handed to one taker, and is not handed out again before it
/// is thrown in again.
pub proof fn law_out_as_often_as_in(steps: Seq<Step>, raw: usize)
    requires
        valid_run(DumpState::empty(), steps),
    ensures
        recycled_out(DumpState::empty(), steps).count(raw) + run(
            DumpState::empty(),
            steps,
        ).custody().count(raw) == thrown_in(steps).count(raw),
{
    let start = DumpState::empty();
    law_empty();
    law_run_conserves(start, steps);
    assert(run(start, steps).custody().add(recycled_out(start, steps)).count(raw)
        == start.custody().add(thrown_in(steps)).count(raw));
}

/// The ready addresses are the one in the lowest slot whose bit is set, followed by
/// those that are ready once that bit is cleared.
pub(crate) proof fn lemma_ready_split(word: usize, cells: Seq<usize>, n: nat)
    requires
        n <= width(),
    ensures
        n <= first_one(word) ==> ready_below(word, cells, n) == Seq::<usize>::empty(),
        n > first_one(word) ==> ready_below(word, cells, n) == seq![
            cells[first_one(word) as int],
        ] + ready_below(without_bit(word, first_one(word)), cells, n),
    decreases n,
{
    let k = first_one(word);
    lemma_first_one(word);
    if n > 0 {
        lemma_ready_split(word, cells, (n - 1) as nat);
        if n > k {
            let rest = without_bit(word, k);
            lemma_without_bit(word, k, (n - 1) as nat);
            if n - 1 == k {
                assert forall|j: nat| j < k implies !has_bit(rest, j) by {
                    lemma_without_bit(word, k, j);
                }
                lemma_nothing_ready(rest, cells, k);
            }
        }
    }
}

} // verus!
