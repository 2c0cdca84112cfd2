//! Operations that run undisturbed: what `throw`, `recycle` and a drain do to a
//! dump, and return, when no step of another caller falls between their own.
//!
//! This is what a single thread sees, and what every caller sees of a dump that it
//! has to itself. Each operation is the run of its steps in [`crate::protocol`].

use crate::bits::{
    count_ones, first_one, first_zero, has_bit, lemma_first_one, lemma_first_one_from_unique,
    lemma_first_zero, lemma_first_zero_from_unique, lemma_first_zero_none, lemma_ones_all,
    lemma_ones_with_bit, lemma_ones_without_bit, lemma_set_then_clear, lemma_with_bit,
    lemma_zero_word, ones_below, width, with_bit, without_bit,
};
use crate::protocol::{
    law_empty, law_from_empty, law_quiescent_custody, law_release_makes_room, law_step_keeps_wf,
    law_words_agree_at_rest, lemma_free_custody, lemma_nothing_ready, lemma_ready_len,
    lemma_ready_split, ready_below, recycled_out, run, thrown_in, valid_run, DumpState, Phase,
    Step,
};
use vstd::multiset::Multiset;
use vstd::prelude::*;

verus! {

impl DumpState {
    /// What a `throw` of `raw` does and returns when no other step comes between its
    /// own: it claims, stores and publishes, or it gives up and hands `raw` back.
    pub open spec fn throw(self, raw: usize) -> (DumpState, Result<(), usize>) {
        if self.enabled(Step::Claim { raw }) {
            let slot = first_zero(self.writer);
            (
                self.apply(Step::Claim { raw }).apply(Step::Store { slot }).apply(
                    Step::Publish { slot },
                ),
                Ok(()),
            )
        } else {
            (self.apply(Step::Reject { raw }), Err(raw))
        }
    }

    /// What a `recycle` does and returns when no other step comes between its own:
    /// it takes, loads and releases, or it gives up and reports the dump empty.
    pub open spec fn recycle(self) -> (DumpState, Result<usize, ()>) {
        if self.enabled(Step::Take) {
            let slot = first_one(self.reader);
            (
                self.apply(Step::Take).apply(Step::Load { slot }).apply(Step::Release { slot }),
                Ok(self.cells[slot as int]),
            )
        } else {
            (self.apply(Step::Miss), Err(()))
        }
    }

    /// What a drain does: it zeroes both words and visits the published addresses,
    /// lowest slot first.
    pub open spec fn drain(self) -> (DumpState, Seq<usize>) {
        (
            DumpState {
                writer: 0,
                reader: 0,
                cells: self.cells,
                phases: Seq::new(width(), |i: int| Phase::Free),
            },
            self.ready(),
        )
    }

    /// The dump after undisturbed throws of `addrs`, first to last.
    pub open spec fn throw_all(self, addrs: Seq<usize>) -> DumpState
        decreases addrs.len(),
    {
        if addrs.len() == 0 {
            self
        } else {
            self.throw_all(addrs.drop_last()).throw(addrs.last()).0
        }
    }

    /// The dump after up to `n` undisturbed recycles, and the addresses that they
    /// returned, first to last. The first recycle that finds the dump empty ends it.
    pub open spec fn recycle_many(self, n: nat) -> (DumpState, Seq<usize>)
        decreases n,
    {
        if n == 0 {
            (self, Seq::empty())
        } else {
            match self.recycle() {
                (next, Ok(raw)) => {
                    let (last, rest) = next.recycle_many((n - 1) as nat);
                    (last, seq![raw] + rest)
                },
                (_, Err(_)) => (self, Seq::empty()),
            }
        }
    }
}

/// Publishing `raw` in a slot whose bit was clear adds `raw` to the ready addresses
/// and changes no other.
proof fn lemma_ready_insert(word: usize, cells: Seq<usize>, slot: nat, raw: usize, n: nat)
    requires
        slot < width(),
        !has_bit(word, slot),
        cells.len() == width(),
        n <= width(),
    ensures
        n <= slot ==> ready_below(with_bit(word, slot), cells.update(slot as int, raw), n)
            == ready_below(word, cells, n),
        n > slot ==> ready_below(
            with_bit(word, slot),
            cells.update(slot as int, raw),
            n,
        ).to_multiset() == ready_below(word, cells, n).to_multiset().insert(raw),
    decreases n,
{
    broadcast use vstd::seq_lib::group_to_multiset_ensures;

    if n > 0 {
        lemma_ready_insert(word, cells, slot, raw, (n - 1) as nat);
        lemma_with_bit(word, slot, (n - 1) as nat);
    }
}

/// An undisturbed throw. With every slot taken it changes nothing and hands the
/// address back. Otherwise it succeeds: the lowest free slot becomes ready with the
/// address in its cell, every other slot stays as it was, and the dump holds the
/// address besides those it held.
pub proof fn law_throw(s: DumpState, raw: usize)
    requires
        s.wf(),
    ensures
        s.throw(raw).0.wf(),
        s.quiescent() ==> s.throw(raw).0.quiescent(),
        count_ones(s.writer) <= width(),
        count_ones(s.writer) == width() ==> s.throw(raw) == (s, Err::<(), usize>(raw)),
        count_ones(s.writer) < width() ==> {
            let slot = first_zero(s.writer);
            &&& slot < width()
            &&& s.throw(raw).1 == Ok::<(), usize>(())
            &&& s.throw(raw).0 == DumpState {
                writer: with_bit(s.writer, slot),
                reader: with_bit(s.reader, slot),
                cells: s.cells.update(slot as int, raw),
                phases: s.phases.update(slot as int, Phase::Ready),
            }
            &&& count_ones(s.throw(raw).0.writer) == count_ones(s.writer) + 1
            &&& s.throw(raw).0.held() == s.held().insert(raw)
        },
{
    lemma_first_zero(s.writer);
    lemma_ones_all(s.writer, width());
    if count_ones(s.writer) < width() {
        let slot = first_zero(s.writer);
        let claim = Step::Claim { raw };
        let store = Step::Store { slot };
        let publish = Step::Publish { slot };
        let s1 = s.apply(claim);
        let s2 = s1.apply(store);
        let s3 = s2.apply(publish);
        law_step_keeps_wf(s, claim);
        law_step_keeps_wf(s1, store);
        law_step_keeps_wf(s2, publish);
        assert(s3.phases =~= s.phases.update(slot as int, Phase::Ready));
        assert(s.slot_ok(slot as int));
        lemma_ones_with_bit(s.writer, slot, width());
        lemma_ready_insert(s.reader, s.cells, slot, raw, width());
    }
}

/// An undisturbed recycle. With nothing published it changes nothing and reports
/// the dump empty. Otherwise it returns the address in the lowest ready slot, that
/// slot becomes free, every other slot and every cell stays as it was, and the
/// dump holds what it held but for that address.
pub proof fn law_recycle(s: DumpState)
    requires
        s.wf(),
    ensures
        s.recycle().0.wf(),
        s.quiescent() ==> s.recycle().0.quiescent(),
        s.ready().len() == 0 ==> s.recycle() == (s, Err::<usize, ()>(())),
        s.ready().len() > 0 ==> {
            let slot = first_one(s.reader);
            &&& slot < width()
            &&& s.recycle().1 == Ok::<usize, ()>(s.ready()[0])
            &&& s.recycle().0 == DumpState {
                writer: without_bit(s.writer, slot),
                reader: without_bit(s.reader, slot),
                cells: s.cells,
                phases: s.phases.update(slot as int, Phase::Free),
            }
            &&& count_ones(s.recycle().0.writer) + 1 == count_ones(s.writer)
            &&& s.recycle().0.ready() == s.ready().drop_first()
            &&& s.recycle().0.held() == s.held().remove(s.ready()[0])
        },
{
    broadcast use vstd::seq_lib::group_to_multiset_ensures;

    lemma_first_one(s.reader);
    lemma_ready_split(s.reader, s.cells, width());
    if first_one(s.reader) < width() {
        let slot = first_one(s.reader);
        let take = Step::Take;
        let load = Step::Load { slot };
        let release = Step::Release { slot };
        let s1 = s.apply(take);
        let s2 = s1.apply(load);
        let s3 = s2.apply(release);
        law_step_keeps_wf(s, take);
        law_step_keeps_wf(s1, load);
        law_step_keeps_wf(s2, release);
        assert(s3.phases =~= s.phases.update(slot as int, Phase::Free));
        assert(s.slot_ok(slot as int));
        lemma_ones_without_bit(s.writer, slot, width());
        assert(s3.ready() =~= s.ready().drop_first());
        assert(s.ready().remove(0) =~= s.ready().drop_first());
    }
}

/// A drain at rest visits every address that the dump held, each once, and leaves
/// both words zero and every slot free. A recycle after it finds the dump empty,
/// and goes on finding it so as long as nothing is thrown.
pub proof fn law_drain(s: DumpState)
    requires
        s.wf(),
        s.quiescent(),
    ensures
        s.drain().0.wf(),
        s.drain().0.quiescent(),
        s.drain().0.writer == 0,
        s.drain().0.reader == 0,
        s.drain().1.to_multiset() == s.custody(),
        s.drain().0.ready() == Seq::<usize>::empty(),
        s.drain().0.custody() == Multiset::<usize>::empty(),
        s.drain().0.recycle() == (s.drain().0, Err::<usize, ()>(())),
        forall|n: nat| #[trigger] s.drain().0.recycle_many(n) == (s.drain().0, Seq::<usize>::empty()),
{
    let t = s.drain().0;
    law_quiescent_custody(s);
    assert forall|j: nat| j < width() implies !has_bit(0usize, j) by {
        lemma_zero_word(j);
    }
    lemma_nothing_ready(0, t.cells, width());
    lemma_free_custody(t, width());
    law_recycle(t);
}

/// From the creation of a dump to a drain at rest, every address that was thrown in
/// leaves exactly once: it is recycled out, or the drain visits it. Nothing is left
/// behind and nothing comes out twice.
pub proof fn law_all_accounted(steps: Seq<Step>)
    requires
        valid_run(DumpState::empty(), steps),
        run(DumpState::empty(), steps).quiescent(),
    ensures
        recycled_out(DumpState::empty(), steps).add(
            run(DumpState::empty(), steps).drain().1.to_multiset(),
        ) == thrown_in(steps),
        run(DumpState::empty(), steps).drain().0.custody() == Multiset::<usize>::empty(),
{
    let end = run(DumpState::empty(), steps);
    let taken = thrown_in(steps);
    let given = recycled_out(DumpState::empty(), steps);
    law_from_empty(steps);
    law_drain(end);
    assert forall|a: usize| given.add(taken.sub(given)).count(a) == taken.count(a) by {
        assert(given.count(a) <= taken.count(a));
    }
    assert(given.add(taken.sub(given)) =~= taken);
}

/// On a dump at rest that holds nothing, a throw followed by a recycle returns the
/// address that was thrown and leaves the dump empty: both words zero, every slot
/// free.
pub proof fn law_throw_then_recycle(s: DumpState, raw: usize)
    requires
        s.wf(),
        s.quiescent(),
        s.reader == 0,
    ensures
        s.throw(raw).1 == Ok::<(), usize>(()),
        s.throw(raw).0.recycle().1 == Ok::<usize, ()>(raw),
        s.throw(raw).0.recycle().0.writer == 0,
        s.throw(raw).0.recycle().0.reader == 0,
        s.throw(raw).0.recycle().0.quiescent(),
        s.throw(raw).0.recycle().0.ready() == Seq::<usize>::empty(),
{
    law_words_agree_at_rest(s);
    lemma_zero_word(0);
    lemma_first_zero(s.writer);
    law_throw_then_recycle_among_others(s, raw);
}

/// The same while operations of other callers are under way, as long as none of
/// their steps falls in between: on a dump that holds nothing and has a free slot,
/// a throw followed by a recycle returns the address that was thrown and leaves
/// both words and every owner as they were.
pub proof fn law_throw_then_recycle_among_others(s: DumpState, raw: usize)
    requires
        s.wf(),
        s.reader == 0,
        first_zero(s.writer) < width(),
    ensures
        s.throw(raw).1 == Ok::<(), usize>(()),
        s.throw(raw).0.recycle().1 == Ok::<usize, ()>(raw),
        s.throw(raw).0.recycle().0.writer == s.writer,
        s.throw(raw).0.recycle().0.reader == 0,
        s.throw(raw).0.recycle().0.phases == s.phases,
        s.throw(raw).0.recycle().0.ready() == Seq::<usize>::empty(),
{
    let slot = first_zero(s.writer);
    let t = s.throw(raw).0;
    lemma_first_zero(s.writer);
    assert(s.slot_ok(slot as int));
    assert forall|j: nat| j < width() implies !has_bit(0usize, j) by {
        lemma_zero_word(j);
    }
    assert forall|j: nat| j < slot implies !has_bit(t.reader, j) by {
        lemma_with_bit(s.reader, slot, j);
    }
    lemma_with_bit(s.reader, slot, slot);
    lemma_first_one_from_unique(t.reader, 0, slot);
    lemma_set_then_clear(s.writer, slot);
    lemma_set_then_clear(s.reader, slot);
    let u = t.recycle().0;
    lemma_nothing_ready(u.reader, u.cells, width());
}

/// Throws succeed as long as fewer slots are taken than the width: undisturbed
/// throws of no more addresses than there are free slots all succeed, the dump then
/// holds them besides what it held, and as many more slots are taken.
pub proof fn law_throw_all(s: DumpState, addrs: Seq<usize>)
    requires
        s.wf(),
        count_ones(s.writer) + addrs.len() <= width(),
    ensures
        s.throw_all(addrs).wf(),
        s.quiescent() ==> s.throw_all(addrs).quiescent(),
        count_ones(s.throw_all(addrs).writer) == count_ones(s.writer) + addrs.len(),
        s.throw_all(addrs).held() == s.held().add(addrs.to_multiset()),
        forall|i: int|
            0 <= i < addrs.len() ==> (#[trigger] s.throw_all(addrs.take(i)).throw(addrs[i])).1
                == Ok::<(), usize>(()),
    decreases addrs.len(),
{
    broadcast use vstd::seq_lib::group_to_multiset_ensures;

    if addrs.len() > 0 {
        let front = addrs.drop_last();
        let mid = s.throw_all(front);
        law_throw_all(s, front);
        law_throw(mid, addrs.last());
        assert(front.push(addrs.last()) =~= addrs);
        assert forall|i: int| 0 <= i < addrs.len() implies (#[trigger] s.throw_all(
            addrs.take(i),
        ).throw(addrs[i])).1 == Ok::<(), usize>(()) by {
            if i < front.len() {
                assert(front.take(i) =~= addrs.take(i));
            }
        }
    }
}

/// Filling the empty dump to the width: as many throws as the width all succeed,
/// the dump then holds exactly those addresses, and one more throw changes nothing
/// and hands its address back.
pub proof fn law_fill_then_reject(addrs: Seq<usize>, extra: usize)
    requires
        addrs.len() == width(),
    ensures
        forall|i: int|
            0 <= i < addrs.len() ==> (#[trigger] DumpState::empty().throw_all(
                addrs.take(i),
            ).throw(addrs[i])).1 == Ok::<(), usize>(()),
        DumpState::empty().throw_all(addrs).held() == addrs.to_multiset(),
        DumpState::empty().throw_all(addrs).throw(extra) == (
            DumpState::empty().throw_all(addrs),
            Err::<(), usize>(extra),
        ),
{
    broadcast use vstd::seq_lib::group_to_multiset_ensures;

    let s = DumpState::empty();
    law_empty();
    assert(ones_below(0usize, width()) == 0) by {
        lemma_ready_len(0usize, s.cells, width());
    }
    law_throw_all(s, addrs);
    law_throw(s.throw_all(addrs), extra);
}

/// The slots below `addrs.len()` are ready and hold `addrs`, slot by slot, and the
/// others are free.
spec fn filled_with(s: DumpState, addrs: Seq<usize>) -> bool {
    &&& s.wf()
    &&& s.quiescent()
    &&& addrs.len() <= width()
    &&& forall|j: nat| j < width() ==> has_bit(s.reader, j) == (j < addrs.len())
    &&& forall|i: int| 0 <= i < addrs.len() ==> s.cells[i] == addrs[i]
}

/// In a dump that is filled from the bottom, the addresses below `n` are ready in
/// slot order.
proof fn lemma_filled_ready(s: DumpState, addrs: Seq<usize>, n: nat)
    requires
        filled_with(s, addrs),
        n <= addrs.len(),
    ensures
        ready_below(s.reader, s.cells, n) == addrs.take(n as int),
    decreases n,
{
    if n > 0 {
        lemma_filled_ready(s, addrs, (n - 1) as nat);
        assert(addrs.take(n as int) =~= addrs.take(n - 1).push(addrs[n - 1]));
    } else {
        assert(addrs.take(0) =~= Seq::<usize>::empty());
    }
}

/// Above the filled slots of a dump that is filled from the bottom, nothing more
/// is ready.
proof fn lemma_filled_ready_above(s: DumpState, addrs: Seq<usize>, n: nat)
    requires
        filled_with(s, addrs),
        addrs.len() <= n <= width(),
    ensures
        ready_below(s.reader, s.cells, n) == addrs,
    decreases n,
{
    if n > addrs.len() {
        lemma_filled_ready_above(s, addrs, (n - 1) as nat);
    } else {
        lemma_filled_ready(s, addrs, n);
        assert(addrs.take(n as int) =~= addrs);
    }
}

/// Undisturbed throws into the empty dump fill it from the bottom.
proof fn lemma_fill(addrs: Seq<usize>)
    requires
        addrs.len() <= width(),
    ensures
        filled_with(DumpState::empty().throw_all(addrs), addrs),
    decreases addrs.len(),
{
    let start = DumpState::empty();
    law_empty();
    if addrs.len() == 0 {
        assert forall|j: nat| j < width() implies !has_bit(start.reader, j) by {
            lemma_zero_word(j);
        }
    } else {
        let front = addrs.drop_last();
        let mid = start.throw_all(front);
        let slot = front.len();
        lemma_fill(front);
        law_words_agree_at_rest(mid);
        lemma_first_zero_from_unique(mid.writer, 0, slot);
        law_throw(mid, addrs.last());
        lemma_first_zero_none(mid.writer);
        let end = mid.throw(addrs.last()).0;
        assert forall|j: nat| j < width() implies has_bit(end.reader, j) == (j < addrs.len()) by {
            lemma_with_bit(mid.reader, slot, j);
        }
        assert forall|i: int| 0 <= i < addrs.len() implies end.cells[i] == addrs[i] by {
            if i < slot {
                assert(mid.cells[i] == front[i]);
            }
        }
    }
}

/// Filling the empty dump and emptying it again: the addresses come out in the
/// order in which they went in, and after as many recycles as there were throws
/// the dump is empty and a recycle fails.
pub proof fn law_fill_then_empty(addrs: Seq<usize>)
    requires
        addrs.len() <= width(),
    ensures
        DumpState::empty().throw_all(addrs).ready() == addrs,
        DumpState::empty().throw_all(addrs).recycle_many(addrs.len()).1 == addrs,
        DumpState::empty().throw_all(addrs).recycle_many(addrs.len()).0.recycle().1 == Err::<
            usize,
            (),
        >(()),
{
    let full = DumpState::empty().throw_all(addrs);
    lemma_fill(addrs);
    lemma_filled_ready_above(full, addrs, width());
    law_recycle_until_empty(full);
}

/// Recycling until the dump is empty: as many undisturbed recycles as addresses are
/// published all succeed and return those addresses, lowest slot first; the dump
/// then holds nothing, and one more recycle finds it empty.
pub proof fn law_recycle_until_empty(s: DumpState)
    requires
        s.wf(),
    ensures
        s.recycle_many(s.ready().len()).1 == s.ready(),
        s.recycle_many(s.ready().len()).0.wf(),
        s.recycle_many(s.ready().len()).0.ready() == Seq::<usize>::empty(),
        s.recycle_many(s.ready().len()).0.recycle() == (
            s.recycle_many(s.ready().len()).0,
            Err::<usize, ()>(()),
        ),
    decreases s.ready().len(),
{
    let n = s.ready().len();
    law_recycle(s);
    if n > 0 {
        law_recycle_until_empty(s.recycle().0);
    }
}

/// After an undisturbed recycle that succeeds, an undisturbed throw succeeds, even
/// if every slot was taken before.
pub proof fn law_recycle_makes_room(s: DumpState, raw: usize)
    requires
        s.wf(),
        s.recycle().1 is Ok,
    ensures
        s.recycle().0.throw(raw).1 == Ok::<(), usize>(()),
{
    let slot = first_one(s.reader);
    let s2 = s.apply(Step::Take).apply(Step::Load { slot });
    law_step_keeps_wf(s, Step::Take);
    law_step_keeps_wf(s.apply(Step::Take), Step::Load { slot });
    law_release_makes_room(s2, slot, raw);
}

/// Round trip: an address that is thrown is handed back at once, the dump being
/// full and left as it was, or it is among the addresses that the next recycles
/// return before the dump is empty.
pub proof fn law_round_trip(s: DumpState, raw: usize)
    requires
        s.wf(),
    ensures
        s.throw(raw).1 is Err ==> s.throw(raw) == (s, Err::<(), usize>(raw)),
        s.throw(raw).1 is Ok ==> s.throw(raw).0.recycle_many(
            s.throw(raw).0.ready().len(),
        ).1.contains(raw),
{
    broadcast use vstd::seq_lib::group_to_multiset_ensures;

    let t = s.throw(raw).0;
    law_throw(s, raw);
    if s.throw(raw).1 is Ok {
        law_recycle_until_empty(t);
        assert(t.held().count(raw) > 0);
    }
}

} // verus!
