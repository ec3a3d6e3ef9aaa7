//! Judgement of hat notes: the player spins around while a hat note is in
//! its window.
use vstd::prelude::*;
use crate::constants::HAT_TIMING;
use crate::game_player::note_order::{
    count_id, count_in, ids_within, is_stable_order, ids_distinct, lemma_count_id_at_most_one, lemma_count_id_positive, lemma_count_in_add, lemma_count_in_places, lemma_counts_distinct, lemma_remove_ids_count, note_ids_distinct, lemma_remove_ids_len, lemma_remove_ids_sorted,
    order_before, remove_ids, remove_with_ids, sorted_by_timing, stable_order_by_timing, HasNoteId,
};
use crate::song::{GameChart, GameHatNote};
use super::NoteAccuracy;

verus! {

/// A hat note waiting for judgement, with its timing in milliseconds.
#[derive(Debug, Clone, Copy, PartialEq, Eq, Structural)]
pub struct PendingHat {
    pub id: u64,
    pub timing: u64,
}

impl HasNoteId for PendingHat {
    open spec fn spec_note_id(&self) -> u64 {
        self.id
    }

    open spec fn spec_timing(&self) -> u64 {
        self.timing
    }

    fn note_id(&self) -> (r: u64) {
        self.id
    }
}

#[derive(Debug, Clone, Copy, PartialEq, Eq, Structural)]
pub struct HatJudgeResult {
    pub accuracy: NoteAccuracy,
    pub note_id: u64,
}

/// Judges the hat notes of a chart.
pub struct HatTimingJudge {
    notes: Vec<PendingHat>,
}

/// The judgements of one call, scanning the waiting hat notes in order:
/// a note whose window has passed is missed, a note whose window has not
/// begun is skipped, and the first note in its window is hit (and ends the
/// scan) if the player is spinning.
pub open spec fn hat_scan(notes: Seq<PendingHat>, spinning: bool, tick: int) -> Seq<HatJudgeResult>
    decreases notes.len(),
{
    if notes.len() == 0 {
        seq![]
    } else {
        let n = notes[0];
        let difference = tick - n.timing;
        if difference > HAT_TIMING {
            seq![HatJudgeResult { accuracy: NoteAccuracy::Miss, note_id: n.id }] + hat_scan(
                notes.drop_first(),
                spinning,
                tick,
            )
        } else if difference < -HAT_TIMING {
            hat_scan(notes.drop_first(), spinning, tick)
        } else if spinning {
            seq![HatJudgeResult { accuracy: NoteAccuracy::Perfect, note_id: n.id }]
        } else {
            hat_scan(notes.drop_first(), spinning, tick)
        }
    }
}

pub open spec fn hat_ids(results: Seq<HatJudgeResult>) -> Seq<u64> {
    results.map_values(|r: HatJudgeResult| r.note_id)
}

/// The hat notes of a chart, with their timings, in chart order.
pub open spec fn chart_hats(chart: GameChart) -> Seq<PendingHat> {
    Seq::new(
        chart.hats@.len(),
        |k: int| PendingHat { id: chart.hats@[k].id, timing: chart.hats@[k].timing(chart.bpm, chart.delay) as u64 },
    )
}

/// `sorted` holds the elements of `src` in the order that `perm` gives.
pub open spec fn permuted<T>(src: Seq<T>, perm: Seq<usize>, sorted: Seq<T>) -> bool {
    &&& sorted.len() == perm.len()
    &&& forall|k: int| 0 <= k < sorted.len() ==> sorted[k] == src[#[trigger] perm[k] as int]
}

proof fn lemma_hat_scan_ids_within(notes: Seq<PendingHat>, spinning: bool, tick: int)
    ensures
        ids_within(hat_ids(hat_scan(notes, spinning, tick)), notes),
    decreases notes.len(),
{
    if notes.len() > 0 {
        let rest = notes.drop_first();
        lemma_hat_scan_ids_within(rest, spinning, tick);
        let r = hat_scan(notes, spinning, tick);
        let rr = hat_scan(rest, spinning, tick);
        assert forall|id: u64| #[trigger] count_in(hat_ids(r), id) <= count_id(notes, id) by {
            assert(count_id(notes, id) == (if notes[0].id == id { 1nat } else { 0nat }) + count_id(rest, id));
            let d = tick - notes[0].timing;
            if d > HAT_TIMING {
                assert(hat_ids(r).drop_first() =~= hat_ids(rr));
                assert(hat_ids(r)[0] == notes[0].id);
                assert(count_in(hat_ids(r), id) == (if notes[0].id == id { 1nat } else { 0nat }) + count_in(
                    hat_ids(rr),
                    id,
                ));
            } else if d < -HAT_TIMING || !spinning {
                assert(hat_ids(r) =~= hat_ids(rr));
            } else {
                assert(hat_ids(r).drop_first() =~= Seq::<u64>::empty());
                assert(hat_ids(r)[0] == notes[0].id);
                assert(count_in(hat_ids(r), id) == (if notes[0].id == id { 1nat } else { 0nat }) + count_in(
                    Seq::<u64>::empty(),
                    id,
                ));
            }
        }
    }
}

impl HatTimingJudge {
    /// The hat notes waiting for judgement, in judgement order.
    pub closed spec fn pending(&self) -> Seq<PendingHat> {
        self.notes@
    }

    pub closed spec fn wf(&self) -> bool {
        &&& forall|k: int| 0 <= k < self.notes@.len() ==> (#[trigger] self.notes@[k]).timing <= i64::MAX
        &&& sorted_by_timing(self.notes@)
    }

    /// A well-formed queue is in timing order.
    pub proof fn lemma_sorted(&self)
        requires
            self.wf(),
        ensures
            sorted_by_timing(self.pending()),
    {
    }

    /// Takes the hat notes of the chart, ordered by timing (chart order
    /// among equal timings).
    pub fn new(chart: &GameChart) -> (r: HatTimingJudge)
        requires
            forall|k: int| 0 <= k < chart.hats@.len() ==> (#[trigger] chart.hats@[k]).timing_ok(chart.bpm, chart.delay)
                && chart.hats@[k].timing(chart.bpm, chart.delay) <= i64::MAX,
        ensures
            r.wf(),
            sorted_by_timing(r.pending()),
            exists|perm: Seq<usize>|
                is_stable_order(chart_hats(*chart).map_values(|h: PendingHat| h.timing), perm)
                    && permuted(chart_hats(*chart), perm, r.pending()),
    {
        let ghost src = chart_hats(*chart);
        let mut flat: Vec<PendingHat> = Vec::new();
        let mut timings: Vec<u64> = Vec::new();
        let mut i: usize = 0;
        while i < chart.hats.len()
            invariant
                i <= chart.hats.len(),
                src == chart_hats(*chart),
                flat@ == src.take(i as int),
                timings@ == src.take(i as int).map_values(|h: PendingHat| h.timing),
                forall|k: int| 0 <= k < chart.hats@.len() ==> (#[trigger] chart.hats@[k]).timing_ok(chart.bpm, chart.delay)
                    && chart.hats@[k].timing(chart.bpm, chart.delay) <= i64::MAX,
            decreases chart.hats.len() - i,
        {
            let hat = &chart.hats[i];
            let timing = hat.timing_in_ms(chart.bpm, chart.delay);
            let p = PendingHat { id: hat.id, timing: timing };
            flat.push(p);
            timings.push(timing);
            proof {
                assert(src.take(i + 1) =~= src.take(i as int).push(p));
                assert(src.take(i + 1).map_values(|h: PendingHat| h.timing) =~= src.take(i as int).map_values(
                    |h: PendingHat| h.timing,
                ).push(timing));
            }
            i = i + 1;
        }
        proof {
            assert(src.take(src.len() as int) =~= src);
        }
        let perm = stable_order_by_timing(&timings);
        let mut notes: Vec<PendingHat> = Vec::new();
        let mut k: usize = 0;
        while k < perm.len()
            invariant
                k <= perm.len(),
                is_stable_order(timings@, perm@),
                flat@ == src,
                timings@ == src.map_values(|h: PendingHat| h.timing),
                notes.len() == k,
                forall|j: int| 0 <= j < k ==> notes@[j] == src[#[trigger] perm@[j] as int],
                forall|j: int| 0 <= j < src.len() ==> (#[trigger] src[j]).timing <= i64::MAX,
                forall|j: int| 0 <= j < k ==> (#[trigger] notes@[j]).timing <= i64::MAX,
            decreases perm.len() - k,
        {
            let idx = perm[k];
            notes.push(flat[idx]);
            k = k + 1;
        }
        let r = HatTimingJudge { notes };
        assert(permuted(src, perm@, r.pending()));
        assert forall|a: int, b: int| 0 <= a < b < r.notes@.len() implies #[trigger] r.notes@[a].spec_timing()
            <= #[trigger] r.notes@[b].spec_timing() by {
            assert(order_before(timings@, perm@[a] as int, perm@[b] as int));
            assert(r.notes@[a] == src[perm@[a] as int]);
            assert(r.notes@[b] == src[perm@[b] as int]);
        }
        r
    }

    /// Judges the hat notes at time `tick`, removes the judged notes and
    /// returns the judgements in scan order.
    pub fn judge(&mut self, spinning: bool, tick_in_milliseconds: u64) -> (r: Vec<HatJudgeResult>)
        requires
            old(self).wf(),
            tick_in_milliseconds <= i64::MAX,
        ensures
            final(self).wf(),
            sorted_by_timing(final(self).pending()),
            r@ == hat_scan(old(self).pending(), spinning, tick_in_milliseconds as int),
            final(self).pending() == remove_ids(old(self).pending(), hat_ids(r@)),
            final(self).pending().len() == old(self).pending().len() - r@.len(),
            forall|p: int|
                #![trigger old(self).pending()[p]]
                spinning && 0 <= p < old(self).pending().len() && in_hat_window(
                    old(self).pending()[p],
                    tick_in_milliseconds as int,
                ) && (forall|k: int|
                    0 <= k < p ==> !in_hat_window(#[trigger] old(self).pending()[k], tick_in_milliseconds as int))
                    ==> r@.len() >= 1 && r@.last() == (HatJudgeResult {
                    accuracy: NoteAccuracy::Perfect,
                    note_id: old(self).pending()[p].id,
                }) && (forall|k: int| 0 <= k < r@.len() - 1 ==> (#[trigger] r@[k]).accuracy == NoteAccuracy::Miss),
            (!spinning || (forall|k: int|
                0 <= k < old(self).pending().len() ==> !in_hat_window(
                    #[trigger] old(self).pending()[k],
                    tick_in_milliseconds as int,
                ))) ==> forall|k: int| 0 <= k < r@.len() ==> (#[trigger] r@[k]).accuracy == NoteAccuracy::Miss,
            forall|k: int|
                0 <= k < r@.len() && (#[trigger] r@[k]).accuracy == NoteAccuracy::Miss ==> exists|j: int|
                    0 <= j < old(self).pending().len() && old(self).pending()[j].id == r@[k].note_id
                        && tick_in_milliseconds - old(self).pending()[j].timing > 1500,
    {
        let ghost notes0 = self.notes@;
        let ghost scan0 = hat_scan(notes0, spinning, tick_in_milliseconds as int);
        let mut judged: Vec<HatJudgeResult> = Vec::new();
        let mut i: usize = 0;
        let mut done = false;
        assert(notes0.skip(0) =~= notes0);
        while i < self.notes.len() && !done
            invariant
                self.notes@ == notes0,
                self.wf(),
                tick_in_milliseconds <= i64::MAX,
                i <= self.notes.len(),
                !done ==> judged@ + hat_scan(notes0.skip(i as int), spinning, tick_in_milliseconds as int) == scan0,
                done ==> judged@ == scan0,
            decreases self.notes.len() - i,
        {
            let n = self.notes[i];
            let ghost rest = notes0.skip(i as int);
            proof {
                assert(rest[0] == n);
                assert(rest.drop_first() =~= notes0.skip(i + 1));
            }
            let difference = tick_in_milliseconds as i64 - n.timing as i64;
            if difference > HAT_TIMING {
                judged.push(HatJudgeResult { accuracy: NoteAccuracy::Miss, note_id: n.id });
                proof {
                    assert(judged@ + hat_scan(notes0.skip(i + 1), spinning, tick_in_milliseconds as int) =~= scan0);
                }
            } else if difference < -HAT_TIMING {
            } else if spinning {
                judged.push(HatJudgeResult { accuracy: NoteAccuracy::Perfect, note_id: n.id });
                done = true;
                proof {
                    assert(judged@ =~= scan0);
                }
            }
            i = i + 1;
        }
        proof {
            if !done {
                assert(notes0.skip(i as int) =~= Seq::<PendingHat>::empty());
                assert(judged@ =~= scan0);
            }
        }
        let mut ids: Vec<u64> = Vec::new();
        let mut k: usize = 0;
        while k < judged.len()
            invariant
                k <= judged.len(),
                ids@ == hat_ids(judged@).take(k as int),
            decreases judged.len() - k,
        {
            ids.push(judged[k].note_id);
            proof {
                assert(hat_ids(judged@).take(k + 1) =~= hat_ids(judged@).take(k as int).push(judged@[k as int].note_id));
            }
            k = k + 1;
        }
        proof {
            assert(hat_ids(judged@).take(judged.len() as int) =~= hat_ids(judged@));
            lemma_hat_scan_ids_within(notes0, spinning, tick_in_milliseconds as int);
            lemma_remove_ids_len(notes0, hat_ids(judged@));
            lemma_remove_ids_subset(notes0, hat_ids(judged@));
            lemma_remove_ids_sorted(notes0, hat_ids(judged@));
            lemma_spinning_hits_first_hat_in_window(notes0, spinning, tick_in_milliseconds as int, 0);
            assert forall|p: int|
                #![trigger notes0[p]]
                spinning && 0 <= p < notes0.len() && in_hat_window(notes0[p], tick_in_milliseconds as int) && (
                forall|k: int| 0 <= k < p ==> !in_hat_window(#[trigger] notes0[k], tick_in_milliseconds as int))
                implies judged@.len() >= 1 && judged@.last() == (HatJudgeResult {
                accuracy: NoteAccuracy::Perfect,
                note_id: notes0[p].id,
            }) && (forall|k: int| 0 <= k < judged@.len() - 1 ==> (#[trigger] judged@[k]).accuracy
                == NoteAccuracy::Miss) by {
                lemma_spinning_hits_first_hat_in_window(notes0, spinning, tick_in_milliseconds as int, p);
            }
        }
        remove_with_ids(&mut self.notes, &ids);
        judged
    }
}

/// A call reports no hat note whose window has not begun: each reported
/// note is a waiting note at most the hat window ahead of the tick.
pub proof fn lemma_hat_scan_not_early(notes: Seq<PendingHat>, spinning: bool, tick: int)
    ensures
        forall|k: int| 0 <= k < hat_scan(notes, spinning, tick).len() ==> exists|j: int| 0 <= j < notes.len()
            && notes[j].id == (#[trigger] hat_scan(notes, spinning, tick)[k]).note_id && notes[j].timing - tick
            <= HAT_TIMING,
    decreases notes.len(),
{
    if notes.len() > 0 {
        let rest = notes.drop_first();
        lemma_hat_scan_not_early(rest, spinning, tick);
        let r = hat_scan(notes, spinning, tick);
        let rr = hat_scan(rest, spinning, tick);
        let d = tick - notes[0].timing;
        assert forall|k: int| 0 <= k < r.len() implies exists|j: int| 0 <= j < notes.len() && notes[j].id == (
        #[trigger] r[k]).note_id && notes[j].timing - tick <= HAT_TIMING by {
            if d > HAT_TIMING {
                if k == 0 {
                    assert(notes[0].id == r[0].note_id);
                } else {
                    assert(r[k] == rr[k - 1]);
                    let j = choose|j: int| 0 <= j < rest.len() && rest[j].id == (#[trigger] rr[k - 1]).note_id
                        && rest[j].timing - tick <= HAT_TIMING;
                    assert(notes[j + 1] == rest[j]);
                }
            } else if d < -HAT_TIMING || !spinning {
                assert(r[k] == rr[k]);
                let j = choose|j: int| 0 <= j < rest.len() && rest[j].id == (#[trigger] rr[k]).note_id
                    && rest[j].timing - tick <= HAT_TIMING;
                assert(notes[j + 1] == rest[j]);
            } else {
                assert(notes[0].id == r[0].note_id);
            }
        }
    }
}

/// The ids of the hat notes that a run of judgements named, in order.
pub open spec fn judged_hat_ids(rounds: Seq<Seq<HatJudgeResult>>) -> Seq<u64>
    decreases rounds.len(),
{
    if rounds.len() == 0 {
        Seq::empty()
    } else {
        judged_hat_ids(rounds.drop_last()) + hat_ids(rounds.last())
    }
}

/// Over any run of hat judgements (each call scanning the waiting hat notes
/// and removing the ones it reports), a hat note is judged at most as many
/// times as it waited at the start (at most once where the ids are
/// distinct), and the judged hat notes are exactly those that left the
/// queue.
pub proof fn lemma_each_hat_judged_once(
    queues: Seq<Seq<PendingHat>>,
    rounds: Seq<Seq<HatJudgeResult>>,
    spinnings: Seq<bool>,
    ticks: Seq<int>,
)
    requires
        queues.len() == rounds.len() + 1,
        spinnings.len() == rounds.len(),
        ticks.len() == rounds.len(),
        forall|i: int| 0 <= i < rounds.len() ==> #[trigger] rounds[i] == hat_scan(queues[i], spinnings[i], ticks[i]),
        forall|i: int| 0 <= i < rounds.len() ==> #[trigger] queues[i + 1] == remove_ids(queues[i], hat_ids(rounds[i])),
    ensures
        forall|x: u64| #[trigger] count_in(judged_hat_ids(rounds), x) + count_id(queues.last(), x) == count_id(queues[0], x),
        forall|x: u64| #[trigger] count_in(judged_hat_ids(rounds), x) <= count_id(queues[0], x),
        judged_hat_ids(rounds).len() + queues.last().len() == queues[0].len(),
    decreases rounds.len(),
{
    if rounds.len() > 0 {
        let n = rounds.len() - 1;
        let q2 = queues.drop_last();
        let r2 = rounds.drop_last();
        assert forall|i: int| 0 <= i < r2.len() implies #[trigger] r2[i] == hat_scan(q2[i], spinnings.drop_last()[i], ticks.drop_last()[i]) by {
            assert(rounds[i] == hat_scan(queues[i], spinnings[i], ticks[i]));
        }
        assert forall|i: int| 0 <= i < r2.len() implies #[trigger] q2[i + 1] == remove_ids(q2[i], hat_ids(r2[i])) by {
            assert(queues[i + 1] == remove_ids(queues[i], hat_ids(rounds[i])));
        }
        lemma_each_hat_judged_once(q2, r2, spinnings.drop_last(), ticks.drop_last());
        assert(rounds[n] == hat_scan(queues[n], spinnings[n], ticks[n]));
        assert(queues[n + 1] == remove_ids(queues[n], hat_ids(rounds[n])));
        let ids = hat_ids(rounds[n]);
        lemma_hat_scan_ids_within(queues[n], spinnings[n], ticks[n]);
        lemma_remove_ids_count(queues[n], ids);
        lemma_remove_ids_len(queues[n], ids);
        assert(q2.last() == queues[n]);
        assert forall|x: u64| #[trigger] count_in(judged_hat_ids(rounds), x) + count_id(queues.last(), x) == count_id(queues[0], x) by {
            lemma_count_in_add(judged_hat_ids(r2), ids, x);
        }
    }
}

/// The hat note is within the hat window of the tick: at most 1500 ms
/// before or after it.
pub open spec fn in_hat_window(n: PendingHat, tick: int) -> bool {
    -1500 <= tick - n.timing <= 1500
}

/// Spinning hits the first waiting hat note within the window of the tick:
/// the call reports it as perfect, and reports nothing else but misses of
/// the hat notes before it whose window has passed. Not spinning, or with
/// no hat note in the window, the call reports only misses, each of a hat
/// note more than the window behind the tick.
pub proof fn lemma_spinning_hits_first_hat_in_window(notes: Seq<PendingHat>, spinning: bool, tick: int, p: int)
    ensures
        ({
            let r = hat_scan(notes, spinning, tick);
            &&& (spinning && 0 <= p < notes.len() && in_hat_window(notes[p], tick) && (forall|k: int|
                0 <= k < p ==> !in_hat_window(#[trigger] notes[k], tick))) ==> {
                &&& r.len() >= 1
                &&& r.last() == (HatJudgeResult { accuracy: NoteAccuracy::Perfect, note_id: notes[p].id })
                &&& forall|k: int| 0 <= k < r.len() - 1 ==> (#[trigger] r[k]).accuracy == NoteAccuracy::Miss
            }
            &&& (!spinning || (forall|k: int| 0 <= k < notes.len() ==> !in_hat_window(#[trigger] notes[k], tick)))
                ==> forall|k: int| 0 <= k < r.len() ==> (#[trigger] r[k]).accuracy == NoteAccuracy::Miss
            &&& forall|k: int| 0 <= k < r.len() && (#[trigger] r[k]).accuracy == NoteAccuracy::Miss ==> exists|j: int|
                0 <= j < notes.len() && notes[j].id == r[k].note_id && tick - notes[j].timing > 1500
        }),
    decreases notes.len(),
{
    if notes.len() > 0 {
        let rest = notes.drop_first();
        let r = hat_scan(notes, spinning, tick);
        let rr = hat_scan(rest, spinning, tick);
        lemma_spinning_hits_first_hat_in_window(rest, spinning, tick, p - 1);
        let d = tick - notes[0].timing;
        if spinning && 0 <= p < notes.len() && in_hat_window(notes[p], tick) && (forall|k: int|
            0 <= k < p ==> !in_hat_window(#[trigger] notes[k], tick)) {
            if p > 0 {
                assert(!in_hat_window(notes[0], tick));
                assert(rest[p - 1] == notes[p]);
                assert forall|k: int| 0 <= k < p - 1 implies !in_hat_window(#[trigger] rest[k], tick) by {
                    assert(rest[k] == notes[k + 1]);
                }
                if d > 1500 {
                    assert(r == seq![HatJudgeResult { accuracy: NoteAccuracy::Miss, note_id: notes[0].id }] + rr);
                    assert forall|k: int| 0 <= k < r.len() - 1 implies (#[trigger] r[k]).accuracy == NoteAccuracy::Miss by {
                        if k > 0 {
                            assert(r[k] == rr[k - 1]);
                        }
                    }
                } else {
                    assert(r == rr);
                }
            } else {
                assert(r == seq![HatJudgeResult { accuracy: NoteAccuracy::Perfect, note_id: notes[0].id }]);
            }
        }
        if !spinning || (forall|k: int| 0 <= k < notes.len() ==> !in_hat_window(#[trigger] notes[k], tick)) {
            if spinning {
                assert forall|k: int| 0 <= k < rest.len() implies !in_hat_window(#[trigger] rest[k], tick) by {
                    assert(rest[k] == notes[k + 1]);
                }
                assert(!in_hat_window(notes[0], tick));
            }
            assert forall|k: int| 0 <= k < r.len() implies (#[trigger] r[k]).accuracy == NoteAccuracy::Miss by {
                if d > 1500 {
                    if k > 0 {
                        assert(r[k] == rr[k - 1]);
                    }
                } else {
                    assert(r[k] == rr[k]);
                }
            }
        }
        assert forall|k: int| 0 <= k < r.len() && (#[trigger] r[k]).accuracy == NoteAccuracy::Miss implies exists|j: int|
            0 <= j < notes.len() && notes[j].id == r[k].note_id && tick - notes[j].timing > 1500 by {
            if d > 1500 {
                if k == 0 {
                    assert(notes[0].id == r[0].note_id);
                } else {
                    assert(r[k] == rr[k - 1]);
                    let j = choose|j: int| 0 <= j < rest.len() && rest[j].id == rr[k - 1].note_id && tick
                        - rest[j].timing > 1500;
                    assert(notes[j + 1] == rest[j]);
                }
            } else if d < -1500 || !spinning {
                assert(r[k] == rr[k]);
                let j = choose|j: int| 0 <= j < rest.len() && rest[j].id == rr[k].note_id && tick - rest[j].timing > 1500;
                assert(notes[j + 1] == rest[j]);
            } else {
                assert(r[k].accuracy == NoteAccuracy::Perfect);
            }
        }
    }
}

/// The ids of the hat notes of a chart.
pub open spec fn chart_hat_ids(chart: GameChart) -> Seq<u64> {
    chart.hats@.map_values(|h: GameHatNote| h.id)
}

/// `x` is the id of a hat note of the chart.
pub open spec fn is_chart_hat_id(chart: GameChart, x: u64) -> bool {
    exists|c: int| 0 <= c < chart_hat_ids(chart).len() && chart_hat_ids(chart)[c] == x
}

/// Hat judgements from the start of a chart whose hat notes have distinct
/// ids (the queue holding the chart's hat notes, as `new` makes it): over
/// any run of judgements the judged hat ids are pairwise distinct (no hat
/// note is judged twice), each is the id of a hat note of the chart, and
/// no call reports a hat note more than the hat window ahead of its tick.
pub proof fn lemma_play_judges_each_hat_once(
    chart: GameChart,
    perm: Seq<usize>,
    queues: Seq<Seq<PendingHat>>,
    rounds: Seq<Seq<HatJudgeResult>>,
    spinnings: Seq<bool>,
    ticks: Seq<int>,
)
    requires
        is_stable_order(chart_hats(chart).map_values(|h: PendingHat| h.timing), perm),
        permuted(chart_hats(chart), perm, queues[0]),
        ids_distinct(chart_hat_ids(chart)),
        queues.len() == rounds.len() + 1,
        spinnings.len() == rounds.len(),
        ticks.len() == rounds.len(),
        forall|i: int| 0 <= i < rounds.len() ==> #[trigger] rounds[i] == hat_scan(queues[i], spinnings[i], ticks[i]),
        forall|i: int| 0 <= i < rounds.len() ==> #[trigger] queues[i + 1] == remove_ids(queues[i], hat_ids(rounds[i])),
    ensures
        ids_distinct(judged_hat_ids(rounds)),
        forall|a: int| 0 <= a < judged_hat_ids(rounds).len() ==> is_chart_hat_id(chart, #[trigger] judged_hat_ids(rounds)[a]),
        forall|i: int, k: int| 0 <= i < rounds.len() && 0 <= k < rounds[i].len() ==> exists|j: int| 0 <= j < queues[i].len()
            && queues[i][j].id == (#[trigger] rounds[i][k]).note_id && queues[i][j].timing - ticks[i] <= HAT_TIMING,
{
    let src = chart_hats(chart);
    let q0 = queues[0];
    assert(note_ids_distinct(q0)) by {
        assert forall|a: int, b: int| 0 <= a < b < q0.len() implies #[trigger] q0[a].spec_note_id() != #[trigger] q0[b].spec_note_id() by {
            let pa = perm[a] as int;
            let pb = perm[b] as int;
            assert(q0[a] == src[pa] && q0[b] == src[pb]);
            if pa < pb {
                assert(chart_hat_ids(chart)[pa] != chart_hat_ids(chart)[pb]);
            } else {
                assert(chart_hat_ids(chart)[pb] != chart_hat_ids(chart)[pa]);
            }
        }
    }
    lemma_each_hat_judged_once(queues, rounds, spinnings, ticks);
    let ids = judged_hat_ids(rounds);
    assert forall|x: u64| #[trigger] count_in(ids, x) <= 1 by {
        lemma_count_id_at_most_one(q0, x);
    }
    lemma_counts_distinct(ids);
    assert forall|a: int| 0 <= a < ids.len() implies is_chart_hat_id(chart, #[trigger] ids[a]) by {
        lemma_count_in_places(ids, a, a);
        lemma_count_id_positive(q0, ids[a]);
        let k = choose|k: int| 0 <= k < q0.len() && (#[trigger] q0[k]).spec_note_id() == ids[a];
        let pk = perm[k] as int;
        assert(q0[k] == src[pk]);
        assert(chart_hat_ids(chart)[pk] == ids[a]);
    }
    assert forall|i: int, k: int| 0 <= i < rounds.len() && 0 <= k < rounds[i].len() implies exists|j: int| 0 <= j
        < queues[i].len() && queues[i][j].id == (#[trigger] rounds[i][k]).note_id && queues[i][j].timing - ticks[i]
        <= HAT_TIMING by {
        lemma_hat_scan_not_early(queues[i], spinnings[i], ticks[i]);
        assert(rounds[i] == hat_scan(queues[i], spinnings[i], ticks[i]));
    }
}

/// Removing elements keeps every remaining element one of the originals.
proof fn lemma_remove_ids_subset(s: Seq<PendingHat>, ids: Seq<u64>)
    ensures
        forall|k: int| 0 <= k < remove_ids(s, ids).len() ==> s.contains(#[trigger] remove_ids(s, ids)[k]),
    decreases ids.len(),
{
    crate::game_player::note_order::lemma_remove_ids_contained(s, ids);
}

} // verus!
