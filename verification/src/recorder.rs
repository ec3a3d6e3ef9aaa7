//! Recording a chart while the music plays: the beat split that a moment
//! falls in, the face that each stick hit in each split, and the chart
//! notes made of those hits.
use vstd::prelude::*;
use std::collections::HashMap;
use vstd::std_specs::hash::spec_hash_map_iter;
use vstd::std_specs::iter::IteratorSpec;
use crate::game_player::janggu_state_with_tick::JangguStateWithTick;
use crate::game_player::note_order::{is_stable_order, stable_order_by_timing};
use crate::game_player::timing_judge::hat_timing_judge::permuted;
use crate::janggu::{JangguFace, JangguStick};
use crate::song::GameNote;

verus! {

/// One letter for a face in the recording log: `L` for the left face, `R`
/// for the right face, `_` for no hit.
pub fn janggu_face_to_one_letter_str(face: Option<&JangguFace>) -> (r: &'static str)
    ensures
        r@ == (match face {
            Some(JangguFace::Gungpyeon) => "L"@,
            Some(JangguFace::Yeolpyeon) => "R"@,
            None => "_"@,
        }),
{
    match face {
        Some(JangguFace::Gungpyeon) => "L",
        Some(JangguFace::Yeolpyeon) => "R",
        None => "_",
    }
}

/// Hits in split order: each split at most once.
pub open spec fn keys_increasing(hits: Seq<(u64, JangguFace)>) -> bool {
    forall|i: int, j: int| 0 <= i < j < hits.len() ==> #[trigger] hits[i].0 < #[trigger] hits[j].0
}

/// The hits as a map from split to face.
pub open spec fn keyed(hits: Seq<(u64, JangguFace)>) -> Map<u64, JangguFace>
    decreases hits.len(),
{
    if hits.len() == 0 {
        Map::empty()
    } else {
        keyed(hits.drop_last()).insert(hits.last().0, hits.last().1)
    }
}

proof fn lemma_keyed(hits: Seq<(u64, JangguFace)>)
    requires
        keys_increasing(hits),
    ensures
        forall|i: int| 0 <= i < hits.len() ==> #[trigger] keyed(hits).contains_key(hits[i].0) && keyed(hits)[hits[i].0] == hits[i].1,
        forall|k: u64| #[trigger] keyed(hits).contains_key(k) ==> exists|i: int| 0 <= i < hits.len() && hits[i].0 == k,
    decreases hits.len(),
{
    if hits.len() > 0 {
        let rest = hits.drop_last();
        lemma_keyed(rest);
        assert forall|i: int| 0 <= i < hits.len() implies #[trigger] keyed(hits).contains_key(hits[i].0) && keyed(hits)[hits[i].0] == hits[i].1 by {
            assert(keyed(hits) == keyed(rest).insert(hits.last().0, hits.last().1));
            if i < hits.len() - 1 {
                assert(rest[i] == hits[i]);
                assert(hits[i].0 < hits[hits.len() - 1].0);
                assert(keyed(rest).contains_key(rest[i].0));
            }
        }
        assert forall|k: u64| #[trigger] keyed(hits).contains_key(k) implies exists|i: int| 0 <= i < hits.len() && hits[i].0 == k by {
            if k != hits.last().0 {
                assert(keyed(rest).contains_key(k));
                let i = choose|i: int| 0 <= i < rest.len() && rest[i].0 == k;
                assert(hits[i] == rest[i]);
            } else {
                assert(hits[hits.len() - 1].0 == k);
            }
        }
    }
}

/// Two listings in split order of the same hits are the same listing: the
/// notes of a recording depend only on which face each stick hit in each
/// split.
pub proof fn lemma_hits_listing_unique(a: Seq<(u64, JangguFace)>, b: Seq<(u64, JangguFace)>)
    requires
        keys_increasing(a),
        keys_increasing(b),
        keyed(a) == keyed(b),
    ensures
        a == b,
    decreases a.len() + b.len(),
{
    lemma_keyed(a);
    lemma_keyed(b);
    if a.len() == 0 || b.len() == 0 {
        if a.len() > 0 {
            assert(keyed(a).contains_key(a[0].0));
            let j = choose|j: int| 0 <= j < b.len() && b[j].0 == a[0].0;
        }
        if b.len() > 0 {
            assert(keyed(b).contains_key(b[0].0));
            let j = choose|j: int| 0 <= j < a.len() && a[j].0 == b[0].0;
        }
        assert(a =~= b);
    } else {
        let la = a.last();
        let lb = b.last();
        // the last entry holds the largest split of the map
        assert(keyed(b).contains_key(la.0)) by {
            assert(keyed(a).contains_key(a[a.len() - 1].0));
        }
        assert(keyed(a).contains_key(lb.0)) by {
            assert(keyed(b).contains_key(b[b.len() - 1].0));
        }
        let ja = choose|j: int| 0 <= j < b.len() && b[j].0 == la.0;
        let jb = choose|j: int| 0 <= j < a.len() && a[j].0 == lb.0;
        assert(la.0 <= lb.0) by {
            if ja < b.len() - 1 {
                assert(b[ja].0 < b[b.len() - 1].0);
            }
        }
        assert(lb.0 <= la.0) by {
            if jb < a.len() - 1 {
                assert(a[jb].0 < a[a.len() - 1].0);
            }
        }
        assert(la.1 == lb.1) by {
            assert(keyed(a)[a[a.len() - 1].0] == la.1);
            assert(keyed(b)[b[b.len() - 1].0] == lb.1);
        }
        let ra = a.drop_last();
        let rb = b.drop_last();
        assert(keys_increasing(ra));
        assert(keys_increasing(rb));
        lemma_keyed(ra);
        lemma_keyed(rb);
        assert(keyed(ra) =~= keyed(rb)) by {
            assert forall|k: u64| #[trigger] keyed(ra).contains_key(k) implies keyed(rb).contains_key(k) && keyed(
                rb,
            )[k] == keyed(ra)[k] by {
                let i = choose|i: int| 0 <= i < ra.len() && ra[i].0 == k;
                assert(ra[i] == a[i]);
                assert(a[i].0 < la.0);
                assert(keyed(a).contains_key(a[i].0));
                assert(keyed(b).contains_key(k));
                let j = choose|j: int| 0 <= j < b.len() && b[j].0 == k;
                assert(j < b.len() - 1);
                assert(rb[j] == b[j]);
                assert(keyed(rb).contains_key(rb[j].0));
            }
            assert forall|k: u64| #[trigger] keyed(rb).contains_key(k) implies keyed(ra).contains_key(k) by {
                let j = choose|j: int| 0 <= j < rb.len() && rb[j].0 == k;
                assert(rb[j] == b[j]);
                assert(b[j].0 < lb.0);
                assert(keyed(b).contains_key(b[j].0));
                assert(keyed(a).contains_key(k));
                let i = choose|i: int| 0 <= i < a.len() && a[i].0 == k;
                assert(i < a.len() - 1);
                assert(ra[i] == a[i]);
                assert(keyed(ra).contains_key(ra[i].0));
            }
        }
        lemma_hits_listing_unique(ra, rb);
        assert(a =~= ra.push(la));
        assert(b =~= rb.push(lb));
    }
}

/// Puts a hit into a listing in split order: a hit in a split that is
/// already listed replaces the one there.
fn insert_hit(hits: &mut Vec<(u64, JangguFace)>, key: u64, face: JangguFace)
    requires
        keys_increasing(old(hits)@),
    ensures
        keys_increasing(final(hits)@),
        keyed(final(hits)@) == keyed(old(hits)@).insert(key, face),
{
    let ghost s = hits@;
    let mut p: usize = 0;
    while p < hits.len()
        invariant
            hits@ == s,
            p <= hits.len(),
            forall|i: int| 0 <= i < p ==> (#[trigger] hits@[i]).0 < key,
        ensures
            hits@ == s,
            p <= hits.len(),
            forall|i: int| 0 <= i < p ==> (#[trigger] hits@[i]).0 < key,
            p == hits.len() || hits@[p as int].0 >= key,
        decreases hits.len() - p,
    {
        if hits[p].0 >= key {
            break;
        }
        p = p + 1;
    }
    let replace = p < hits.len() && hits[p].0 == key;
    if replace {
        hits.set(p, (key, face));
    } else {
        hits.insert(p, (key, face));
    }
    proof {
        let t = hits@;
        if replace {
            assert(t == s.update(p as int, (key, face)));
            assert forall|i: int, j: int| 0 <= i < j < t.len() implies #[trigger] t[i].0 < #[trigger] t[j].0 by {
                assert(t[i].0 == s[i].0 && t[j].0 == s[j].0);
            }
        } else {
            assert(t == s.insert(p as int, (key, face)));
            assert forall|i: int, j: int| 0 <= i < j < t.len() implies #[trigger] t[i].0 < #[trigger] t[j].0 by {
                if j < p {
                    assert(t[i] == s[i] && t[j] == s[j]);
                } else if j == p {
                    assert(t[i] == s[i]);
                } else if i < p {
                    assert(t[i] == s[i] && t[j] == s[j - 1]);
                    assert(s[p as int].0 >= key);
                    if j - 1 > p {
                        assert(s[p as int].0 < s[j - 1].0);
                    }
                } else if i == p {
                    assert(t[j] == s[j - 1]);
                    assert(s[p as int].0 >= key && s[p as int].0 != key);
                    if j - 1 > p {
                        assert(s[p as int].0 < s[j - 1].0);
                    }
                } else {
                    assert(t[i] == s[i - 1] && t[j] == s[j - 1]);
                }
            }
        }
        lemma_keyed(s);
        lemma_keyed(t);
        let m = keyed(s).insert(key, face);
        assert(t[p as int] == (key, face));
        assert forall|x: u64| #[trigger] keyed(t).contains_key(x) <==> m.contains_key(x) by {
            if x == key {
                assert(keyed(t).contains_key(t[p as int].0));
            }
            if keyed(t).contains_key(x) && x != key {
                let j = choose|j: int| 0 <= j < t.len() && t[j].0 == x;
                if replace || j < p {
                    assert(s[j] == t[j]);
                    assert(keyed(s).contains_key(s[j].0));
                } else {
                    assert(s[j - 1] == t[j]);
                    assert(keyed(s).contains_key(s[j - 1].0));
                }
            }
            if m.contains_key(x) && x != key {
                let i = choose|i: int| 0 <= i < s.len() && s[i].0 == x;
                if replace || i < p {
                    assert(t[i] == s[i]);
                    assert(keyed(t).contains_key(t[i].0));
                } else {
                    assert(t[i + 1] == s[i]);
                    assert(keyed(t).contains_key(t[i + 1].0));
                }
            }
        }
        assert forall|x: u64| #[trigger] keyed(t).contains_key(x) implies keyed(t)[x] == m[x] by {
            if x != key {
                let j = choose|j: int| 0 <= j < t.len() && t[j].0 == x;
                assert(keyed(t).contains_key(t[j].0));
                if replace || j < p {
                    assert(s[j] == t[j]);
                    assert(keyed(s).contains_key(s[j].0));
                } else {
                    assert(s[j - 1] == t[j]);
                    assert(keyed(s).contains_key(s[j - 1].0));
                }
            } else {
                assert(keyed(t).contains_key(t[p as int].0));
            }
        }
        assert(keyed(t) =~= m);
    }
}

/// The hits of a map listed in split order.
fn listing_of(hits: &HashMap<u64, JangguFace>) -> (r: Vec<(u64, JangguFace)>)
    ensures
        keys_increasing(r@),
        keyed(r@) == hits@,
{
    broadcast use vstd::std_specs::hash::group_hash_axioms;

    let mut out: Vec<(u64, JangguFace)> = Vec::new();
    let ghost m = hits@;
    let ghost v0 = spec_hash_map_iter(hits).remaining();
    for entry in it: hits.iter()
        invariant
            m == hits@,
            v0 == spec_hash_map_iter(hits).remaining(),
            it.seq() == v0,
            keys_increasing(out@),
            forall|k: u64| #[trigger] keyed(out@).contains_key(k) ==> m.contains_key(k) && keyed(out@)[k] == m[k],
            forall|k: u64| #[trigger] m.contains_key(k) ==> keyed(out@).contains_key(k) || exists|j: int|
                it.index() <= j < v0.len() && *v0[j].0 == k,
    {
        let (k, f) = entry;
        insert_hit(&mut out, *k, *f);
    }
    proof {
        assert(keyed(out@) =~= m);
    }
    out
}

proof fn lemma_listing_is_the_one(s: Seq<(u64, JangguFace)>, m: Map<u64, JangguFace>)
    requires
        keys_increasing(s),
        keyed(s) == m,
    ensures
        hits_in_split_order(m) == s,
{
    let t = hits_in_split_order(m);
    assert(keys_increasing(t) && keyed(t) == m);
    lemma_hits_listing_unique(t, s);
}

/// The hits of one stick on `face`, in split order, tagged with the stick.
pub open spec fn stick_hits(hits: Seq<(u64, JangguFace)>, face: JangguFace, stick: JangguStick) -> Seq<(u64, JangguStick)>
    decreases hits.len(),
{
    if hits.len() == 0 {
        Seq::empty()
    } else {
        let rest = stick_hits(hits.drop_last(), face, stick);
        if hits.last().1 == face {
            rest.push((hits.last().0, stick))
        } else {
            rest
        }
    }
}

/// The hits on `face`: those of the left stick, then those of the right
/// stick.
pub open spec fn face_hits(left: Seq<(u64, JangguFace)>, right: Seq<(u64, JangguFace)>, face: JangguFace) -> Seq<(u64, JangguStick)> {
    stick_hits(left, face, JangguStick::Gungchae) + stick_hits(right, face, JangguStick::Yeolchae)
}

/// The chart note of a hit in split `hit.0`: beat `hit.0 / splits` plus
/// `(hit.0 % splits) / splits`.
pub open spec fn raw_note(hit: (u64, JangguStick), splits: u16) -> GameNote {
    GameNote {
        stick: hit.1,
        beat_index: hit.0 / (splits as u64),
        tick_nomiator: (hit.0 % (splits as u64)) as i64,
        tick_denomiator: splits as i64,
        id: 0,
        face: JangguFace::Gungpyeon,
    }
}

/// The splits of the hits.
pub open spec fn hit_splits(hits: Seq<(u64, JangguStick)>) -> Seq<u64> {
    hits.map_values(|h: (u64, JangguStick)| h.0)
}

/// The chart notes of the hits.
pub open spec fn hit_notes(hits: Seq<(u64, JangguStick)>, splits: u16) -> Seq<GameNote> {
    hits.map_values(|h: (u64, JangguStick)| raw_note(h, splits))
}

fn make_raw_note(hit: (u64, JangguStick), splits: u16) -> (r: GameNote)
    requires
        splits > 0,
    ensures
        r == raw_note(hit, splits),
{
    GameNote {
        stick: hit.1,
        beat_index: hit.0 / (splits as u64),
        tick_nomiator: (hit.0 % (splits as u64)) as i64,
        tick_denomiator: splits as i64,
        id: 0,
        face: JangguFace::Gungpyeon,
    }
}

/// Appends the hits of one stick on `face` to `out`.
fn push_stick_hits(
    hits: &Vec<(u64, JangguFace)>,
    face: JangguFace,
    stick: JangguStick,
    out: &mut Vec<(u64, JangguStick)>,
)
    ensures
        final(out)@ == old(out)@ + stick_hits(hits@, face, stick),
{
    let ghost start = out@;
    let mut i: usize = 0;
    while i < hits.len()
        invariant
            i <= hits.len(),
            out@ == start + stick_hits(hits@.take(i as int), face, stick),
        decreases hits.len() - i,
    {
        let hit = hits[i];
        proof {
            assert(hits@.take(i + 1).drop_last() =~= hits@.take(i as int));
        }
        if hit.1 == face {
            out.push((hit.0, stick));
        }
        i = i + 1;
    }
    proof {
        assert(hits@.take(hits.len() as int) =~= hits@);
    }
}

/// The hits of a map listed in split order (there is exactly one such
/// listing: see `lemma_hits_listing_unique`).
pub open spec fn hits_in_split_order(hits: Map<u64, JangguFace>) -> Seq<(u64, JangguFace)> {
    choose|s: Seq<(u64, JangguFace)>| keys_increasing(s) && keyed(s) == hits
}

/// The hits recorded so far: for each stick, the face it hit in each split
/// (the last hit in a split counts).
pub struct ChartRecording {
    left_stick: HashMap<u64, JangguFace>,
    right_stick: HashMap<u64, JangguFace>,
}

impl ChartRecording {
    /// The left stick's hits, by split.
    pub closed spec fn left_map(&self) -> Map<u64, JangguFace> {
        self.left_stick@
    }

    /// The right stick's hits, by split.
    pub closed spec fn right_map(&self) -> Map<u64, JangguFace> {
        self.right_stick@
    }

    pub fn new() -> (r: ChartRecording)
        ensures
            r.left_map() == Map::<u64, JangguFace>::empty(),
            r.right_map() == Map::<u64, JangguFace>::empty(),
    {
        ChartRecording { left_stick: HashMap::new(), right_stick: HashMap::new() }
    }

    /// Records the janggu state of one frame in split `beat_and_split`: a
    /// stick that touched a face just now hit that face in the split.
    pub fn record(&mut self, beat_and_split: u64, janggu: &JangguStateWithTick)
        ensures
            final(self).left_map() == (match janggu.gungchae.face {
                Some(f) => if janggu.gungchae.is_keydown_now {
                    old(self).left_map().insert(beat_and_split, f)
                } else {
                    old(self).left_map()
                },
                None => old(self).left_map(),
            }),
            final(self).right_map() == (match janggu.yeolchae.face {
                Some(f) => if janggu.yeolchae.is_keydown_now {
                    old(self).right_map().insert(beat_and_split, f)
                } else {
                    old(self).right_map()
                },
                None => old(self).right_map(),
            }),
    {
        broadcast use vstd::std_specs::hash::group_hash_axioms;

        if janggu.gungchae.is_keydown_now {
            if let Some(f) = janggu.gungchae.face {
                self.left_stick.insert(beat_and_split, f);
            }
        }
        if janggu.yeolchae.is_keydown_now {
            if let Some(f) = janggu.yeolchae.face {
                self.right_stick.insert(beat_and_split, f);
            }
        }
    }

    /// The chart notes on `face`: every hit on it (left stick's first, then
    /// right stick's, each in split order) as a note, sorted by beat with a
    /// stable sort.
    pub fn face_notes(&self, face: JangguFace, splits: u16) -> (r: Vec<GameNote>)
        requires
            splits > 0,
        ensures
            exists|perm: Seq<usize>|
                #[trigger] is_stable_order(
                    hit_splits(face_hits(hits_in_split_order(self.left_map()), hits_in_split_order(self.right_map()), face)),
                    perm,
                ) && permuted(
                    hit_notes(face_hits(hits_in_split_order(self.left_map()), hits_in_split_order(self.right_map()), face), splits),
                    perm,
                    r@,
                ),
    {
        let left = listing_of(&self.left_stick);
        let right = listing_of(&self.right_stick);
        proof {
            lemma_listing_is_the_one(left@, self.left_map());
            lemma_listing_is_the_one(right@, self.right_map());
        }
        let mut hits: Vec<(u64, JangguStick)> = Vec::new();
        push_stick_hits(&left, face, JangguStick::Gungchae, &mut hits);
        push_stick_hits(&right, face, JangguStick::Yeolchae, &mut hits);
        let ghost all = face_hits(left@, right@, face);
        assert(hits@ =~= all);
        let mut keys: Vec<u64> = Vec::new();
        let mut i: usize = 0;
        while i < hits.len()
            invariant
                i <= hits.len(),
                hits@ == all,
                keys@ == all.take(i as int).map_values(|h: (u64, JangguStick)| h.0),
            decreases hits.len() - i,
        {
            keys.push(hits[i].0);
            proof {
                assert(all.take(i + 1).map_values(|h: (u64, JangguStick)| h.0) =~= all.take(i as int).map_values(
                    |h: (u64, JangguStick)| h.0,
                ).push(hits@[i as int].0));
            }
            i = i + 1;
        }
        proof {
            assert(all.take(all.len() as int) =~= all);
        }
        let perm = stable_order_by_timing(&keys);
        let ghost notes = all.map_values(|h: (u64, JangguStick)| raw_note(h, splits));
        let mut out: Vec<GameNote> = Vec::new();
        let mut k: usize = 0;
        while k < perm.len()
            invariant
                k <= perm.len(),
                splits > 0,
                hits@ == all,
                is_stable_order(keys@, perm@),
                keys@ == all.map_values(|h: (u64, JangguStick)| h.0),
                notes == all.map_values(|h: (u64, JangguStick)| raw_note(h, splits)),
                out.len() == k,
                forall|j: int| 0 <= j < k ==> out@[j] == notes[#[trigger] perm@[j] as int],
            decreases perm.len() - k,
        {
            let idx = perm[k];
            let note = make_raw_note(hits[idx], splits);
            out.push(note);
            k = k + 1;
        }
        proof {
            assert(keys@ == hit_splits(all));
            assert(notes == hit_notes(all, splits));
            assert(permuted(notes, perm@, out@));
        }
        out
    }
}

/// The delay that a key press measures in the input delay test: when a key
/// is down at `tick` and the beep has started (at `start_time`), the time
/// since the beep.
pub fn measured_delay(pressed: bool, tick: u64, start_time: u64) -> (r: Option<u64>)
    ensures
        r == (if pressed && tick >= start_time { Some((tick - start_time) as u64) } else { None::<u64> }),
{
    if pressed && tick >= start_time {
        Some(tick - start_time)
    } else {
        None
    }
}

/// The sum of the delays.
pub open spec fn delay_sum(delays: Seq<u64>) -> int
    decreases delays.len(),
{
    if delays.len() == 0 {
        0
    } else {
        delay_sum(delays.drop_last()) + delays.last()
    }
}

/// The smallest, the largest and the average (rounded down) of the measured
/// delays.
#[derive(Debug, Clone, Copy, PartialEq, Eq, Structural)]
pub struct DelayStats {
    pub min: u64,
    pub max: u64,
    pub average: u64,
}

proof fn lemma_delay_sum_grows(delays: Seq<u64>, k: int)
    requires
        0 <= k <= delays.len(),
    ensures
        0 <= delay_sum(delays.take(k)) <= delay_sum(delays),
    decreases delays.len() - k,
{
    if k < delays.len() {
        lemma_delay_sum_grows(delays, k + 1);
        assert(delays.take(k + 1).drop_last() =~= delays.take(k));
    } else {
        assert(delays.take(k) =~= delays);
    }
    if k == 0 {
        assert(delays.take(0).len() == 0);
    } else {
        lemma_delay_sum_nonneg(delays.take(k));
    }
}

proof fn lemma_delay_sum_nonneg(delays: Seq<u64>)
    ensures
        delay_sum(delays) >= 0,
    decreases delays.len(),
{
    if delays.len() > 0 {
        lemma_delay_sum_nonneg(delays.drop_last());
    }
}

/// The statistics of the measured delays; none when nothing was measured.
pub fn delay_stats(delays: &Vec<u64>) -> (r: Option<DelayStats>)
    requires
        delay_sum(delays@) <= u64::MAX,
    ensures
        delays.len() == 0 ==> r is None,
        delays.len() > 0 ==> (r matches Some(s) && {
            &&& delays@.contains(s.min)
            &&& delays@.contains(s.max)
            &&& forall|k: int| 0 <= k < delays.len() ==> s.min <= #[trigger] delays@[k] <= s.max
            &&& s.average == delay_sum(delays@) / (delays.len() as int)
        }),
{
    if delays.len() == 0 {
        return None;
    }
    let mut min = delays[0];
    let mut max = delays[0];
    let mut sum: u64 = 0;
    let mut i: usize = 0;
    while i < delays.len()
        invariant
            0 < delays.len(),
            i <= delays.len(),
            delay_sum(delays@) <= u64::MAX,
            sum == delay_sum(delays@.take(i as int)),
            delays@.contains(min),
            delays@.contains(max),
            forall|k: int| 0 <= k < i ==> min <= #[trigger] delays@[k] <= max,
            min <= delays@[0] <= max,
        decreases delays.len() - i,
    {
        let d = delays[i];
        proof {
            assert(delays@.take(i + 1).drop_last() =~= delays@.take(i as int));
            lemma_delay_sum_grows(delays@, i + 1);
        }
        sum = sum + d;
        if d < min {
            min = d;
        }
        if d > max {
            max = d;
        }
        i = i + 1;
    }
    proof {
        assert(delays@.take(delays.len() as int) =~= delays@);
    }
    Some(DelayStats { min, max, average: sum / (delays.len() as u64) })
}

} // verus!
