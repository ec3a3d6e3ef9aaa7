//! The queue of notes waiting for judgement: the order in which they are
//! judged (by timing, keeping chart order among notes with the same timing)
//! and the removal of judged notes by id.
use vstd::prelude::*;

verus! {

/// `perm` lists the indices of `timings` exactly once each, ordered by
/// timing and, among equal timings, by index.
pub open spec fn is_stable_order(timings: Seq<u64>, perm: Seq<usize>) -> bool {
    &&& perm.len() == timings.len()
    &&& forall|k: int| 0 <= k < perm.len() ==> (#[trigger] perm[k]) < timings.len()
    &&& forall|a: int, b: int|
        0 <= a < perm.len() && 0 <= b < perm.len() && a != b ==> perm[a] != perm[b]
    &&& forall|a: int, b: int|
        #![trigger perm[a], perm[b]]
        0 <= a < b < perm.len() ==> order_before(timings, perm[a] as int, perm[b] as int)
}

/// Index `x` comes before index `y`: earlier timing, or the same timing and
/// a smaller index.
pub open spec fn order_before(timings: Seq<u64>, x: int, y: int) -> bool {
    timings[x] < timings[y] || (timings[x] == timings[y] && x < y)
}

/// A stable sort of the indices of `timings` by timing (insertion sort).
pub fn stable_order_by_timing(timings: &Vec<u64>) -> (perm: Vec<usize>)
    ensures
        is_stable_order(timings@, perm@),
{
    let n = timings.len();
    let mut perm: Vec<usize> = Vec::new();
    let mut i: usize = 0;
    while i < n
        invariant
            n == timings.len(),
            i <= n,
            perm.len() == i,
            forall|k: int| 0 <= k < perm.len() ==> (#[trigger] perm[k]) < i,
            forall|a: int, b: int|
                0 <= a < perm.len() && 0 <= b < perm.len() && a != b ==> perm[a] != perm[b],
            forall|a: int, b: int|
                #![trigger perm[a], perm[b]]
                0 <= a < b < perm.len() ==> order_before(timings@, perm[a] as int, perm[b] as int),
        decreases n - i,
    {
        let t = timings[i];
        let mut pos = perm.len();
        while pos > 0 && timings[perm[pos - 1]] > t
            invariant
                n == timings.len(),
                i < n,
                t == timings[i as int],
                perm.len() == i,
                pos <= perm.len(),
                forall|k: int| 0 <= k < perm.len() ==> (#[trigger] perm[k]) < i,
                forall|k: int| pos <= k < perm.len() ==> timings@[#[trigger] perm[k] as int] > t,
            decreases pos,
        {
            pos = pos - 1;
        }
        proof {
            assert forall|k: int| 0 <= k < pos implies timings@[#[trigger] perm[k] as int] <= t by {
                if pos > 0 && k < pos - 1 {
                    assert(order_before(timings@, perm[k] as int, perm[pos - 1] as int));
                }
            }
        }
        let ghost old_perm = perm@;
        perm.insert(pos, i);
        proof {
            assert forall|k: int| 0 <= k < perm.len() implies (#[trigger] perm[k]) < i + 1 by {
                if k < pos {
                    assert(perm[k] == old_perm[k]);
                } else if k > pos {
                    assert(perm[k] == old_perm[k - 1]);
                }
            }
            assert forall|a: int, b: int|
                0 <= a < perm.len() && 0 <= b < perm.len() && a != b implies perm[a] != perm[b] by {
                let oa = if a < pos { a } else { a - 1 };
                let ob = if b < pos { b } else { b - 1 };
                if a != pos {
                    assert(perm[a] == old_perm[oa]);
                }
                if b != pos {
                    assert(perm[b] == old_perm[ob]);
                }
            }
            assert forall|a: int, b: int|
                #![trigger perm[a], perm[b]]
                0 <= a < b < perm.len() implies order_before(timings@, perm[a] as int, perm[b] as int) by {
                let oa = if a < pos { a } else { a - 1 };
                let ob = if b < pos { b } else { b - 1 };
                if a != pos {
                    assert(perm[a] == old_perm[oa]);
                }
                if b != pos {
                    assert(perm[b] == old_perm[ob]);
                }
                if a != pos && b != pos {
                    assert(order_before(timings@, old_perm[oa] as int, old_perm[ob] as int));
                }
            }
        }
        i = i + 1;
    }
    perm
}


/// Something that carries a note id.
pub trait HasNoteId {
    spec fn spec_note_id(&self) -> u64;

    /// The timing (in milliseconds) that orders the queue.
    spec fn spec_timing(&self) -> u64;

    fn note_id(&self) -> (r: u64)
        ensures
            r == self.spec_note_id(),
    ;
}

/// `s` without its first element that has note id `id` (unchanged if none has).
pub open spec fn remove_first_id<T: HasNoteId>(s: Seq<T>, id: u64) -> Seq<T>
    decreases s.len(),
{
    if s.len() == 0 {
        s
    } else if s[0].spec_note_id() == id {
        s.drop_first()
    } else {
        seq![s[0]] + remove_first_id(s.drop_first(), id)
    }
}

/// `s` after removing, for each id of `ids` in turn, the first element with that id.
pub open spec fn remove_ids<T: HasNoteId>(s: Seq<T>, ids: Seq<u64>) -> Seq<T>
    decreases ids.len(),
{
    if ids.len() == 0 {
        s
    } else {
        remove_ids(remove_first_id(s, ids[0]), ids.drop_first())
    }
}

/// Number of elements of `s` with note id `id`.
pub open spec fn count_id<T: HasNoteId>(s: Seq<T>, id: u64) -> nat
    decreases s.len(),
{
    if s.len() == 0 {
        0
    } else {
        (if s[0].spec_note_id() == id { 1nat } else { 0nat }) + count_id(s.drop_first(), id)
    }
}

/// Number of occurrences of `id` in `ids`.
pub open spec fn count_in(ids: Seq<u64>, id: u64) -> nat
    decreases ids.len(),
{
    if ids.len() == 0 {
        0
    } else {
        (if ids[0] == id { 1nat } else { 0nat }) + count_in(ids.drop_first(), id)
    }
}

/// Every id occurs in `ids` at most as often as elements of `s` carry it.
pub open spec fn ids_within<T: HasNoteId>(ids: Seq<u64>, s: Seq<T>) -> bool {
    forall|id: u64| #[trigger] count_in(ids, id) <= count_id(s, id)
}

/// Index of the first element of `s` with note id `id`, if any.
pub open spec fn first_index_of<T: HasNoteId>(s: Seq<T>, id: u64, p: int) -> bool {
    &&& 0 <= p < s.len()
    &&& s[p].spec_note_id() == id
    &&& forall|k: int| 0 <= k < p ==> (#[trigger] s[k]).spec_note_id() != id
}

proof fn lemma_remove_first_at<T: HasNoteId>(s: Seq<T>, id: u64, p: int)
    requires
        first_index_of(s, id, p),
    ensures
        remove_first_id(s, id) == s.remove(p),
    decreases s.len(),
{
    if p == 0 {
        assert(s.drop_first() =~= s.remove(0));
    } else {
        let t = s.drop_first();
        assert forall|k: int| 0 <= k < p - 1 implies (#[trigger] t[k]).spec_note_id() != id by {
            assert(t[k] == s[k + 1]);
        }
        lemma_remove_first_at(t, id, p - 1);
        assert(seq![s[0]] + t.remove(p - 1) =~= s.remove(p));
    }
}

proof fn lemma_remove_first_absent<T: HasNoteId>(s: Seq<T>, id: u64)
    requires
        forall|k: int| 0 <= k < s.len() ==> (#[trigger] s[k]).spec_note_id() != id,
    ensures
        remove_first_id(s, id) == s,
    decreases s.len(),
{
    if s.len() > 0 {
        let t = s.drop_first();
        assert forall|k: int| 0 <= k < t.len() implies (#[trigger] t[k]).spec_note_id() != id by {
            assert(t[k] == s[k + 1]);
        }
        lemma_remove_first_absent(t, id);
        assert(seq![s[0]] + t =~= s);
    }
}

/// Removing the first element with an id that occurs shortens `s` by one
/// and lowers the count of that id by one.
pub proof fn lemma_count_remove_first<T: HasNoteId>(s: Seq<T>, id: u64)
    requires
        count_id(s, id) > 0,
    ensures
        remove_first_id(s, id).len() == s.len() - 1,
        forall|x: u64| #[trigger] count_id(remove_first_id(s, id), x) == count_id(s, x) - (if x == id { 1int } else { 0int }),
    decreases s.len(),
{
    let t = s.drop_first();
    if s[0].spec_note_id() == id {
    } else {
        lemma_count_remove_first(t, id);
        let r = remove_first_id(t, id);
        let u = seq![s[0]] + r;
        assert(u.drop_first() =~= r);
        assert forall|x: u64| #[trigger] count_id(u, x) == count_id(s, x) - (if x == id { 1int } else { 0int }) by {
            assert(count_id(u, x) == (if s[0].spec_note_id() == x { 1nat } else { 0nat }) + count_id(r, x));
        }
    }
}

/// Removing ids that all occur (counted with multiplicity) shortens `s` by
/// the number of ids.
pub proof fn lemma_remove_ids_len<T: HasNoteId>(s: Seq<T>, ids: Seq<u64>)
    requires
        ids_within(ids, s),
    ensures
        remove_ids(s, ids).len() == s.len() - ids.len(),
    decreases ids.len(),
{
    if ids.len() > 0 {
        let id = ids[0];
        let rest = ids.drop_first();
        assert(count_in(ids, id) >= 1);
        lemma_count_remove_first(s, id);
        let s2 = remove_first_id(s, id);
        assert forall|x: u64| #[trigger] count_in(rest, x) <= count_id(s2, x) by {
            assert(count_in(ids, x) == (if id == x { 1nat } else { 0nat }) + count_in(rest, x));
            assert(count_in(ids, x) <= count_id(s, x));
        }
        lemma_remove_ids_len(s2, rest);
    }
}

proof fn lemma_remove_first_contained<T: HasNoteId>(s: Seq<T>, id: u64)
    ensures
        forall|k: int| 0 <= k < remove_first_id(s, id).len() ==> s.contains(#[trigger] remove_first_id(s, id)[k]),
    decreases s.len(),
{
    if s.len() > 0 {
        let t = s.drop_first();
        lemma_remove_first_contained(t, id);
        let r = remove_first_id(s, id);
        assert forall|k: int| 0 <= k < r.len() implies s.contains(#[trigger] r[k]) by {
            if s[0].spec_note_id() == id {
                assert(r[k] == s[k + 1]);
            } else if k == 0 {
                assert(r[0] == s[0]);
            } else {
                let rt = remove_first_id(t, id);
                assert(r[k] == rt[k - 1]);
                assert(t.contains(rt[k - 1]));
                let j = choose|j: int| 0 <= j < t.len() && t[j] == rt[k - 1];
                assert(s[j + 1] == t[j]);
            }
        }
    }
}

/// Every element left after removing ids was an element before.
pub proof fn lemma_remove_ids_contained<T: HasNoteId>(s: Seq<T>, ids: Seq<u64>)
    ensures
        forall|k: int| 0 <= k < remove_ids(s, ids).len() ==> s.contains(#[trigger] remove_ids(s, ids)[k]),
    decreases ids.len(),
{
    if ids.len() > 0 {
        let s2 = remove_first_id(s, ids[0]);
        lemma_remove_first_contained(s, ids[0]);
        lemma_remove_ids_contained(s2, ids.drop_first());
        let r = remove_ids(s, ids);
        assert(r == remove_ids(s2, ids.drop_first()));
        assert forall|k: int| 0 <= k < r.len() implies s.contains(#[trigger] r[k]) by {
            assert(s2.contains(remove_ids(s2, ids.drop_first())[k]));
            let j = choose|j: int| 0 <= j < s2.len() && s2[j] == r[k];
            assert(s.contains(s2[j]));
        }
    }
}

/// Removes the first element of `v` with note id `id`, if there is one.
pub fn remove_first_with_id<T: HasNoteId>(v: &mut Vec<T>, id: u64)
    ensures
        final(v)@ == remove_first_id(old(v)@, id),
{
    let mut p: usize = 0;
    while p < v.len()
        invariant
            p <= v.len(),
            v@ == old(v)@,
            forall|k: int| 0 <= k < p ==> (#[trigger] v@[k]).spec_note_id() != id,
        decreases v.len() - p,
    {
        if v[p].note_id() == id {
            proof {
                lemma_remove_first_at(v@, id, p as int);
            }
            v.remove(p);
            return;
        }
        p = p + 1;
    }
    proof {
        lemma_remove_first_absent(v@, id);
    }
}

/// Removes, for each id of `ids` in turn, the first element of `v` with
/// that id.
pub fn remove_with_ids<T: HasNoteId>(v: &mut Vec<T>, ids: &Vec<u64>)
    ensures
        final(v)@ == remove_ids(old(v)@, ids@),
{
    let mut k: usize = 0;
    assert(ids@.skip(0) =~= ids@);
    while k < ids.len()
        invariant
            k <= ids.len(),
            remove_ids(v@, ids@.skip(k as int)) == remove_ids(old(v)@, ids@),
        decreases ids.len() - k,
    {
        let ghost before = v@;
        remove_first_with_id(v, ids[k]);
        proof {
            assert(ids@.skip(k as int).drop_first() =~= ids@.skip(k + 1));
            assert(ids@.skip(k as int)[0] == ids@[k as int]);
        }
        k = k + 1;
    }
    proof {
        assert(ids@.skip(ids.len() as int) =~= Seq::<u64>::empty());
    }
}

/// The queue is in timing order.
pub open spec fn sorted_by_timing<T: HasNoteId>(s: Seq<T>) -> bool {
    forall|i: int, j: int| 0 <= i < j < s.len() ==> #[trigger] s[i].spec_timing() <= #[trigger] s[j].spec_timing()
}

proof fn lemma_remove_first_sorted<T: HasNoteId>(s: Seq<T>, id: u64)
    requires
        sorted_by_timing(s),
    ensures
        sorted_by_timing(remove_first_id(s, id)),
    decreases s.len(),
{
    if s.len() > 0 && s[0].spec_note_id() != id {
        let t = s.drop_first();
        assert(sorted_by_timing(t)) by {
            assert forall|i: int, j: int| 0 <= i < j < t.len() implies #[trigger] t[i].spec_timing() <= #[trigger] t[j].spec_timing() by {
                assert(t[i] == s[i + 1] && t[j] == s[j + 1]);
            }
        }
        lemma_remove_first_sorted(t, id);
        lemma_remove_first_contained(t, id);
        let rt = remove_first_id(t, id);
        let r = seq![s[0]] + rt;
        assert(r == remove_first_id(s, id));
        assert forall|i: int, j: int| 0 <= i < j < r.len() implies #[trigger] r[i].spec_timing() <= #[trigger] r[j].spec_timing() by {
            assert(r[j] == rt[j - 1]);
            if i > 0 {
                assert(r[i] == rt[i - 1]);
            } else {
                assert(t.contains(rt[j - 1]));
                let q = choose|q: int| 0 <= q < t.len() && t[q] == rt[j - 1];
                assert(s[q + 1] == t[q]);
            }
        }
    } else if s.len() > 0 {
        let t = s.drop_first();
        assert forall|i: int, j: int| 0 <= i < j < t.len() implies #[trigger] t[i].spec_timing() <= #[trigger] t[j].spec_timing() by {
            assert(t[i] == s[i + 1] && t[j] == s[j + 1]);
        }
    }
}

/// Removing judged notes keeps the queue in timing order.
pub proof fn lemma_remove_ids_sorted<T: HasNoteId>(s: Seq<T>, ids: Seq<u64>)
    requires
        sorted_by_timing(s),
    ensures
        sorted_by_timing(remove_ids(s, ids)),
    decreases ids.len(),
{
    if ids.len() > 0 {
        lemma_remove_first_sorted(s, ids[0]);
        lemma_remove_ids_sorted(remove_first_id(s, ids[0]), ids.drop_first());
    }
}

/// Removing ids that all occur lowers the count of each id by the number of
/// times it is removed.
pub proof fn lemma_remove_ids_count<T: HasNoteId>(s: Seq<T>, ids: Seq<u64>)
    requires
        ids_within(ids, s),
    ensures
        forall|x: u64| #[trigger] count_id(remove_ids(s, ids), x) == count_id(s, x) - count_in(ids, x),
    decreases ids.len(),
{
    if ids.len() > 0 {
        let id = ids[0];
        let rest = ids.drop_first();
        assert(count_in(ids, id) >= 1);
        lemma_count_remove_first(s, id);
        let s2 = remove_first_id(s, id);
        assert forall|x: u64| #[trigger] count_in(rest, x) <= count_id(s2, x) by {
            assert(count_in(ids, x) == (if id == x { 1nat } else { 0nat }) + count_in(rest, x));
            assert(count_in(ids, x) <= count_id(s, x));
        }
        lemma_remove_ids_count(s2, rest);
        assert forall|x: u64| #[trigger] count_id(remove_ids(s, ids), x) == count_id(s, x) - count_in(ids, x) by {
            assert(count_in(ids, x) == (if id == x { 1nat } else { 0nat }) + count_in(rest, x));
            assert(count_id(remove_ids(s2, rest), x) == count_id(s2, x) - count_in(rest, x));
        }
    }
}

/// The count of an id in two lists put together.
pub proof fn lemma_count_in_add(a: Seq<u64>, b: Seq<u64>, x: u64)
    ensures
        count_in(a + b, x) == count_in(a, x) + count_in(b, x),
    decreases a.len(),
{
    if a.len() > 0 {
        assert((a + b).drop_first() =~= a.drop_first() + b);
        lemma_count_in_add(a.drop_first(), b, x);
    } else {
        assert(a + b =~= b);
    }
}

/// No two elements of `s` have the same note id.
pub open spec fn note_ids_distinct<T: HasNoteId>(s: Seq<T>) -> bool {
    forall|a: int, b: int| 0 <= a < b < s.len() ==> #[trigger] s[a].spec_note_id() != #[trigger] s[b].spec_note_id()
}

/// No two of these ids are equal.
pub open spec fn ids_distinct(ids: Seq<u64>) -> bool {
    forall|a: int, b: int| 0 <= a < b < ids.len() ==> #[trigger] ids[a] != #[trigger] ids[b]
}

proof fn lemma_count_id_zero<T: HasNoteId>(s: Seq<T>, x: u64)
    requires
        forall|k: int| 0 <= k < s.len() ==> (#[trigger] s[k]).spec_note_id() != x,
    ensures
        count_id(s, x) == 0,
    decreases s.len(),
{
    if s.len() > 0 {
        let t = s.drop_first();
        assert forall|k: int| 0 <= k < t.len() implies (#[trigger] t[k]).spec_note_id() != x by {
            assert(t[k] == s[k + 1]);
        }
        lemma_count_id_zero(t, x);
        assert(s[0].spec_note_id() != x);
    }
}

/// With distinct ids, each id occurs at most once.
pub proof fn lemma_count_id_at_most_one<T: HasNoteId>(s: Seq<T>, x: u64)
    requires
        note_ids_distinct(s),
    ensures
        count_id(s, x) <= 1,
    decreases s.len(),
{
    if s.len() > 0 {
        let t = s.drop_first();
        assert(note_ids_distinct(t)) by {
            assert forall|a: int, b: int| 0 <= a < b < t.len() implies #[trigger] t[a].spec_note_id()
                != #[trigger] t[b].spec_note_id() by {
                assert(t[a] == s[a + 1] && t[b] == s[b + 1]);
            }
        }
        lemma_count_id_at_most_one(t, x);
        if s[0].spec_note_id() == x {
            assert forall|k: int| 0 <= k < t.len() implies (#[trigger] t[k]).spec_note_id() != x by {
                assert(t[k] == s[k + 1]);
                assert(s[0].spec_note_id() != s[k + 1].spec_note_id());
            }
            lemma_count_id_zero(t, x);
        }
    }
}

/// An id that occurs is the id of some element.
pub proof fn lemma_count_id_positive<T: HasNoteId>(s: Seq<T>, x: u64)
    requires
        count_id(s, x) > 0,
    ensures
        exists|k: int| 0 <= k < s.len() && (#[trigger] s[k]).spec_note_id() == x,
    decreases s.len(),
{
    if s[0].spec_note_id() == x {
        assert(s[0].spec_note_id() == x);
    } else {
        let t = s.drop_first();
        lemma_count_id_positive(t, x);
        let k = choose|k: int| 0 <= k < t.len() && (#[trigger] t[k]).spec_note_id() == x;
        assert(s[k + 1] == t[k]);
    }
}

/// An id at two places of a list is counted at least twice; an id at one
/// place at least once.
pub proof fn lemma_count_in_places(ids: Seq<u64>, a: int, b: int)
    requires
        0 <= a < ids.len(),
        0 <= b < ids.len(),
    ensures
        count_in(ids, ids[a]) >= 1,
        a != b && ids[a] == ids[b] ==> count_in(ids, ids[a]) >= 2,
    decreases ids.len(),
{
    let t = ids.drop_first();
    if a > 0 && b > 0 {
        lemma_count_in_places(t, a - 1, b - 1);
        assert(t[a - 1] == ids[a] && t[b - 1] == ids[b]);
    } else if a > 0 {
        lemma_count_in_places(t, a - 1, a - 1);
        assert(t[a - 1] == ids[a]);
    } else if b > 0 {
        lemma_count_in_places(t, b - 1, b - 1);
        assert(t[b - 1] == ids[b]);
    }
}

/// Ids that each occur at most once are distinct.
pub proof fn lemma_counts_distinct(ids: Seq<u64>)
    requires
        forall|x: u64| #[trigger] count_in(ids, x) <= 1,
    ensures
        ids_distinct(ids),
{
    assert forall|a: int, b: int| 0 <= a < b < ids.len() implies #[trigger] ids[a] != #[trigger] ids[b] by {
        lemma_count_in_places(ids, a, b);
        assert(count_in(ids, ids[a]) <= 1);
    }
}

} // verus!
