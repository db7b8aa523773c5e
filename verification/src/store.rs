//! Segment store: the authoritative collection of wall segments, keyed by a
//! process-unique 128-bit identifier. Iteration order is the insertion
//! order; removal keeps the relative order of the remaining entries.

use vstd::prelude::*;
use vstd::seq_lib::seq_to_set_is_finite;
use vstd::set_lib::{lemma_int_range, lemma_len_subset, set_int_range};
use crate::geometry::{valid_seg, Segment};

verus! {

/// Rejection of a zero-length segment at commit time; such a segment is
/// never stored.
#[derive(Clone, Copy, PartialEq, Eq, Structural, Debug)]
pub struct DegenerateSegmentError;

/// One stored wall: its identifier and its segment.
pub type Entry = (u128, Segment);

/// Some stored entry carries the identifier `id`.
pub open spec fn has_id(s: Seq<Entry>, id: u128) -> bool {
    exists|k: int| 0 <= k < s.len() && s[k].0 == id
}

/// No two stored entries share an identifier.
pub open spec fn distinct_ids(s: Seq<Entry>) -> bool {
    forall|i: int, j: int| 0 <= i < j < s.len() ==> s[i].0 != s[j].0
}

/// Every stored segment is inside coordinate bounds and has distinct
/// endpoints.
pub open spec fn entries_ok(s: Seq<Entry>) -> bool {
    forall|k: int|
        0 <= k < s.len() ==> valid_seg(#[trigger] s[k].1) && s[k].1.start != s[k].1.end
}

/// The entries of `s` whose identifier is not `id`, in order.
pub open spec fn without_id(s: Seq<Entry>, id: u128) -> Seq<Entry>
    decreases s.len(),
{
    if s.len() == 0 {
        Seq::empty()
    } else if s.last().0 == id {
        without_id(s.drop_last(), id)
    } else {
        without_id(s.drop_last(), id).push(s.last())
    }
}

/// The entries of `s` whose identifier is in none of `ids`, in order.
pub open spec fn without_ids(s: Seq<Entry>, ids: Seq<u128>) -> Seq<Entry>
    decreases ids.len(),
{
    if ids.len() == 0 {
        s
    } else {
        without_id(without_ids(s, ids.drop_last()), ids.last())
    }
}

/// Owns the wall segments. All mutation goes through `insert` and `remove`,
/// which keep identifiers unique and segments non-degenerate.
pub struct SegmentStore {
    entries: Vec<Entry>,
}

impl View for SegmentStore {
    type V = Seq<Entry>;

    closed spec fn view(&self) -> Seq<Entry> {
        self.entries@
    }
}

/// Relies on uuid::Uuid::new_v4 (read through Uuid::as_u128): a freshly
/// drawn random version-4 identifier as its 128-bit value. Nothing is
/// promised of the value; the store itself resolves collisions.
#[verifier::external_body]
fn draw_raw_id() -> u128 {
    uuid::Uuid::new_v4().as_u128()
}

impl SegmentStore {
    pub open spec fn wf(self) -> bool {
        distinct_ids(self@) && entries_ok(self@)
    }

    pub fn new() -> (s: SegmentStore)
        ensures
            s@ == Seq::<Entry>::empty(),
            s.wf(),
    {
        SegmentStore { entries: Vec::new() }
    }

    pub fn len(&self) -> (n: usize)
        ensures
            n == self@.len(),
    {
        self.entries.len()
    }

    /// Whether some stored entry carries `id`.
    pub fn contains(&self, id: u128) -> (r: bool)
        ensures
            r == has_id(self@, id),
    {
        let n = self.entries.len();
        let mut k: usize = 0;
        while k < n
            invariant
                k <= n,
                n == self@.len(),
                forall|j: int| 0 <= j < k ==> self@[j].0 != id,
            decreases n - k,
        {
            if self.entries[k].0 == id {
                return true;
            }
            k += 1;
        }
        false
    }

    /// Lookup by identifier; `None` for an unknown identifier.
    pub fn get(&self, id: u128) -> (r: Option<Segment>)
        requires
            self.wf(),
        ensures
            r.is_some() <==> has_id(self@, id),
            r.is_some() ==> exists|k: int|
                0 <= k < self@.len() && self@[k].0 == id && r.unwrap() == self@[k].1,
    {
        let n = self.entries.len();
        let mut k: usize = 0;
        while k < n
            invariant
                k <= n,
                n == self@.len(),
                forall|j: int| 0 <= j < k ==> self@[j].0 != id,
            decreases n - k,
        {
            if self.entries[k].0 == id {
                return Some(self.entries[k].1);
            }
            k += 1;
        }
        None
    }

    /// All stored entries, in insertion order.
    pub fn entries(&self) -> (v: &Vec<Entry>)
        ensures
            v@ == self@,
    {
        &self.entries
    }

    /// An identifier that no stored entry carries: the raw draw when it is
    /// free, else the smallest free small identifier.
    fn fresh_id(&self, raw: u128) -> (id: u128)
        ensures
            !has_id(self@, id),
    {
        if !self.contains(raw) {
            return raw;
        }
        let n = self.entries.len();
        let mut k: usize = 0;
        while k < n
            invariant
                k <= n,
                n == self@.len(),
                forall|j: int| 0 <= j < k ==> has_id(self@, #[trigger] (j as u128)),
            decreases n - k,
        {
            if !self.contains(k as u128) {
                return k as u128;
            }
            k += 1;
        }
        if !self.contains(n as u128) {
            return n as u128;
        }
        proof {
            lemma_small_id_free(self@);
            assert(false);
        }
        raw
    }

    /// Adds a segment under a fresh identifier and returns that identifier.
    /// A zero-length segment is rejected and nothing is stored.
    pub fn insert(&mut self, seg: Segment) -> (r: Result<u128, DegenerateSegmentError>)
        requires
            old(self).wf(),
            valid_seg(seg),
        ensures
            final(self).wf(),
            seg.start == seg.end ==> r.is_err() && final(self)@ == old(self)@,
            seg.start != seg.end ==> {
                &&& r.is_ok()
                &&& !has_id(old(self)@, r.unwrap())
                &&& final(self)@ == old(self)@.push((r.unwrap(), seg))
                &&& final(self)@.len() == old(self)@.len() + 1
            },
    {
        if seg.start == seg.end {
            return Err(DegenerateSegmentError);
        }
        let raw = draw_raw_id();
        let id = self.fresh_id(raw);
        self.entries.push((id, seg));
        Ok(id)
    }

    /// Removes the entry carrying `id`; a no-op for an unknown identifier.
    pub fn remove(&mut self, id: u128)
        requires
            old(self).wf(),
        ensures
            final(self).wf(),
            final(self)@ == without_id(old(self)@, id),
            !has_id(final(self)@, id),
            !has_id(old(self)@, id) ==> final(self)@ == old(self)@,
            has_id(old(self)@, id) ==> final(self)@.len() == old(self)@.len() - 1,
    {
        let ghost pre = self@;
        let n = self.entries.len();
        let mut k: usize = 0;
        while k < n
            invariant
                k <= n,
                n == pre.len(),
                self@ == pre,
                pre == old(self)@,
                distinct_ids(pre),
                entries_ok(pre),
                forall|j: int| 0 <= j < k ==> self@[j].0 != id,
            decreases n - k,
        {
            if self.entries[k].0 == id {
                let ghost kk = k as int;
                self.entries.remove(k);
                proof {
                    lemma_without_id_is_remove(pre, id, kk);
                    lemma_without_id(pre, id);
                }
                return;
            }
            k += 1;
        }
        proof {
            lemma_without_id_absent(pre, id);
            lemma_without_id(pre, id);
        }
    }
}

/// Removing an identifier keeps exactly the entries with other identifiers,
/// keeps them distinct and well-formed, and never grows the sequence.
pub proof fn lemma_without_id(s: Seq<Entry>, id: u128)
    ensures
        forall|k: int| 0 <= k < without_id(s, id).len() ==> #[trigger] without_id(s, id)[k].0 != id,
        forall|x: u128| x != id ==> (has_id(without_id(s, id), x) <==> has_id(s, x)),
        !has_id(without_id(s, id), id),
        distinct_ids(s) ==> distinct_ids(without_id(s, id)),
        entries_ok(s) ==> entries_ok(without_id(s, id)),
        without_id(s, id).len() <= s.len(),
        forall|k: int| 0 <= k < without_id(s, id).len() ==> has_id(s, #[trigger] without_id(s, id)[k].0),
    decreases s.len(),
{
    if s.len() == 0 {
    } else {
        lemma_without_id(s.drop_last(), id);
        let rest = without_id(s.drop_last(), id);
        assert(forall|k: int| 0 <= k < s.drop_last().len() ==> s.drop_last()[k] == s[k]);
        if s.last().0 == id {
            assert(without_id(s, id) == rest);
            assert forall|x: u128| x != id && has_id(s, x) implies has_id(rest, x) by {
                let k = choose|k: int| 0 <= k < s.len() && s[k].0 == x;
                assert(k < s.len() - 1);
                assert(has_id(s.drop_last(), x));
            }
        } else {
            let w = rest.push(s.last());
            assert(without_id(s, id) == w);
            assert forall|x: u128| x != id && has_id(s, x) implies has_id(w, x) by {
                let k = choose|k: int| 0 <= k < s.len() && s[k].0 == x;
                if k < s.len() - 1 {
                    assert(has_id(s.drop_last(), x));
                    let j = choose|j: int| 0 <= j < rest.len() && rest[j].0 == x;
                    assert(w[j].0 == x);
                } else {
                    assert(w[w.len() - 1].0 == x);
                }
            }
            assert forall|x: u128| x != id && has_id(w, x) implies has_id(s, x) by {
                let j = choose|j: int| 0 <= j < w.len() && w[j].0 == x;
                if j < w.len() - 1 {
                    assert(has_id(s.drop_last(), x));
                    let k = choose|k: int| 0 <= k < s.drop_last().len() && s.drop_last()[k].0 == x;
                    assert(s[k].0 == x);
                } else {
                    assert(s[s.len() - 1].0 == x);
                }
            }
            if distinct_ids(s) {
                assert forall|i: int, j: int| 0 <= i < j < w.len() implies w[i].0 != w[j].0 by {
                    if j < w.len() - 1 {
                    } else {
                        assert(has_id(s.drop_last(), w[i].0) || w[i].0 == id);
                        if w[i].0 == s.last().0 {
                            let k = choose|k: int|
                                0 <= k < s.drop_last().len() && s.drop_last()[k].0 == w[i].0;
                            assert(s[k].0 == s[s.len() - 1].0);
                            assert(false);
                        }
                    }
                }
            }
        }
    }
}

/// When no entry carries `id`, removal changes nothing.
proof fn lemma_without_id_absent(s: Seq<Entry>, id: u128)
    requires
        !has_id(s, id),
    ensures
        without_id(s, id) == s,
    decreases s.len(),
{
    if s.len() == 0 {
        assert(without_id(s, id) =~= s);
    } else {
        assert(forall|k: int| 0 <= k < s.drop_last().len() ==> s.drop_last()[k] == s[k]);
        assert(s[s.len() - 1].0 != id);
        lemma_without_id_absent(s.drop_last(), id);
        assert(without_id(s, id) =~= s);
    }
}

/// With distinct identifiers, removing `id` found at index `k` is exactly
/// deletion of that index.
proof fn lemma_without_id_is_remove(s: Seq<Entry>, id: u128, k: int)
    requires
        distinct_ids(s),
        0 <= k < s.len(),
        s[k].0 == id,
    ensures
        without_id(s, id) == s.remove(k),
    decreases s.len(),
{
    if k == s.len() - 1 {
        assert(!has_id(s.drop_last(), id));
        lemma_without_id_absent(s.drop_last(), id);
        assert(without_id(s, id) =~= s.remove(k));
    } else {
        assert(s.last().0 != id);
        assert(forall|j: int| 0 <= j < s.drop_last().len() ==> s.drop_last()[j] == s[j]);
        lemma_without_id_is_remove(s.drop_last(), id, k);
        assert(s.drop_last().remove(k) =~= s.remove(k).drop_last());
        assert(s.remove(k).last() == s.last());
        assert(without_id(s, id) =~= s.remove(k));
    }
}

/// Among the identifiers `0 ..= s.len()` at least one is free: there are
/// more candidates than stored entries.
proof fn lemma_small_id_free(s: Seq<Entry>)
    requires
        s.len() < 0x1_0000_0000_0000_0000,
    ensures
        exists|j: int| 0 <= j <= s.len() && !has_id(s, #[trigger] (j as u128)),
{
    let n = s.len() as int;
    let idseq = s.map_values(|e: Entry| e.0 as int);
    let taken = idseq.to_set();
    idseq.lemma_cardinality_of_set();
    seq_to_set_is_finite(idseq);
    if forall|j: int| 0 <= j <= n ==> has_id(s, (#[trigger] (j as u128))) {
        let r = set_int_range(0, n + 1);
        lemma_int_range(0, n + 1);
        assert forall|v: int| r.contains(v) implies taken.contains(v) by {
            assert(0 <= v <= n);
            assert(has_id(s, (v as u128)));
            let k = choose|k: int| 0 <= k < s.len() && s[k].0 == (v as u128);
            assert(idseq[k] == s[k].0 as int);
            assert(idseq[k] == v);
            assert(taken.contains(idseq[k]));
        }
        lemma_len_subset(r, taken);
        assert(false);
    }
    assert(exists|j: int| 0 <= j <= n && !has_id(s, #[trigger] (j as u128)));
}

/// Removing a sequence of identifiers keeps exactly the entries whose
/// identifier is in none of them; order, distinctness and well-formedness
/// are preserved.
pub proof fn lemma_without_ids(s: Seq<Entry>, ids: Seq<u128>)
    ensures
        forall|x: u128|
            has_id(without_ids(s, ids), x) <==> (has_id(s, x) && !ids.contains(x)),
        distinct_ids(s) ==> distinct_ids(without_ids(s, ids)),
        entries_ok(s) ==> entries_ok(without_ids(s, ids)),
        without_ids(s, ids).len() <= s.len(),
    decreases ids.len(),
{
    if ids.len() == 0 {
    } else {
        lemma_without_ids(s, ids.drop_last());
        let prev = without_ids(s, ids.drop_last());
        lemma_without_id(prev, ids.last());
        assert forall|x: u128| has_id(without_ids(s, ids), x) implies (has_id(s, x)
            && !ids.contains(x)) by {
            assert(x != ids.last());
            assert(has_id(prev, x));
            assert(!ids.drop_last().contains(x));
            assert forall|k: int| 0 <= k < ids.len() implies ids[k] != x by {
                if k < ids.len() - 1 {
                    assert(ids.drop_last()[k] == ids[k]);
                }
            }
        }
        assert forall|x: u128| has_id(s, x) && !ids.contains(x) implies has_id(
            without_ids(s, ids),
            x,
        ) by {
            assert(ids[ids.len() - 1] == ids.last());
            assert(x != ids.last());
            assert forall|k: int| 0 <= k < ids.drop_last().len() implies ids.drop_last()[k]
                != x by {
                assert(ids.drop_last()[k] == ids[k]);
            }
            assert(!ids.drop_last().contains(x));
            assert(has_id(prev, x));
        }
    }
}

} // verus!
