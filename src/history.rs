//! Per-item history of task records gathered from every snapshot, and the
//! last-write-wins merge that picks one record per item.

use vstd::prelude::*;
use crate::civil::{CivilDateTime, lemma_lt_order};

verus! {

/// One observed version of a task item. `payload` is the caller's handle on
/// the opaque remainder of the record, carried through unchanged.
#[derive(Clone, Copy, Debug)]
pub struct TaskRecord {
    pub item_id: u128,
    pub entry_at: CivilDateTime,
    pub modified_at: Option<CivilDateTime>,
    pub payload: usize,
}

/// The time a record is compared by: its modification time, or its creation
/// time when it was never modified.
pub open spec fn effective(r: TaskRecord) -> CivilDateTime {
    match r.modified_at {
        Some(m) => m,
        None => r.entry_at,
    }
}

impl TaskRecord {
    pub fn effective_time(&self) -> (r: CivilDateTime)
        ensures
            r == effective(*self),
            self.modified_at is None ==> r == self.entry_at,
    {
        match self.modified_at {
            Some(m) => m,
            None => self.entry_at,
        }
    }
}

/// A record never modified is compared by its creation time.
pub proof fn lemma_unmodified_compares_by_entry(a: TaskRecord, b: TaskRecord)
    requires
        a.modified_at is None,
    ensures
        effective(a) == a.entry_at,
        effective(a).lt(effective(b)) == a.entry_at.lt(effective(b)),
        effective(b).lt(effective(a)) == effective(b).lt(a.entry_at),
{
}

/// Index of the record a merge keeps from a non-empty list: scanning in list
/// order, a later record replaces the kept one only when strictly newer.
pub open spec fn pick_index(s: Seq<TaskRecord>) -> int
    decreases s.len(),
{
    if s.len() <= 1 {
        0
    } else {
        let p = pick_index(s.drop_last());
        if effective(s[p]).lt(effective(s.last())) {
            s.len() - 1
        } else {
            p
        }
    }
}

/// `s[i]` is the first of the newest records of `s`.
pub open spec fn is_first_latest(s: Seq<TaskRecord>, i: int) -> bool {
    &&& 0 <= i < s.len()
    &&& forall|j: int| 0 <= j < s.len() ==> effective(#[trigger] s[j]).le(effective(s[i]))
    &&& forall|j: int| 0 <= j < i ==> effective(#[trigger] s[j]).lt(effective(s[i]))
}

/// The kept record is the first of the newest ones.
pub proof fn lemma_pick_is_first_latest(s: Seq<TaskRecord>)
    requires
        s.len() > 0,
    ensures
        is_first_latest(s, pick_index(s)),
    decreases s.len(),
{
    if s.len() > 1 {
        let t = s.drop_last();
        lemma_pick_is_first_latest(t);
        let p = pick_index(t);
        let n = s.len() - 1;
        assert forall|j: int| 0 <= j < s.len() implies effective(#[trigger] s[j]).le(
            effective(s[pick_index(s)]),
        ) by {
            if j < n {
                assert(t[j] == s[j]);
                lemma_lt_order(effective(s[j]), effective(s[p]), effective(s[n]));
            }
            lemma_lt_order(effective(s[j]), effective(s[j]), effective(s[j]));
            lemma_lt_order(effective(s[p]), effective(s[n]), effective(s[j]));
        }
        assert forall|j: int| 0 <= j < pick_index(s) implies effective(#[trigger] s[j]).lt(
            effective(s[pick_index(s)]),
        ) by {
            assert(t[j] == s[j]);
            lemma_lt_order(effective(s[j]), effective(s[p]), effective(s[n]));
        }
    }
}

/// There is exactly one first-newest record.
pub proof fn lemma_first_latest_unique(s: Seq<TaskRecord>, i: int, k: int)
    requires
        is_first_latest(s, i),
        is_first_latest(s, k),
    ensures
        i == k,
{
    if i < k {
        lemma_lt_order(effective(s[i]), effective(s[k]), effective(s[k]));
    } else if k < i {
        lemma_lt_order(effective(s[k]), effective(s[i]), effective(s[i]));
    }
}

/// The records of one item: the kept one.
pub open spec fn resolve(s: Seq<TaskRecord>) -> TaskRecord {
    s[pick_index(s)]
}

/// Entries of a merged history: unique item ids, each with a non-empty list of
/// records of that item.
pub open spec fn entries_wf(v: Seq<(u128, Seq<TaskRecord>)>) -> bool {
    &&& forall|i: int, j: int| 0 <= i < j < v.len() ==> v[i].0 != v[j].0
    &&& forall|i: int| 0 <= i < v.len() ==> (#[trigger] v[i]).1.len() > 0
    &&& forall|i: int, k: int|
        0 <= i < v.len() && 0 <= k < v[i].1.len() ==> (#[trigger] v[i].1[k]).item_id == v[i].0
}

/// The entries after one more record: appended to its item's list, or a new
/// entry at the end for an item not seen before.
pub open spec fn with_record(v: Seq<(u128, Seq<TaskRecord>)>, r: TaskRecord) -> Seq<
    (u128, Seq<TaskRecord>),
> {
    if exists|k: int| 0 <= k < v.len() && v[k].0 == r.item_id {
        let k = choose|k: int| 0 <= k < v.len() && v[k].0 == r.item_id;
        v.update(k, (v[k].0, v[k].1.push(r)))
    } else {
        v.push((r.item_id, seq![r]))
    }
}

/// The entries after the records of `rs`, in order.
pub open spec fn with_records(v: Seq<(u128, Seq<TaskRecord>)>, rs: Seq<TaskRecord>) -> Seq<
    (u128, Seq<TaskRecord>),
>
    decreases rs.len(),
{
    if rs.len() == 0 {
        v
    } else {
        with_record(with_records(v, rs.drop_last()), rs.last())
    }
}

/// The merge of the entries: one record per item, in entry order.
pub open spec fn resolved(v: Seq<(u128, Seq<TaskRecord>)>) -> Seq<TaskRecord> {
    Seq::new(v.len(), |k: int| resolve(v[k].1))
}

/// Last write wins: when the records of an item all have distinct effective
/// times, the merge keeps the one with the greatest.
pub proof fn lemma_latest_wins(v: Seq<(u128, Seq<TaskRecord>)>, k: int, i: int)
    requires
        entries_wf(v),
        0 <= k < v.len(),
        0 <= i < v[k].1.len(),
        forall|a: int, b: int|
            0 <= a < b < v[k].1.len() ==> effective(#[trigger] v[k].1[a]) != effective(
                #[trigger] v[k].1[b],
            ),
        forall|j: int| 0 <= j < v[k].1.len() ==> effective(#[trigger] v[k].1[j]).le(effective(v[k].1[i])),
    ensures
        resolved(v)[k] == v[k].1[i],
{
    let s = v[k].1;
    lemma_pick_is_first_latest(s);
    assert forall|j: int| 0 <= j < i implies effective(#[trigger] s[j]).lt(effective(s[i])) by {
        lemma_lt_order(effective(s[j]), effective(s[i]), effective(s[i]));
    }
    lemma_first_latest_unique(s, i, pick_index(s));
}

/// Ties keep the earlier record: when two records of an item share the newest
/// effective time, the merge keeps the one that came first.
pub proof fn lemma_tie_keeps_earlier(v: Seq<(u128, Seq<TaskRecord>)>, k: int, i: int, j: int)
    requires
        entries_wf(v),
        0 <= k < v.len(),
        0 <= i < j < v[k].1.len(),
        effective(v[k].1[i]) == effective(v[k].1[j]),
        forall|m: int|
            0 <= m < v[k].1.len() && m != i && m != j ==> effective(#[trigger] v[k].1[m]).lt(
                effective(v[k].1[i]),
            ),
    ensures
        resolved(v)[k] == v[k].1[i],
{
    let s = v[k].1;
    lemma_pick_is_first_latest(s);
    assert forall|m: int| 0 <= m < s.len() implies effective(#[trigger] s[m]).le(effective(s[i])) by {
        lemma_lt_order(effective(s[m]), effective(s[i]), effective(s[i]));
    }
    lemma_first_latest_unique(s, i, pick_index(s));
}

/// The merge of entries names each item once, with a record of that item.
pub proof fn lemma_resolved_ids(v: Seq<(u128, Seq<TaskRecord>)>)
    requires
        entries_wf(v),
    ensures
        resolved(v).len() == v.len(),
        forall|k: int| 0 <= k < v.len() ==> (#[trigger] resolved(v)[k]).item_id == v[k].0,
{
    assert forall|k: int| 0 <= k < v.len() implies (#[trigger] resolved(v)[k]).item_id == v[k].0 by {
        assert(v[k].1.len() > 0);
        lemma_pick_is_first_latest(v[k].1);
    }
}

/// Records with distinct item ids, added to an empty history, make one
/// single-record entry each, in order.
proof fn lemma_distinct_records_history(rs: Seq<TaskRecord>)
    requires
        forall|a: int, b: int| 0 <= a < b < rs.len() ==> rs[a].item_id != rs[b].item_id,
    ensures
        with_records(Seq::empty(), rs) == Seq::new(rs.len(), |k: int| (rs[k].item_id, seq![rs[k]])),
    decreases rs.len(),
{
    let w = Seq::new(rs.len(), |k: int| (rs[k].item_id, seq![rs[k]]));
    if rs.len() == 0 {
        assert(w =~= Seq::empty());
    } else {
        let t = rs.drop_last();
        lemma_distinct_records_history(t);
        let p = with_records(Seq::empty(), t);
        assert(!exists|c: int| 0 <= c < p.len() && p[c].0 == rs.last().item_id) by {
            assert forall|c: int| 0 <= c < p.len() implies p[c].0 != rs.last().item_id by {
                assert(p[c].0 == rs[c].item_id);
            }
        }
        assert(with_records(Seq::empty(), rs) == p.push((rs.last().item_id, seq![rs.last()])));
        assert(with_records(Seq::empty(), rs) =~= w);
    }
}

/// Merging is stable: the merge of a history built from a merged record set
/// is that record set again, so a second run changes nothing.
pub proof fn lemma_merge_idempotent(v: Seq<(u128, Seq<TaskRecord>)>)
    requires
        entries_wf(v),
    ensures
        resolved(with_records(Seq::empty(), resolved(v))) == resolved(v),
{
    let r = resolved(v);
    lemma_resolved_ids(v);
    lemma_distinct_records_history(r);
    let h = with_records(Seq::empty(), r);
    assert forall|k: int| 0 <= k < r.len() implies #[trigger] resolved(h)[k] == r[k] by {
        assert(h[k].1 == seq![r[k]]);
        assert(pick_index(h[k].1) == 0);
    }
    assert(resolved(h) =~= r);
}

/// Records are kept whole: every merged record is one of the records seen for
/// its item.
pub proof fn lemma_resolved_is_observed(v: Seq<(u128, Seq<TaskRecord>)>, k: int)
    requires
        entries_wf(v),
        0 <= k < v.len(),
    ensures
        v[k].1.contains(resolved(v)[k]),
{
    lemma_pick_is_first_latest(v[k].1);
}

/// Map from item id to all records seen for it, in the order they were added.
pub struct History {
    ids: Vec<u128>,
    lists: Vec<Vec<TaskRecord>>,
}

impl View for History {
    type V = Seq<(u128, Seq<TaskRecord>)>;

    closed spec fn view(&self) -> Self::V {
        Seq::new(self.ids@.len(), |k: int| (self.ids@[k], self.lists@[k]@))
    }
}

impl History {
    pub closed spec fn inv(&self) -> bool {
        &&& self.ids@.len() == self.lists@.len()
        &&& entries_wf(self@)
    }

    pub fn new() -> (r: Self)
        ensures
            r.inv(),
            r@ == Seq::<(u128, Seq<TaskRecord>)>::empty(),
    {
        let r = History { ids: Vec::new(), lists: Vec::new() };
        assert(r@ =~= Seq::<(u128, Seq<TaskRecord>)>::empty());
        r
    }

    pub fn len(&self) -> (r: usize)
        requires
            self.inv(),
        ensures
            r == self@.len(),
    {
        self.ids.len()
    }

    pub fn insert(&mut self, task: TaskRecord)
        requires
            old(self).inv(),
        ensures
            final(self).inv(),
            final(self)@ == with_record(old(self)@, task),
    {
        let key = task.item_id;
        let n = self.ids.len();
        let mut k: usize = 0;
        while k < n
            invariant
                n == self.ids@.len(),
                self.inv(),
                *self == *old(self),
                key == task.item_id,
                0 <= k <= n,
                forall|j: int| 0 <= j < k ==> self.ids@[j] != key,
            decreases n - k,
        {
            if self.ids[k] == key {
                let ghost v = self@;
                let ghost old_lists = self.lists@;
                assert(v[k as int].0 == key);
                self.lists[k].push(task);
                proof {
                    let w = with_record(v, task);
                    assert(exists|c: int| 0 <= c < v.len() && v[c].0 == task.item_id) by {
                        assert(0 <= k < v.len() && v[k as int].0 == task.item_id);
                    }
                    let c = choose|c: int| 0 <= c < v.len() && v[c].0 == task.item_id;
                    assert(c == k);
                    assert(w == v.update(k as int, (v[k as int].0, v[k as int].1.push(task))));
                    assert(self.lists@[k as int]@ == v[k as int].1.push(task));
                    assert forall|i: int| 0 <= i < v.len() implies #[trigger] self@[i] == w[i] by {
                        if i != k {
                            assert(self.lists@[i] == old_lists[i]);
                        }
                    }
                    assert(self@ =~= w);
                    assert(entries_wf(self@)) by {
                        assert forall|i: int, q: int|
                            0 <= i < self@.len() && 0 <= q < self@[i].1.len() implies (
                        #[trigger] self@[i].1[q]).item_id == self@[i].0 by {
                            if i != k {
                                assert(self@[i] == v[i]);
                            } else if q < v[i].1.len() {
                                assert(self@[i].1[q] == v[i].1[q]);
                            }
                        }
                        assert forall|i: int| 0 <= i < self@.len() implies (
                        #[trigger] self@[i]).1.len() > 0 by {
                            if i != k {
                                assert(self@[i] == v[i]);
                            }
                        }
                    }
                }
                return ;
            }
            k = k + 1;
        }
        let ghost v = self@;
        let ghost old_lists = self.lists@;
        let ghost old_ids = self.ids@;
        self.ids.push(key);
        let one = vec![task];
        assert(one@ =~= seq![task]);
        self.lists.push(one);
        proof {
            assert forall|i: int| 0 <= i < v.len() implies #[trigger] self@[i] == v[i] by {
                assert(self.lists@[i] == old_lists[i]);
                assert(self.ids@[i] == old_ids[i]);
            }
            assert(self@[v.len() as int] == (key, seq![task]));
            assert(!exists|c: int| 0 <= c < v.len() && v[c].0 == key);
            assert(self@ =~= v.push((key, seq![task])));
            assert(entries_wf(self@)) by {
                assert forall|i: int| 0 <= i < self@.len() implies (#[trigger] self@[i]).1.len()
                    > 0 by {
                    if i < v.len() {
                        assert(self@[i] == v[i]);
                    }
                }
                assert forall|i: int, q: int|
                    0 <= i < self@.len() && 0 <= q < self@[i].1.len() implies (
                #[trigger] self@[i].1[q]).item_id == self@[i].0 by {
                    if i < v.len() {
                        assert(self@[i] == v[i]);
                    }
                }
            }
        }
    }

    /// Adds the records of one snapshot, in order.
    pub fn insert_all(&mut self, tasks: &Vec<TaskRecord>)
        requires
            old(self).inv(),
        ensures
            final(self).inv(),
            final(self)@ == with_records(old(self)@, tasks@),
    {
        let n = tasks.len();
        let mut i: usize = 0;
        while i < n
            invariant
                n == tasks@.len(),
                0 <= i <= n,
                self.inv(),
                self@ == with_records(old(self)@, tasks@.subrange(0, i as int)),
            decreases n - i,
        {
            self.insert(tasks[i]);
            proof {
                let s = tasks@.subrange(0, i + 1);
                assert(s.drop_last() =~= tasks@.subrange(0, i as int));
            }
            i = i + 1;
        }
        assert(tasks@.subrange(0, n as int) =~= tasks@);
    }

    /// Keeps, for each item, the first of its newest records.
    pub fn merge(&self) -> (r: Vec<TaskRecord>)
        requires
            self.inv(),
        ensures
            r@ == resolved(self@),
    {
        let num_tasks = self.ids.len();
        let mut merged_tasks: Vec<TaskRecord> = Vec::with_capacity(num_tasks);
        let mut k: usize = 0;
        while k < num_tasks
            invariant
                num_tasks == self@.len(),
                self.inv(),
                0 <= k <= num_tasks,
                merged_tasks@ =~= resolved(self@).subrange(0, k as int),
            decreases num_tasks - k,
        {
            let history = &self.lists[k];
            let ghost s = self@[k as int].1;
            assert(s == history@);
            assert(s.len() > 0);
            let mut saved: TaskRecord = history[0];
            let mut modified_time = saved.effective_time();
            let mut j: usize = 1;
            assert(s.subrange(0, 1).drop_last().len() == 0);
            while j < history.len()
                invariant
                    s == history@,
                    1 <= j <= s.len(),
                    saved == resolve(s.subrange(0, j as int)),
                    modified_time == effective(saved),
                decreases s.len() - j,
            {
                let next_task = history[j];
                let next_modified_time = next_task.effective_time();
                proof {
                    let t = s.subrange(0, j + 1);
                    assert(t.drop_last() =~= s.subrange(0, j as int));
                    assert(t.last() == next_task);
                    assert(t[pick_index(t.drop_last())] == t.drop_last()[pick_index(t.drop_last())])
                        by {
                        lemma_pick_is_first_latest(t.drop_last());
                    }
                }
                if modified_time.is_before(&next_modified_time) {
                    saved = next_task;
                    modified_time = next_modified_time;
                }
                j = j + 1;
            }
            assert(s.subrange(0, s.len() as int) =~= s);
            merged_tasks.push(saved);
            k = k + 1;
        }
        merged_tasks
    }
}

} // verus!
