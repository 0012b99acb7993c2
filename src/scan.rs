//! Recognises the snapshots a sync tool leaves beside the canonical database
//! (`taskchampion.sync-conflict-YYYYMMDD-HHMMSS-CODE.sqlite3`) and orders
//! snapshots for merging.

use vstd::prelude::*;
use crate::civil::{
    CivilDateTime, all_digits, datetime_at, digits_in, fields_at, fields_valid_at, is_digit,
    is_digit_byte, lemma_lt_order,
};

verus! {

/// `taskchampion.sync-conflict-`
pub open spec fn conflict_prefix() -> Seq<u8> {
    seq![
        116u8, 97u8, 115u8, 107u8, 99u8, 104u8, 97u8, 109u8, 112u8, 105u8, 111u8, 110u8, 46u8,
        115u8, 121u8, 110u8, 99u8, 45u8, 99u8, 111u8, 110u8, 102u8, 108u8, 105u8, 99u8, 116u8, 45u8,
    ]
}

/// `.sqlite3`
pub open spec fn conflict_suffix() -> Seq<u8> {
    seq![46u8, 115u8, 113u8, 108u8, 105u8, 116u8, 101u8, 51u8]
}

/// A device code character: an upper-case ASCII letter or a digit.
pub open spec fn is_code_byte(b: u8) -> bool {
    is_digit(b) || (65 <= b <= 90)
}

/// The shape of a conflict snapshot's file name: the prefix, eight digits, a
/// dash, six digits, a dash, a seven-character device code and the suffix.
pub open spec fn is_conflict_name(s: Seq<u8>) -> bool {
    &&& s.len() == 58
    &&& s.subrange(0, 27) == conflict_prefix()
    &&& all_digits(s, 27, 8)
    &&& s[35] == 45u8
    &&& all_digits(s, 36, 6)
    &&& s[42] == 45u8
    &&& forall|k: int| 43 <= k < 50 ==> is_code_byte(#[trigger] s[k])
    &&& s.subrange(50, 58) == conflict_suffix()
}

/// The date-time written in a conflict name.
pub open spec fn conflict_stamp(s: Seq<u8>) -> CivilDateTime {
    fields_at(s, 27, 31, 33, 36, 38, 40)
}

pub open spec fn conflict_stamp_valid(s: Seq<u8>) -> bool {
    fields_valid_at(s, 27, 31, 33, 36, 38, 40)
}

/// The device code in a conflict name.
pub open spec fn conflict_origin(s: Seq<u8>) -> Seq<u8> {
    s.subrange(43, 50)
}

/// One discovered conflict snapshot. `entry` is the position of its file in
/// the directory listing that was scanned.
#[derive(Clone, Debug)]
pub struct ConflictDescriptor {
    pub timestamp: CivilDateTime,
    pub origin_id: Vec<u8>,
    pub entry: usize,
}

impl View for ConflictDescriptor {
    type V = (CivilDateTime, Seq<u8>, int);

    open spec fn view(&self) -> Self::V {
        (self.timestamp, self.origin_id@, self.entry as int)
    }
}

#[derive(Clone, Copy, Debug, PartialEq, Eq)]
pub enum ScanError {
    /// The data directory could not be listed.
    UnreadableDirectory,
    /// The file at this listing position is named like a conflict snapshot
    /// but its date-time is not a calendar date-time.
    InvalidTimestamp { entry: usize },
}

/// One entry of a directory listing: its file name and whether it is a
/// regular file.
#[derive(Clone, Debug)]
pub struct DirEntryInfo {
    pub name: Vec<u8>,
    pub is_file: bool,
}

fn bytes_equal_at(b: &[u8], start: usize, lit: &[u8]) -> (r: bool)
    requires
        start + lit@.len() <= b@.len(),
    ensures
        r == (b@.subrange(start as int, start + lit@.len()) == lit@),
{
    let n = lit.len();
    let _len = b.len();
    let end = start + n;
    let mut k: usize = 0;
    while k < n
        invariant
            n == lit@.len(),
            end == start + n,
            start + n <= b@.len(),
            0 <= k <= n,
            forall|j: int| 0 <= j < k ==> b@[start + j] == lit@[j],
        decreases n - k,
    {
        if b[start + k] != lit[k] {
            assert(b@.subrange(start as int, start + n)[k as int] != lit@[k as int]);
            return false;
        }
        k = k + 1;
    }
    assert(b@.subrange(start as int, start + n) =~= lit@);
    true
}

fn is_code_byte_exec(b: u8) -> (r: bool)
    ensures
        r == is_code_byte(b),
{
    is_digit_byte(b) || (65 <= b && b <= 90)
}

/// Whether `name` has the shape of a conflict snapshot's name.
pub fn is_conflict_name_exec(name: &[u8]) -> (r: bool)
    ensures
        r == is_conflict_name(name@),
{
    if name.len() != 58 {
        return false;
    }
    let prefix: [u8; 27] = [
        116u8, 97u8, 115u8, 107u8, 99u8, 104u8, 97u8, 109u8, 112u8, 105u8, 111u8, 110u8, 46u8,
        115u8, 121u8, 110u8, 99u8, 45u8, 99u8, 111u8, 110u8, 102u8, 108u8, 105u8, 99u8, 116u8, 45u8,
    ];
    let suffix: [u8; 8] = [46u8, 115u8, 113u8, 108u8, 105u8, 116u8, 101u8, 51u8];
    assert(prefix@ =~= conflict_prefix());
    assert(suffix@ =~= conflict_suffix());
    if !bytes_equal_at(name, 0, prefix.as_slice()) || !bytes_equal_at(name, 50, suffix.as_slice()) {
        return false;
    }
    if !digits_in(name, 27, 8) || name[35] != 45u8 || !digits_in(name, 36, 6) || name[42] != 45u8 {
        return false;
    }
    let mut k: usize = 43;
    while k < 50
        invariant
            name@.len() == 58,
            43 <= k <= 50,
            forall|j: int| 43 <= j < k ==> is_code_byte(#[trigger] name@[j]),
        decreases 50 - k,
    {
        if !is_code_byte_exec(name[k]) {
            return false;
        }
        k = k + 1;
    }
    true
}

/// Reads one file name: `Ok(None)` when it is not a conflict name, an error
/// when it is one whose date-time is invalid, else its descriptor.
pub fn parse_conflict_name(name: &[u8], entry: usize) -> (r: Result<
    Option<ConflictDescriptor>,
    ScanError,
>)
    ensures
        !is_conflict_name(name@) ==> r == Ok::<Option<ConflictDescriptor>, ScanError>(None),
        is_conflict_name(name@) && !conflict_stamp_valid(name@) ==> r == Err::<
            Option<ConflictDescriptor>,
            ScanError,
        >(ScanError::InvalidTimestamp { entry }),
        is_conflict_name(name@) && conflict_stamp_valid(name@) ==> (r matches Ok(Some(d)) && d@ == (
        conflict_stamp(name@), conflict_origin(name@), entry as int) && d.timestamp.wf()),
{
    if !is_conflict_name_exec(name) {
        return Ok(None);
    }
    assert(all_digits(name@, 27, 4) && all_digits(name@, 31, 2) && all_digits(name@, 33, 2));
    assert(all_digits(name@, 36, 2) && all_digits(name@, 38, 2) && all_digits(name@, 40, 2));
    match datetime_at(name, 27, 31, 33, 36, 38, 40) {
        None => Err(ScanError::InvalidTimestamp { entry }),
        Some(timestamp) => {
            let mut origin_id: Vec<u8> = Vec::new();
            let mut k: usize = 43;
            while k < 50
                invariant
                    name@.len() == 58,
                    43 <= k <= 50,
                    origin_id@ =~= name@.subrange(43, k as int),
                decreases 50 - k,
            {
                origin_id.push(name[k]);
                k = k + 1;
            }
            Ok(Some(ConflictDescriptor { timestamp, origin_id, entry }))
        },
    }
}

/// Whether listing entry `e` is a conflict snapshot.
pub open spec fn is_conflict_entry(e: DirEntryInfo) -> bool {
    e.is_file && is_conflict_name(e.name@)
}

/// Whether listing entry `e` is a conflict snapshot with an invalid date-time.
pub open spec fn is_bad_entry(e: DirEntryInfo) -> bool {
    is_conflict_entry(e) && !conflict_stamp_valid(e.name@)
}

/// The descriptors of the conflict snapshots among the first `n` entries, in
/// listing order.
pub open spec fn conflicts_in(es: Seq<DirEntryInfo>, n: int) -> Seq<(CivilDateTime, Seq<u8>, int)>
    decreases n,
{
    if n <= 0 {
        Seq::empty()
    } else if is_conflict_entry(es[n - 1]) {
        conflicts_in(es, n - 1).push(
            (conflict_stamp(es[n - 1].name@), conflict_origin(es[n - 1].name@), n - 1),
        )
    } else {
        conflicts_in(es, n - 1)
    }
}

/// Finds the conflict snapshots in a directory listing. Entries that are not
/// regular files, or are not named like a snapshot, are passed over; a
/// snapshot name with an invalid date-time fails the scan at the first one.
pub fn scan_entries(entries: &Vec<DirEntryInfo>) -> (r: Result<Vec<ConflictDescriptor>, ScanError>)
    ensures
        r is Err <==> exists|i: int| 0 <= i < entries@.len() && is_bad_entry(#[trigger] entries@[i]),
        r matches Err(ScanError::InvalidTimestamp { entry }) ==> (entry < entries@.len()
            && is_bad_entry(entries@[entry as int]) && forall|j: int|
            0 <= j < entry ==> !is_bad_entry(#[trigger] entries@[j])),
        r matches Err(e) ==> e is InvalidTimestamp,
        r matches Ok(ds) ==> (ds@.map_values(|d: ConflictDescriptor| d@) == conflicts_in(
            entries@,
            entries@.len() as int,
        ) && forall|k: int| 0 <= k < ds@.len() ==> (#[trigger] ds@[k]).timestamp.wf()),
{
    let n = entries.len();
    let mut conflicts: Vec<ConflictDescriptor> = Vec::new();
    let mut i: usize = 0;
    while i < n
        invariant
            n == entries@.len(),
            0 <= i <= n,
            forall|j: int| 0 <= j < i ==> !is_bad_entry(#[trigger] entries@[j]),
            conflicts@.map_values(|d: ConflictDescriptor| d@) == conflicts_in(entries@, i as int),
            forall|k: int| 0 <= k < conflicts@.len() ==> (#[trigger] conflicts@[k]).timestamp.wf(),
        decreases n - i,
    {
        let e = &entries[i];
        if e.is_file {
            match parse_conflict_name(e.name.as_slice(), i) {
                Err(err) => {
                    return Err(err);
                },
                Ok(Some(d)) => {
                    let ghost before = conflicts@;
                    conflicts.push(d);
                    assert(conflicts@.map_values(|d: ConflictDescriptor| d@) =~= before.map_values(
                        |d: ConflictDescriptor| d@,
                    ).push(d@));
                },
                Ok(None) => {},
            }
        }
        i = i + 1;
    }
    Ok(conflicts)
}

/// Snapshot `a` is merged before snapshot `b`: earlier time first, and on
/// equal times the one discovered first.
pub open spec fn merged_before(t: Seq<CivilDateTime>, a: int, b: int) -> bool {
    t[a].lt(t[b]) || (t[a] == t[b] && a < b)
}

proof fn lemma_merged_before_order(t: Seq<CivilDateTime>)
    ensures
        forall|a: int, b: int, c: int|
            merged_before(t, a, b) && #[trigger] merged_before(t, b, c) ==> #[trigger] merged_before(
                t,
                a,
                c,
            ),
{
    assert forall|a: int, b: int, c: int|
        merged_before(t, a, b) && #[trigger] merged_before(t, b, c) implies #[trigger] merged_before(
        t,
        a,
        c,
    ) by {
        lemma_lt_order(t[a], t[b], t[c]);
    }
}

/// The order in which snapshots are merged: the positions of `times`, sorted
/// by time, ties kept in discovery order.
pub fn processing_order(times: &Vec<CivilDateTime>) -> (r: Vec<usize>)
    ensures
        r@.len() == times@.len(),
        forall|k: int| 0 <= k < r@.len() ==> r@[k] < times@.len(),
        forall|i: usize| i < times@.len() ==> #[trigger] r@.contains(i),
        forall|a: int, b: int|
            0 <= a < b < r@.len() ==> merged_before(times@, #[trigger] r@[a] as int, #[trigger] r@[b] as int),
{
    let n = times.len();
    let mut order: Vec<usize> = Vec::new();
    let mut i: usize = 0;
    proof {
        lemma_merged_before_order(times@);
    }
    while i < n
        invariant
            n == times@.len(),
            0 <= i <= n,
            order@.len() == i,
            forall|k: int| 0 <= k < order@.len() ==> order@[k] < i,
            forall|j: usize| j < i ==> #[trigger] order@.contains(j),
            forall|a: int, b: int|
                0 <= a < b < order@.len() ==> merged_before(
                    times@,
                    #[trigger] order@[a] as int,
                    #[trigger] order@[b] as int,
                ),
            forall|a: int, b: int, c: int|
                merged_before(times@, a, b) && #[trigger] merged_before(times@, b, c)
                    ==> #[trigger] merged_before(times@, a, c),
        decreases n - i,
    {
        let mut p: usize = 0;
        while p < order.len() && !times[i].is_before(&times[order[p]])
            invariant
                n == times@.len(),
                i < n,
                0 <= p <= order@.len(),
                forall|k: int| 0 <= k < order@.len() ==> order@[k] < i,
                forall|q: int| 0 <= q < p ==> merged_before(times@, #[trigger] order@[q] as int, i as int),
            decreases order@.len() - p,
        {
            proof {
                lemma_lt_order(times@[order@[p as int] as int], times@[i as int], times@[i as int]);
            }
            p = p + 1;
        }
        let ghost old_order = order@;
        order.insert(p, i);
        proof {
            assert(order@ == old_order.insert(p as int, i));
            assert forall|a: int, b: int|
                0 <= a < b < order@.len() implies merged_before(
                times@,
                #[trigger] order@[a] as int,
                #[trigger] order@[b] as int,
            ) by {
                if p < old_order.len() {
                    assert(merged_before(times@, i as int, old_order[p as int] as int));
                }
                if a < p && b == p {
                } else if a < p && b > p {
                    assert(order@[b] == old_order[b - 1]);
                    assert(merged_before(times@, order@[a] as int, i as int));
                } else if a == p {
                    assert(order@[b] == old_order[b - 1]);
                    if b - 1 > p {
                        assert(merged_before(times@, old_order[p as int] as int, old_order[b - 1] as int));
                    }
                } else if a > p {
                    assert(order@[a] == old_order[a - 1]);
                    assert(order@[b] == old_order[b - 1]);
                } else {
                    assert(order@[a] == old_order[a]);
                    assert(order@[b] == old_order[b]);
                }
            }
            assert forall|j: usize| j < i + 1 implies #[trigger] order@.contains(j) by {
                if j < i {
                    assert(old_order.contains(j));
                    let q = choose|q: int| 0 <= q < old_order.len() && old_order[q] == j;
                    if q < p {
                        assert(order@[q] == j);
                    } else {
                        assert(order@[q + 1] == j);
                    }
                } else {
                    assert(order@[p as int] == i);
                }
            }
        }
        i = i + 1;
    }
    order
}

/// The times of the snapshots taking part in a merge: the conflict snapshots
/// in discovery order, then the canonical database.
pub open spec fn snapshot_times(ds: Seq<ConflictDescriptor>, canonical: CivilDateTime) -> Seq<
    CivilDateTime,
> {
    Seq::new(ds.len(), |i: int| ds[i].timestamp).push(canonical)
}

/// The order in which to merge the conflict snapshots and the canonical
/// database, whose position is `conflicts.len()`: by time, ties in discovery
/// order with the canonical database discovered last.
pub fn merge_order(conflicts: &Vec<ConflictDescriptor>, canonical: CivilDateTime) -> (r: Vec<usize>)
    ensures
        r@.len() == conflicts@.len() + 1,
        forall|k: int| 0 <= k < r@.len() ==> r@[k] <= conflicts@.len(),
        forall|i: usize| i <= conflicts@.len() ==> #[trigger] r@.contains(i),
        forall|a: int, b: int|
            0 <= a < b < r@.len() ==> merged_before(
                snapshot_times(conflicts@, canonical),
                #[trigger] r@[a] as int,
                #[trigger] r@[b] as int,
            ),
{
    let n = conflicts.len();
    let mut times: Vec<CivilDateTime> = Vec::new();
    let mut i: usize = 0;
    while i < n
        invariant
            n == conflicts@.len(),
            0 <= i <= n,
            times@ =~= Seq::new(i as nat, |j: int| conflicts@[j].timestamp),
        decreases n - i,
    {
        times.push(conflicts[i].timestamp);
        i = i + 1;
    }
    times.push(canonical);
    assert(times@ =~= snapshot_times(conflicts@, canonical));
    processing_order(&times)
}

} // verus!
