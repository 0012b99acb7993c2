//! Backup folders are named by the date-time of their run
//! (`YYYY-MM-DD_HH-MM-SS`); only the newest `keep` of them are kept.

use vstd::prelude::*;
use crate::civil::{CivilDateTime, all_digits, datetime_at, digits_in, fields_at, fields_valid_at};
use crate::scan::{merged_before, processing_order};

verus! {

/// The shape `YYYY-MM-DD_HH-MM-SS` of a backup folder's name.
pub open spec fn is_backup_name_shape(s: Seq<u8>) -> bool {
    &&& s.len() == 19
    &&& all_digits(s, 0, 4)
    &&& s[4] == 45u8
    &&& all_digits(s, 5, 2)
    &&& s[7] == 45u8
    &&& all_digits(s, 8, 2)
    &&& s[10] == 95u8
    &&& all_digits(s, 11, 2)
    &&& s[13] == 45u8
    &&& all_digits(s, 14, 2)
    &&& s[16] == 45u8
    &&& all_digits(s, 17, 2)
}

/// The name is a backup folder's name with a calendar-valid date-time.
pub open spec fn is_backup_name(s: Seq<u8>) -> bool {
    is_backup_name_shape(s) && fields_valid_at(s, 0, 5, 8, 11, 14, 17)
}

/// The date-time a backup folder's name gives.
pub open spec fn backup_stamp(s: Seq<u8>) -> CivilDateTime {
    fields_at(s, 0, 5, 8, 11, 14, 17)
}

#[derive(Clone, Copy, Debug, PartialEq, Eq)]
pub enum RetentionError {
    /// The folder at this listing position is not named by a date-time.
    InvalidFolderName { entry: usize },
}

/// Reads the date-time of a backup folder from its name.
pub fn parse_backup_folder_name(name: &[u8]) -> (r: Option<CivilDateTime>)
    ensures
        r is Some <==> is_backup_name(name@),
        r matches Some(t) ==> (t == backup_stamp(name@) && t.wf()),
{
    if name.len() != 19 {
        return None;
    }
    if !digits_in(name, 0, 4) || name[4] != 45 || !digits_in(name, 5, 2) || name[7] != 45
        || !digits_in(name, 8, 2) || name[10] != 95 || !digits_in(name, 11, 2) || name[13] != 45
        || !digits_in(name, 14, 2) || name[16] != 45 || !digits_in(name, 17, 2) {
        return None;
    }
    datetime_at(name, 0, 5, 8, 11, 14, 17)
}

/// The date-times of the backup folders named `names`.
pub open spec fn backup_stamps(names: Seq<Vec<u8>>) -> Seq<CivilDateTime> {
    Seq::new(names.len(), |i: int| backup_stamp(names[i]@))
}

/// How many folders go when `n` exist and `keep` may stay.
pub open spec fn excess(n: int, keep: int) -> int {
    if n > keep {
        n - keep
    } else {
        0
    }
}

/// Chooses the backup folders to delete so that at most `keep` remain: the
/// oldest ones by the date-time in their names (on equal date-times, the
/// earlier listed first), oldest first. Fails at the first name that is not a
/// date-time, whatever the count.
pub fn folders_to_prune(names: &Vec<Vec<u8>>, keep: usize) -> (r: Result<Vec<usize>, RetentionError>)
    ensures
        r is Err <==> exists|i: int| 0 <= i < names@.len() && !is_backup_name(#[trigger] names@[i]@),
        r matches Err(RetentionError::InvalidFolderName { entry }) ==> (entry < names@.len()
            && !is_backup_name(names@[entry as int]@) && forall|j: int|
            0 <= j < entry ==> is_backup_name(#[trigger] names@[j]@)),
        r matches Ok(rm) ==> {
            &&& rm@.len() == excess(names@.len() as int, keep as int)
            &&& forall|k: int| 0 <= k < rm@.len() ==> rm@[k] < names@.len()
            &&& forall|a: int, b: int|
                0 <= a < b < rm@.len() ==> merged_before(
                    backup_stamps(names@),
                    #[trigger] rm@[a] as int,
                    #[trigger] rm@[b] as int,
                )
            &&& forall|k: int, j: usize|
                0 <= k < rm@.len() && j < names@.len() && !#[trigger] rm@.contains(j) ==> merged_before(
                    backup_stamps(names@),
                    #[trigger] rm@[k] as int,
                    j as int,
                )
        },
{
    let n = names.len();
    let mut times: Vec<CivilDateTime> = Vec::new();
    let mut i: usize = 0;
    while i < n
        invariant
            n == names@.len(),
            0 <= i <= n,
            times@.len() == i,
            forall|j: int| 0 <= j < i ==> is_backup_name(#[trigger] names@[j]@),
            forall|j: int| 0 <= j < i ==> #[trigger] times@[j] == backup_stamp(names@[j]@),
        decreases n - i,
    {
        match parse_backup_folder_name(names[i].as_slice()) {
            None => {
                return Err(RetentionError::InvalidFolderName { entry: i });
            },
            Some(t) => {
                times.push(t);
            },
        }
        i = i + 1;
    }
    assert(times@ =~= backup_stamps(names@));
    let mut removed: Vec<usize> = Vec::new();
    if n > keep {
        let diff = n - keep;
        let order = processing_order(&times);
        let mut k: usize = 0;
        while k < diff
            invariant
                diff <= n,
                order@.len() == n,
                0 <= k <= diff,
                removed@ =~= order@.subrange(0, k as int),
            decreases diff - k,
        {
            removed.push(order[k]);
            k = k + 1;
        }
        proof {
            assert forall|k: int, j: usize|
                0 <= k < removed@.len() && j < names@.len() && !#[trigger] removed@.contains(j) implies merged_before(
                backup_stamps(names@),
                #[trigger] removed@[k] as int,
                j as int,
            ) by {
                assert(order@.contains(j));
                let q = choose|q: int| 0 <= q < order@.len() && order@[q] == j;
                if q < diff {
                    assert(removed@[q] == j);
                }
                assert(removed@[k] == order@[k]);
                assert(merged_before(times@, order@[k] as int, order@[q] as int));
            }
        }
    }
    Ok(removed)
}

} // verus!
