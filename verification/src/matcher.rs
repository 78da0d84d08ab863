//! Holding one stored entry against a query: decode its name, match the
//! original file name by suffix, and match the timestamps.

use vstd::prelude::*;
use crate::naming::{decode_ok, decode_snapshot_name, decoded_remainder, decoded_timespec};
use crate::parse::RepositoryQuery;
use crate::paths::{base_of, base_ok, extract_file_name};
use crate::text::{ends_with_spec, str_ends_with};
use crate::timespec::{timespecs_match, timespecs_match_spec, Timespec};

verus! {

/// What a stored entry contributes to a query's match set: the decoded
/// original file name and save time, provided the entry's name decodes,
/// the original name ends with the query's fragment, and the save time is
/// consistent with the query's constraint; nothing otherwise.
pub open spec fn query_match_spec(path: Seq<char>, qname: Seq<char>, qtime: Timespec) -> Option<
    (Seq<char>, Timespec),
> {
    if !base_ok(path) {
        Option::None
    } else {
        let stored = base_of(path);
        if !decode_ok(stored) {
            Option::None
        } else {
            let t = decoded_timespec(stored);
            let rem = decoded_remainder(stored);
            if ends_with_spec(rem, qname) && timespecs_match_spec(t, qtime) {
                Option::Some((rem, t))
            } else {
                Option::None
            }
        }
    }
}

/// Holds the entry at `path` against the query. A kept entry comes back
/// as the stored path paired with the decoded original file name and the
/// decoded save time; an entry whose name is no snapshot name, or which
/// does not fit the query, is dropped.
pub fn get_query_if_matching(path: &String, query: &RepositoryQuery) -> (r: Option<
    (String, RepositoryQuery),
>)
    ensures
        match r {
            Some(p) => p.0@ == path@ && query_match_spec(path@, query.file_name@, query.time)
                == Option::Some((p.1.file_name@, p.1.time)),
            None => query_match_spec(path@, query.file_name@, query.time) is None,
        },
{
    let stored = match extract_file_name(path) {
        Ok(n) => n,
        Err(_) => {
            return None;
        },
    };
    let (timespec, remainder) = match decode_snapshot_name(&stored) {
        Some(tr) => tr,
        None => {
            return None;
        },
    };
    if str_ends_with(remainder.as_str(), query.file_name.as_str()) && timespecs_match(
        &timespec,
        &query.time,
    ) {
        Some((path.clone(), RepositoryQuery { file_name: remainder, time: timespec }))
    } else {
        None
    }
}

} // verus!
