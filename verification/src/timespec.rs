//! The time specifications that queries and stored snapshots carry.

use vstd::prelude::*;

verus! {

/// How precisely a point in time is known. A stored snapshot always carries
/// a `Minute` timespec; a query may carry any variant.
#[derive(Debug, Clone, PartialEq, Eq, Structural)]
pub enum Timespec {
    Unspecified,
    Date { day: i32, month: i32, year: i32 },
    Hour { day: i32, month: i32, year: i32, hour: i32 },
    Minute { day: i32, month: i32, year: i32, hour: i32, minute: i32 },
}

/// Whether a stored snapshot's timestamp is consistent with a query's time
/// constraint: `Unspecified` matches anything, `Date` compares day/month/year,
/// `Hour` additionally the hour, `Minute` all five fields. A stored timespec
/// that is not fully specified matches nothing.
pub open spec fn timespecs_match_spec(file_time: Timespec, query_time: Timespec) -> bool {
    match file_time {
        Timespec::Minute { day: fd, month: fmo, year: fy, hour: fh, minute: fmi } => {
            match query_time {
                Timespec::Unspecified => true,
                Timespec::Date { day, month, year } => day == fd && month == fmo && year == fy,
                Timespec::Hour { day, month, year, hour } => day == fd && month == fmo && year
                    == fy && hour == fh,
                Timespec::Minute { day, month, year, hour, minute } => day == fd && month == fmo
                    && year == fy && hour == fh && minute == fmi,
            }
        },
        _ => false,
    }
}

pub fn timespecs_match(file_timespec_original: &Timespec, query_timespec: &Timespec) -> (r: bool)
    ensures
        r == timespecs_match_spec(*file_timespec_original, *query_timespec),
{
    if let Timespec::Minute { day: fd, month: fmo, year: fy, hour: fh, minute: fmi } =
        *file_timespec_original {
        match *query_timespec {
            Timespec::Unspecified => true,
            Timespec::Date { day, month, year } => day == fd && month == fmo && year == fy,
            Timespec::Hour { day, month, year, hour } => day == fd && month == fmo && year == fy
                && hour == fh,
            Timespec::Minute { day, month, year, hour, minute } => day == fd && month == fmo
                && year == fy && hour == fh && minute == fmi,
        }
    } else {
        false
    }
}

} // verus!
