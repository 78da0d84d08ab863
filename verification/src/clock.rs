//! The one look at the wall clock: sampling the current local time at
//! minute resolution when a snapshot is taken.

use vstd::prelude::*;
use crate::naming::{encode_snapshot_name, encoded_name, SnapshotTime};
use crate::outcome::RepoError;
use crate::paths::{base_of, base_ok, extract_file_name, is_abs_path};
use crate::repo::{file_name_in_repository, target_in_repository, FsModel};

verus! {

/// What any sampled wall-clock time satisfies: the calendar ranges the
/// clock's source documents.
pub open spec fn plausible_time(t: SnapshotTime) -> bool {
    &&& 1 <= t.day <= 31
    &&& 1 <= t.month <= 12
    &&& 0 <= t.hour <= 23
    &&& 0 <= t.minute <= 59
}

/// Relies on time::OffsetDateTime::now_local for the current local time,
/// and on its component getters day (documented range 1..=31), month
/// (1..=12 as a number), hour (0..24) and minute (0..60). Nothing more
/// is assumed of the sampled moment; where the local UTC offset cannot
/// be determined, nothing is returned.
#[verifier::external_body]
pub fn current_snapshot_time() -> (r: Option<SnapshotTime>)
    ensures
        r matches Some(t) ==> plausible_time(t),
{
    match time::OffsetDateTime::now_local() {
        Ok(now) => Some(
            SnapshotTime {
                day: now.day() as i32,
                month: u8::from(now.month()) as i32,
                year: now.year(),
                hour: now.hour() as i32,
                minute: now.minute() as i32,
            },
        ),
        Err(_) => None,
    }
}

/// Computes where a snapshot of the given file, taken right now, will be
/// stored: the source file's name prefixed with the current local time,
/// placed under the nearest repository root. Whatever moment the clock
/// returns, the resulting path is the encoding of that moment.
pub fn create_output_path(fs: &FsModel, current_dir: &String, input_path: &String) -> (r: Result<
    String,
    RepoError,
>)
    requires
        fs.wf(),
        is_abs_path(current_dir@),
    ensures
        match r {
            Ok(p) => base_ok(input_path@) && (exists|t: SnapshotTime|
                plausible_time(t) && target_in_repository(
                    fs@,
                    current_dir@,
                    encoded_name(t, base_of(input_path@)),
                ) == Result::<Seq<char>, RepoError>::Ok(p@)),
            Err(e) => {
                ||| (e == RepoError::InvalidFileName && !base_ok(input_path@))
                ||| (e == RepoError::ClockUnavailable && base_ok(input_path@))
                ||| ((e == RepoError::RepositoryNotFound || e == RepoError::DuplicateSnapshot)
                    && base_ok(input_path@) && (exists|t: SnapshotTime|
                    plausible_time(t) && target_in_repository(
                        fs@,
                        current_dir@,
                        encoded_name(t, base_of(input_path@)),
                    ) == Result::<Seq<char>, RepoError>::Err(e)))
            },
        },
{
    let name = match extract_file_name(input_path) {
        Ok(n) => n,
        Err(e) => {
            return Err(e);
        },
    };
    let t = match current_snapshot_time() {
        Some(t) => t,
        None => {
            return Err(RepoError::ClockUnavailable);
        },
    };
    let encoded = encode_snapshot_name(name.as_str(), &t);
    file_name_in_repository(fs, current_dir, encoded)
}

} // verus!
