//! The repository operations over a model of the filesystem: a finite
//! map from absolute paths to their statuses. Locating the nearest
//! enclosing repository, initializing one, saving a snapshot and
//! restoring one are verified here against that model; the surrounding
//! program performs the matching probes, directory listings and copies
//! and feeds their outcomes in.

use vstd::prelude::*;
use crate::matcher::{get_query_if_matching, query_match_spec};
use crate::naming::{encode_snapshot_name, encoded_name, lemma_encoded_no_slash, SnapshotTime};
use crate::outcome::{InitResult, PathStatus, RepoError};
use crate::parse::{parse_query_from_args, parse_query_spec, RepositoryQuery};
use crate::paths::{
    base_of, base_ok, extract_file_name, is_abs_path, join_path, join_path_spec, lemma_base_no_slash,
    lemma_join_base, lemma_parent_abs, parent_path, parent_path_spec,
};
use crate::text::views_of;
use crate::timespec::{timespecs_match_spec, Timespec};

verus! {

/// The fixed name of the marker directory that identifies a repository
/// root.
pub open spec fn marker_name() -> Seq<char> {
    ".ohtuv"@
}

/// The marker directory's name.
pub fn marker() -> (r: &'static str)
    ensures
        r@ == marker_name(),
{
    ".ohtuv"
}

/// A finite model of the filesystem: each listed path carries a status,
/// every other path is taken as absent.
pub struct FsModel {
    pub entries: Vec<(String, PathStatus)>,
}

/// The map an entry list denotes; a later entry for the same path would
/// shadow an earlier one.
pub open spec fn fs_map(entries: Seq<(String, PathStatus)>) -> Map<Seq<char>, PathStatus>
    decreases entries.len(),
{
    if entries.len() == 0 {
        Map::<Seq<char>, PathStatus>::empty()
    } else {
        fs_map(entries.drop_last()).insert(entries.last().0@, entries.last().1)
    }
}

/// Status of a path under the model: its mapped status, or absent.
pub open spec fn stat_of(m: Map<Seq<char>, PathStatus>, p: Seq<char>) -> PathStatus {
    if m.contains_key(p) {
        m[p]
    } else {
        PathStatus::NotFound
    }
}

impl View for FsModel {
    type V = Map<Seq<char>, PathStatus>;

    open spec fn view(&self) -> Self::V {
        fs_map(self.entries@)
    }
}

proof fn lemma_fs_map_found(entries: Seq<(String, PathStatus)>, i: int)
    requires
        0 <= i < entries.len(),
        forall|j: int| i < j < entries.len() ==> entries[j].0@ != entries[i].0@,
    ensures
        fs_map(entries).contains_key(entries[i].0@),
        fs_map(entries)[entries[i].0@] == entries[i].1,
    decreases entries.len(),
{
    if i < entries.len() - 1 {
        assert(entries.drop_last()[i] == entries[i]);
        assert(forall|j: int|
            i < j < entries.len() - 1 ==> entries.drop_last()[j] == #[trigger] entries[j]);
        lemma_fs_map_found(entries.drop_last(), i);
    }
}

proof fn lemma_fs_map_absent(entries: Seq<(String, PathStatus)>, p: Seq<char>)
    requires
        forall|j: int| 0 <= j < entries.len() ==> entries[j].0@ != p,
    ensures
        !fs_map(entries).contains_key(p),
    decreases entries.len(),
{
    if entries.len() > 0 {
        lemma_fs_map_absent(entries.drop_last(), p);
    }
}

proof fn lemma_fs_map_update(entries: Seq<(String, PathStatus)>, i: int, e: (String, PathStatus))
    requires
        0 <= i < entries.len(),
        e.0@ == entries[i].0@,
        forall|j: int| 0 <= j < entries.len() && j != i ==> entries[j].0@ != entries[i].0@,
    ensures
        fs_map(entries.update(i, e)) == fs_map(entries).insert(e.0@, e.1),
    decreases entries.len(),
{
    let upd = entries.update(i, e);
    if i == entries.len() - 1 {
        assert(upd.drop_last() =~= entries.drop_last());
        assert(upd.last() == e);
        assert(fs_map(upd) =~= fs_map(entries).insert(e.0@, e.1));
    } else {
        assert(upd.drop_last() =~= entries.drop_last().update(i, e));
        assert(upd.last() == entries.last());
        assert(entries.drop_last()[i] == entries[i]);
        assert(forall|j: int|
            0 <= j < entries.len() - 1 && j != i ==> entries.drop_last()[j] == #[trigger] entries[j]);
        lemma_fs_map_update(entries.drop_last(), i, e);
        assert(entries.last().0@ != entries[i].0@);
        assert(fs_map(upd) =~= fs_map(entries).insert(e.0@, e.1));
    }
}

impl FsModel {
    /// No path is listed twice, so a lookup is unambiguous.
    pub open spec fn wf(&self) -> bool {
        forall|i: int, j: int|
            0 <= i < j < self.entries@.len() ==> #[trigger] self.entries@[i].0@
                != #[trigger] self.entries@[j].0@
    }

    /// A model with nothing in it: every path is absent.
    pub fn new() -> (r: FsModel)
        ensures
            r.wf(),
            r@ == Map::<Seq<char>, PathStatus>::empty(),
            r.entries@.len() == 0,
    {
        FsModel { entries: Vec::new() }
    }

    /// Status of a path under the model.
    pub fn status(&self, path: &String) -> (r: PathStatus)
        requires
            self.wf(),
        ensures
            r == stat_of(self@, path@),
    {
        let mut i: usize = 0;
        while i < self.entries.len()
            invariant
                self.wf(),
                0 <= i <= self.entries@.len(),
                forall|k: int| 0 <= k < i ==> self.entries@[k].0@ != path@,
            decreases self.entries@.len() - i,
        {
            if self.entries[i].0 == *path {
                proof {
                    lemma_fs_map_found(self.entries@, i as int);
                }
                return self.entries[i].1;
            }
            i = i + 1;
        }
        proof {
            lemma_fs_map_absent(self.entries@, path@);
        }
        PathStatus::NotFound
    }

    /// Records the status of a path, replacing what the model held for
    /// it: the listed entry of that path is updated in place, or a new
    /// entry is appended where the path was not listed yet.
    pub fn set_status(&mut self, path: &String, st: PathStatus)
        requires
            old(self).wf(),
        ensures
            final(self).wf(),
            final(self)@ == old(self)@.insert(path@, st),
            ((exists|i: int|
                0 <= i < old(self).entries@.len() && #[trigger] old(self).entries@[i].0@ == path@
                    && final(self).entries@ == old(self).entries@.update(i, (*path, st)))
                || ((forall|i: int|
                0 <= i < old(self).entries@.len() ==> #[trigger] old(self).entries@[i].0@
                    != path@) && final(self).entries@ == old(self).entries@.push((*path, st)))),
    {
        let mut i: usize = 0;
        while i < self.entries.len()
            invariant
                self.wf(),
                self.entries@ == old(self).entries@,
                0 <= i <= self.entries@.len(),
                forall|k: int| 0 <= k < i ==> self.entries@[k].0@ != path@,
            decreases self.entries@.len() - i,
        {
            if self.entries[i].0 == *path {
                let e = (path.clone(), st);
                proof {
                    lemma_fs_map_update(self.entries@, i as int, e);
                    assert(e == (*path, st));
                }
                self.entries.set(i, e);
                proof {
                    assert(old(self).entries@[i as int].0@ == path@);
                    assert(self.entries@ == old(self).entries@.update(i as int, (*path, st)));
                }
                return ;
            }
            i = i + 1;
        }
        let e = (path.clone(), st);
        proof {
            assert(e == (*path, st));
        }
        self.entries.push(e);
        proof {
            assert(self.entries@.drop_last() =~= old(self).entries@);
            assert(self.entries@ == old(self).entries@.push((*path, st)));
        }
    }
}

/// Where the walk from `dir` upward first meets a marker directory: the
/// marker path of `dir` itself, or of the nearest ancestor carrying one;
/// nothing once the walk has reached the filesystem root. The root
/// itself is not probed.
pub open spec fn locate_spec(m: Map<Seq<char>, PathStatus>, dir: Seq<char>) -> Option<Seq<char>>
    decreases dir.len(),
{
    if dir.len() <= 1 {
        Option::None
    } else if stat_of(m, join_path_spec(dir, marker_name())) == PathStatus::Directory {
        Option::Some(join_path_spec(dir, marker_name()))
    } else if parent_path_spec(dir).len() < dir.len() {
        locate_spec(m, parent_path_spec(dir))
    } else {
        Option::None
    }
}

/// Walks from the given directory up through its ancestors, probing the
/// marker path of each, and returns the first that is a directory; the
/// walk ends without a find at the filesystem root.
pub fn find_repository_path(fs: &FsModel, current_dir: &String) -> (r: Option<String>)
    requires
        fs.wf(),
        is_abs_path(current_dir@),
    ensures
        match r {
            Some(p) => locate_spec(fs@, current_dir@) == Option::Some(p@),
            None => locate_spec(fs@, current_dir@) is None,
        },
{
    let mut dir = current_dir.clone();
    while dir.as_str().unicode_len() > 1
        invariant
            fs.wf(),
            is_abs_path(dir@),
            locate_spec(fs@, current_dir@) == locate_spec(fs@, dir@),
        decreases dir@.len(),
    {
        let candidate = join_path(&dir, marker());
        if fs.status(&candidate) == PathStatus::Directory {
            return Some(candidate);
        }
        proof {
            lemma_parent_abs(dir@);
        }
        dir = parent_path(&dir);
    }
    None
}

/// Law: a walk over a filesystem without a marker directory anywhere
/// ends without a find, whatever the starting path.
pub proof fn lemma_locator_no_marker(m: Map<Seq<char>, PathStatus>, start: Seq<char>)
    requires
        forall|d: Seq<char>| stat_of(m, #[trigger] join_path_spec(d, marker_name()))
            != PathStatus::Directory,
    ensures
        locate_spec(m, start) is None,
    decreases start.len(),
{
    if start.len() > 1 && parent_path_spec(start).len() < start.len() {
        lemma_locator_no_marker(m, parent_path_spec(start));
    }
}

/// What initializing a repository in `dir` does to the filesystem and
/// reports: nothing on an existing marker directory or a blocking file;
/// otherwise the marker directory appears, or the creation fails.
pub open spec fn init_spec(
    m: Map<Seq<char>, PathStatus>,
    dir: Seq<char>,
    can_create: bool,
) -> (InitResult, Map<Seq<char>, PathStatus>) {
    let mp = join_path_spec(dir, marker_name());
    match stat_of(m, mp) {
        PathStatus::Directory => (InitResult::AlreadyInitialized, m),
        PathStatus::File => (InitResult::BlockedByFile, m),
        PathStatus::NotFound => if can_create {
            (InitResult::Created, m.insert(mp, PathStatus::Directory))
        } else {
            (InitResult::Failed, m)
        },
    }
}

/// Initializes a repository directly under the given directory (no
/// walk): reports an existing marker directory or a blocking file, and
/// otherwise creates the marker directory. `can_create` carries whether
/// the filesystem permits the creation.
pub fn init_repository(fs: &mut FsModel, directory: &String, can_create: bool) -> (r: InitResult)
    requires
        old(fs).wf(),
    ensures
        final(fs).wf(),
        r == init_spec(old(fs)@, directory@, can_create).0,
        final(fs)@ == init_spec(old(fs)@, directory@, can_create).1,
{
    let mp = join_path(directory, marker());
    match fs.status(&mp) {
        PathStatus::Directory => InitResult::AlreadyInitialized,
        PathStatus::File => InitResult::BlockedByFile,
        PathStatus::NotFound => {
            if can_create {
                fs.set_status(&mp, PathStatus::Directory);
                InitResult::Created
            } else {
                InitResult::Failed
            }
        },
    }
}

/// Law: init is idempotent. Where no marker path exists yet, a first
/// init creates it and reports so; a second init on the outcome reports
/// the repository as already initialized and leaves the filesystem
/// exactly as it was.
pub proof fn lemma_init_idempotent(m: Map<Seq<char>, PathStatus>, dir: Seq<char>)
    requires
        stat_of(m, join_path_spec(dir, marker_name())) == PathStatus::NotFound,
    ensures
        init_spec(m, dir, true).0 == InitResult::Created,
        init_spec(init_spec(m, dir, true).1, dir, true).0 == InitResult::AlreadyInitialized,
        init_spec(init_spec(m, dir, true).1, dir, true).1 == init_spec(m, dir, true).1,
{
}

/// Checks the path handed to the save command: it must be given, exist,
/// and point at a file rather than a directory.
pub fn get_validated_input_path<'a>(fs: &FsModel, input_path: Option<&'a String>) -> (r: Result<
    &'a String,
    RepoError,
>)
    requires
        fs.wf(),
    ensures
        match input_path {
            None => r == Result::<&'a String, RepoError>::Err(RepoError::MissingFileName),
            Some(p) => match stat_of(fs@, p@) {
                PathStatus::File => (r matches Ok(q) && q@ == p@),
                PathStatus::Directory => r == Result::<&'a String, RepoError>::Err(
                    RepoError::InputIsDirectory,
                ),
                PathStatus::NotFound => r == Result::<&'a String, RepoError>::Err(
                    RepoError::InputNotFound,
                ),
            },
        },
{
    let path = match input_path {
        None => {
            return Err(RepoError::MissingFileName);
        },
        Some(p) => p,
    };
    match fs.status(path) {
        PathStatus::File => Ok(path),
        PathStatus::Directory => Err(RepoError::InputIsDirectory),
        PathStatus::NotFound => Err(RepoError::InputNotFound),
    }
}

/// Where a new snapshot named `name` would land: the path under the
/// located repository root, owed exactly when a repository exists and no
/// entry of that name is stored yet.
pub open spec fn target_in_repository(
    m: Map<Seq<char>, PathStatus>,
    cwd: Seq<char>,
    name: Seq<char>,
) -> Result<Seq<char>, RepoError> {
    match locate_spec(m, cwd) {
        Option::None => Result::Err(RepoError::RepositoryNotFound),
        Option::Some(root) => {
            let p = join_path_spec(root, name);
            if stat_of(m, p) == PathStatus::NotFound {
                Result::Ok(p)
            } else {
                Result::Err(RepoError::DuplicateSnapshot)
            }
        },
    }
}

/// Resolves where a snapshot file of the given name belongs: inside the
/// nearest repository, provided no entry of that name is stored yet.
pub fn file_name_in_repository(fs: &FsModel, current_dir: &String, file_name: String) -> (r: Result<
    String,
    RepoError,
>)
    requires
        fs.wf(),
        is_abs_path(current_dir@),
    ensures
        match r {
            Ok(p) => target_in_repository(fs@, current_dir@, file_name@) == Result::<
                Seq<char>,
                RepoError,
            >::Ok(p@),
            Err(e) => target_in_repository(fs@, current_dir@, file_name@) == Result::<
                Seq<char>,
                RepoError,
            >::Err(e),
        },
{
    let root = match find_repository_path(fs, current_dir) {
        None => {
            return Err(RepoError::RepositoryNotFound);
        },
        Some(r) => r,
    };
    let target = join_path(&root, file_name.as_str());
    match fs.status(&target) {
        PathStatus::NotFound => Ok(target),
        _ => Err(RepoError::DuplicateSnapshot),
    }
}

/// What saving a file at time `t` does to the filesystem and reports:
/// the input must be an existing file with a usable name, a repository
/// must be in reach, the encoded name must be free — then, and only
/// then, the snapshot appears there.
pub open spec fn save_spec(
    m: Map<Seq<char>, PathStatus>,
    cwd: Seq<char>,
    input: Option<Seq<char>>,
    t: SnapshotTime,
) -> (Result<Seq<char>, RepoError>, Map<Seq<char>, PathStatus>) {
    match input {
        Option::None => (Result::Err(RepoError::MissingFileName), m),
        Option::Some(p) => match stat_of(m, p) {
            PathStatus::Directory => (Result::Err(RepoError::InputIsDirectory), m),
            PathStatus::NotFound => (Result::Err(RepoError::InputNotFound), m),
            PathStatus::File => if !base_ok(p) {
                (Result::Err(RepoError::InvalidFileName), m)
            } else {
                match target_in_repository(m, cwd, encoded_name(t, base_of(p))) {
                    Result::Ok(tp) => (Result::Ok(tp), m.insert(tp, PathStatus::File)),
                    Result::Err(e) => (Result::Err(e), m),
                }
            },
        },
    }
}

/// Saves a snapshot of the given file, taken at time `t`, into the
/// nearest repository: the stored copy appears under the encoded name,
/// and the returned path is where it went.
pub fn save_file(
    fs: &mut FsModel,
    current_dir: &String,
    input_path: Option<&String>,
    t: SnapshotTime,
) -> (r: Result<String, RepoError>)
    requires
        old(fs).wf(),
        is_abs_path(current_dir@),
    ensures
        final(fs).wf(),
        match r {
            Ok(p) => save_spec(old(fs)@, current_dir@, view_of_input(input_path), t).0
                == Result::<Seq<char>, RepoError>::Ok(p@),
            Err(e) => save_spec(old(fs)@, current_dir@, view_of_input(input_path), t).0
                == Result::<Seq<char>, RepoError>::Err(e),
        },
        final(fs)@ == save_spec(old(fs)@, current_dir@, view_of_input(input_path), t).1,
{
    let input = match get_validated_input_path(fs, input_path) {
        Ok(p) => p,
        Err(e) => {
            return Err(e);
        },
    };
    let name = match extract_file_name(input) {
        Ok(n) => n,
        Err(e) => {
            return Err(e);
        },
    };
    let encoded = encode_snapshot_name(name.as_str(), &t);
    let target = match file_name_in_repository(fs, current_dir, encoded) {
        Ok(p) => p,
        Err(e) => {
            return Err(e);
        },
    };
    fs.set_status(&target, PathStatus::File);
    Ok(target)
}

/// The view of an optional borrowed path.
pub open spec fn view_of_input(input: Option<&String>) -> Option<Seq<char>> {
    match input {
        Option::None => Option::None,
        Option::Some(p) => Option::Some(p@),
    }
}

/// Inserting anything at a path that is no marker path leaves the
/// locator's walk unchanged.
proof fn lemma_locate_insert(
    m: Map<Seq<char>, PathStatus>,
    k: Seq<char>,
    v: PathStatus,
    dir: Seq<char>,
)
    requires
        forall|d: Seq<char>| k != #[trigger] join_path_spec(d, marker_name()),
    ensures
        locate_spec(m.insert(k, v), dir) == locate_spec(m, dir),
    decreases dir.len(),
{
    if dir.len() > 1 {
        assert(k != join_path_spec(dir, marker_name()));
        if parent_path_spec(dir).len() < dir.len() {
            lemma_locate_insert(m, k, v, parent_path_spec(dir));
        }
    }
}

/// The marker name holds no slash and starts with a dot.
proof fn lemma_marker_chars()
    ensures
        forall|i: int| 0 <= i < marker_name().len() ==> marker_name()[i] != '/',
        marker_name().len() == 6,
        marker_name()[0] == '.',
{
    reveal_strlit(".ohtuv");
    assert forall|i: int| 0 <= i < marker_name().len() implies marker_name()[i] != '/' by {
        if i == 0 {
            assert(marker_name()[0] == '.');
        } else if i == 1 {
            assert(marker_name()[1] == 'o');
        } else if i == 2 {
            assert(marker_name()[2] == 'h');
        } else if i == 3 {
            assert(marker_name()[3] == 't');
        } else if i == 4 {
            assert(marker_name()[4] == 'u');
        } else {
            assert(marker_name()[5] == 'v');
        }
    }
}

/// Law: duplicate rejection. After a save has stored a snapshot, saving
/// the same file again with the same encoded minute fails as a duplicate
/// and leaves the filesystem exactly as the first save left it — one
/// stored copy.
pub proof fn lemma_duplicate_rejection(
    m: Map<Seq<char>, PathStatus>,
    cwd: Seq<char>,
    p: Seq<char>,
    t: SnapshotTime,
)
    requires
        save_spec(m, cwd, Option::Some(p), t).0 is Ok,
    ensures
        save_spec(save_spec(m, cwd, Option::Some(p), t).1, cwd, Option::Some(p), t).0
            == Result::<Seq<char>, RepoError>::Err(RepoError::DuplicateSnapshot),
        save_spec(save_spec(m, cwd, Option::Some(p), t).1, cwd, Option::Some(p), t).1
            == save_spec(m, cwd, Option::Some(p), t).1,
{
    let enc = encoded_name(t, base_of(p));
    let root = match locate_spec(m, cwd) {
        Option::Some(r) => r,
        Option::None => Seq::<char>::empty(),
    };
    let tp = join_path_spec(root, enc);
    let m1 = m.insert(tp, PathStatus::File);
    lemma_base_no_slash(p);
    lemma_encoded_no_slash(t, base_of(p));
    lemma_marker_chars();
    reveal_strlit(".");
    assert(enc != "."@);
    assert(marker_name() != "."@);
    lemma_join_base(root, enc);
    assert forall|d: Seq<char>| tp != #[trigger] join_path_spec(d, marker_name()) by {
        if tp == join_path_spec(d, marker_name()) {
            lemma_join_base(d, marker_name());
            assert(base_of(tp) == marker_name());
            assert(base_of(tp) == enc);
            assert(enc[0] != '.');
        }
    }
    lemma_locate_insert(m, tp, PathStatus::File, cwd);
    assert(stat_of(m1, p) == PathStatus::File);
    assert(stat_of(m1, tp) == PathStatus::File);
    assert(target_in_repository(m1, cwd, enc) == Result::<Seq<char>, RepoError>::Err(
        RepoError::DuplicateSnapshot,
    ));
}

/// The entries the matcher keeps, in listing order: those directly
/// inside the repository root whose names decode as snapshots fitting
/// the query. Each kept entry carries its stored path, the decoded
/// original file name, and the decoded save time.
pub open spec fn matches_in(
    entries: Seq<(String, PathStatus)>,
    root: Seq<char>,
    qname: Seq<char>,
    qtime: Timespec,
) -> Seq<(Seq<char>, Seq<char>, Timespec)>
    decreases entries.len(),
{
    if entries.len() == 0 {
        Seq::<(Seq<char>, Seq<char>, Timespec)>::empty()
    } else {
        let init = matches_in(entries.drop_last(), root, qname, qtime);
        let p = entries.last().0@;
        if parent_path_spec(p) == root {
            match query_match_spec(p, qname, qtime) {
                Option::Some((rem, ts)) => init.push((p, rem, ts)),
                Option::None => init,
            }
        } else {
            init
        }
    }
}

/// An executable match listing reports exactly a given sequence of
/// matches: stored path, decoded original file name and decoded save
/// time, element for element.
pub open spec fn listing_matches(
    v: Seq<(String, RepositoryQuery)>,
    ms: Seq<(Seq<char>, Seq<char>, Timespec)>,
) -> bool {
    &&& v.len() == ms.len()
    &&& forall|i: int|
        0 <= i < v.len() ==> #[trigger] v[i].0@ == ms[i].0 && v[i].1.file_name@ == ms[i].1
            && v[i].1.time == ms[i].2
}

proof fn lemma_listing_from_parts(
    v: Seq<(String, RepositoryQuery)>,
    ms: Seq<(Seq<char>, Seq<char>, Timespec)>,
)
    requires
        v.len() == ms.len(),
        forall|k: int|
            0 <= k < v.len() ==> #[trigger] v[k].0@ == ms[k].0 && v[k].1.file_name@ == ms[k].1
                && v[k].1.time == ms[k].2,
    ensures
        listing_matches(v, ms),
{
}

proof fn lemma_listing_len(
    v: Seq<(String, RepositoryQuery)>,
    ms: Seq<(Seq<char>, Seq<char>, Timespec)>,
)
    requires
        listing_matches(v, ms),
    ensures
        v.len() == ms.len(),
{
}

proof fn lemma_parts_from_listing(
    v: Seq<(String, RepositoryQuery)>,
    ms: Seq<(Seq<char>, Seq<char>, Timespec)>,
    k: int,
)
    requires
        listing_matches(v, ms),
        0 <= k < ms.len(),
    ensures
        v.len() == ms.len(),
        v[k].0@ == ms[k].0,
        v[k].1.file_name@ == ms[k].1,
        v[k].1.time == ms[k].2,
{
}

/// Scans the filesystem model for the snapshots matching the query:
/// locates the repository root, then keeps every entry directly inside
/// it that decodes and fits. Fails exactly where no repository is in
/// reach.
pub fn find_matching_files(fs: &FsModel, current_dir: &String, query: &RepositoryQuery) -> (r:
    Result<Vec<(String, RepositoryQuery)>, RepoError>)
    requires
        fs.wf(),
        is_abs_path(current_dir@),
    ensures
        match r {
            Ok(v) => (locate_spec(fs@, current_dir@) matches Option::Some(root)
                && listing_matches(
                v@,
                matches_in(fs.entries@, root, query.file_name@, query.time),
            )),
            Err(e) => e == RepoError::RepositoryNotFound && locate_spec(fs@, current_dir@)
                is None,
        },
{
    let root = match find_repository_path(fs, current_dir) {
        None => {
            return Err(RepoError::RepositoryNotFound);
        },
        Some(r) => r,
    };
    let mut out: Vec<(String, RepositoryQuery)> = Vec::new();
    let mut i: usize = 0;
    while i < fs.entries.len()
        invariant
            fs.wf(),
            0 <= i <= fs.entries@.len(),
            listing_matches(
                out@,
                matches_in(
                    fs.entries@.subrange(0, i as int),
                    root@,
                    query.file_name@,
                    query.time,
                ),
            ),
        decreases fs.entries@.len() - i,
    {
        let ghost prefix = fs.entries@.subrange(0, i as int);
        let ghost cur = fs.entries@.subrange(0, i + 1);
        let ghost qn = query.file_name@;
        let ghost qt = query.time;
        let ghost p = fs.entries@[i as int].0@;
        let ghost old_out = out@;
        let ghost prev_ms = matches_in(prefix, root@, qn, qt);
        let ghost cur_ms = matches_in(cur, root@, qn, qt);
        proof {
            assert(cur.drop_last() =~= prefix);
            assert(cur.last() == fs.entries@[i as int]);
            assert(cur_ms == (if parent_path_spec(p) == root@ {
                match query_match_spec(p, qn, qt) {
                    Option::Some((rem, ts)) => prev_ms.push((p, rem, ts)),
                    Option::None => prev_ms,
                }
            } else {
                prev_ms
            }));
        }
        let entry_path = &fs.entries[i].0;
        let par = parent_path(entry_path);
        let mut pushed = false;
        if par == root {
            match get_query_if_matching(entry_path, query) {
                Some(pair) => {
                    proof {
                        assert(cur_ms == prev_ms.push((p, pair.1.file_name@, pair.1.time)));
                    }
                    out.push(pair);
                    pushed = true;
                    proof {
                        let new_out = out@;
                        lemma_listing_len(old_out, prev_ms);
                        assert forall|k: int|
                            0 <= k < new_out.len() implies #[trigger] new_out[k].0@
                            == cur_ms[k].0 && new_out[k].1.file_name@ == cur_ms[k].1
                            && new_out[k].1.time == cur_ms[k].2 by {
                            if k < old_out.len() {
                                lemma_parts_from_listing(old_out, prev_ms, k);
                                assert(new_out[k] == old_out[k]);
                                assert(cur_ms[k] == prev_ms[k]);
                            } else {
                                assert(new_out[k] == pair);
                                assert(cur_ms[k] == (p, pair.1.file_name@, pair.1.time));
                            }
                        }
                        lemma_listing_from_parts(new_out, cur_ms);
                    }
                },
                None => {},
            }
        }
        if !pushed {
            proof {
                assert(cur_ms == prev_ms);
                assert(out@ == old_out);
                assert(listing_matches(old_out, prev_ms));
                assert(listing_matches(out@, cur_ms));
            }
        }
        i = i + 1;
        proof {
            assert(fs.entries@.subrange(0, i as int) == cur);
        }
    }
    proof {
        assert(fs.entries@.subrange(0, fs.entries@.len() as int) =~= fs.entries@);
    }
    Ok(out)
}

/// Law: what save stores, a fitting restore finds. A snapshot of `name`
/// taken at `t` and stored under the repository root is kept by every
/// query whose fragment ends `name` and whose time constraint fits `t`,
/// and it decodes back to exactly `name` and `t`. (The name of a real
/// file holds no slash and is neither empty nor the current directory.)
pub proof fn lemma_saved_snapshot_matches(
    root: Seq<char>,
    name: Seq<char>,
    t: SnapshotTime,
    qname: Seq<char>,
    qtime: Timespec,
)
    requires
        forall|i: int| 0 <= i < name.len() ==> name[i] != '/',
        name.len() > 0,
        name != "."@,
        crate::text::ends_with_spec(name, qname),
        timespecs_match_spec(
            Timespec::Minute {
                day: t.day,
                month: t.month,
                year: t.year,
                hour: t.hour,
                minute: t.minute,
            },
            qtime,
        ),
    ensures
        query_match_spec(join_path_spec(root, encoded_name(t, name)), qname, qtime)
            == Option::Some(
            (
                name,
                Timespec::Minute {
                    day: t.day,
                    month: t.month,
                    year: t.year,
                    hour: t.hour,
                    minute: t.minute,
                },
            ),
        ),
{
    let enc = encoded_name(t, name);
    let tp = join_path_spec(root, enc);
    lemma_encoded_no_slash(t, name);
    reveal_strlit(".");
    reveal_strlit("..");
    assert(enc != "."@);
    lemma_join_base(root, enc);
    assert(base_of(tp) == enc);
    assert(enc != ".."@);
    assert(base_ok(tp));
    crate::naming::lemma_encode_decode_round_trip(t, name);
}

/// The stored save time of a kept match lies in the given hour.
pub open spec fn in_hour(m: (Seq<char>, Seq<char>, Timespec), hour: i32) -> bool {
    m.2 matches Timespec::Minute { day: _, month: _, year: _, hour: fh, minute: _ } && fh == hour
}

/// The matches whose save time lies in the given hour.
pub open spec fn kept_in_hour(
    ms: Seq<(Seq<char>, Seq<char>, Timespec)>,
    hour: i32,
) -> Seq<(Seq<char>, Seq<char>, Timespec)> {
    ms.filter(|m: (Seq<char>, Seq<char>, Timespec)| in_hour(m, hour))
}

/// Law: specificity narrowing. Adding an hour to a date query keeps
/// exactly those of the date query's matches whose save time lies in
/// that hour — never more, and in the same order.
pub proof fn lemma_specificity_narrowing(
    entries: Seq<(String, PathStatus)>,
    root: Seq<char>,
    qname: Seq<char>,
    day: i32,
    month: i32,
    year: i32,
    hour: i32,
)
    ensures
        matches_in(entries, root, qname, Timespec::Hour { day, month, year, hour })
            == kept_in_hour(
            matches_in(entries, root, qname, Timespec::Date { day, month, year }),
            hour,
        ),
    decreases entries.len(),
{
    reveal(Seq::filter);
    let qh = Timespec::Hour { day, month, year, hour };
    let qd = Timespec::Date { day, month, year };
    if entries.len() == 0 {
        assert(matches_in(entries, root, qname, qh) =~= kept_in_hour(
            matches_in(entries, root, qname, qd),
            hour,
        ));
    } else {
        lemma_specificity_narrowing(entries.drop_last(), root, qname, day, month, year, hour);
        let p = entries.last().0@;
        let dms = matches_in(entries.drop_last(), root, qname, qd);
        match query_match_spec(p, qname, qd) {
            Option::Some((rem, ts)) => {
                if parent_path_spec(p) == root {
                    assert((dms.push((p, rem, ts))).drop_last() =~= dms);
                    if in_hour((p, rem, ts), hour) {
                        assert(query_match_spec(p, qname, qh) == Option::Some((rem, ts)));
                    } else {
                        assert(query_match_spec(p, qname, qh) is None);
                    }
                }
            },
            Option::None => {
                assert(query_match_spec(p, qname, qh) is None);
            },
        }
        assert(matches_in(entries, root, qname, qh) =~= kept_in_hour(
            matches_in(entries, root, qname, qd),
            hour,
        ));
    }
}

/// How a restore request ends.
#[derive(Debug)]
pub enum RestoreOutcome {
    /// The arguments fit no recognized shape; nothing was touched.
    InvalidQuery,
    /// No repository is in reach from the current directory.
    RepositoryNotFound,
    /// No stored snapshot fits the query.
    NoMatch,
    /// Exactly one snapshot fit and was copied back under its original
    /// name in the current directory.
    Restored { stored_path: String, output_path: String },
    /// Several snapshots fit; the listing is handed back so the user can
    /// give a more specific time.
    Ambiguous(Vec<(String, RepositoryQuery)>),
}

/// Restores from the repository by a query: parses the arguments, scans
/// the stored snapshots, and — on exactly one match — copies it back
/// under its decoded original name in the current directory. Zero or
/// several matches are reported without touching the filesystem.
#[verifier::rlimit(60)]
pub fn restore_file(fs: &mut FsModel, current_dir: &String, args: &Vec<String>) -> (r:
    RestoreOutcome)
    requires
        old(fs).wf(),
        is_abs_path(current_dir@),
    ensures
        final(fs).wf(),
        parse_query_spec(views_of(args@)) is None ==> (r is InvalidQuery && final(fs)@ == old(
            fs,
        )@),
        (parse_query_spec(views_of(args@)) is Some && locate_spec(old(fs)@, current_dir@)
            is None) ==> (r is RepositoryNotFound && final(fs)@ == old(fs)@),
        (parse_query_spec(views_of(args@)) matches Option::Some((qname, qtime)) ==> (locate_spec(
            old(fs)@,
            current_dir@,
        ) matches Option::Some(root) ==> (matches_in(old(fs).entries@, root, qname, qtime).len()
            == 0 ==> (r is NoMatch && final(fs)@ == old(fs)@)))),
        (parse_query_spec(views_of(args@)) matches Option::Some((qname, qtime)) ==> (locate_spec(
            old(fs)@,
            current_dir@,
        ) matches Option::Some(root) ==> (matches_in(old(fs).entries@, root, qname, qtime).len()
            == 1 ==> (r matches RestoreOutcome::Restored { stored_path, output_path }
            && stored_path@ == matches_in(old(fs).entries@, root, qname, qtime)[0].0
            && output_path@ == join_path_spec(
            current_dir@,
            matches_in(old(fs).entries@, root, qname, qtime)[0].1,
        ) && final(fs)@ == old(fs)@.insert(
            join_path_spec(current_dir@, matches_in(old(fs).entries@, root, qname, qtime)[0].1),
            PathStatus::File,
        ))))),
        (parse_query_spec(views_of(args@)) matches Option::Some((qname, qtime)) ==> (locate_spec(
            old(fs)@,
            current_dir@,
        ) matches Option::Some(root) ==> (matches_in(old(fs).entries@, root, qname, qtime).len()
            > 1 ==> (r matches RestoreOutcome::Ambiguous(v) && final(fs)@ == old(fs)@
            && listing_matches(v@, matches_in(old(fs).entries@, root, qname, qtime)))))),
{
    let query = match parse_query_from_args(args) {
        None => {
            return RestoreOutcome::InvalidQuery;
        },
        Some(q) => q,
    };
    let matches = match find_matching_files(fs, current_dir, &query) {
        Err(_) => {
            return RestoreOutcome::RepositoryNotFound;
        },
        Ok(v) => v,
    };
    let ghost root = locate_spec(old(fs)@, current_dir@)->0;
    let ghost ms = matches_in(old(fs).entries@, root, query.file_name@, query.time);
    if matches.len() == 0 {
        RestoreOutcome::NoMatch
    } else if matches.len() == 1 {
        proof {
            assert(locate_spec(old(fs)@, current_dir@) is Some);
            assert(listing_matches(matches@, ms));
            lemma_parts_from_listing(matches@, ms, 0);
        }
        let stored_path = matches[0].0.clone();
        let output_path = join_path(current_dir, matches[0].1.file_name.as_str());
        fs.set_status(&output_path, PathStatus::File);
        RestoreOutcome::Restored { stored_path, output_path }
    } else {
        proof {
            assert(listing_matches(matches@, ms));
        }
        RestoreOutcome::Ambiguous(matches)
    }
}

} // verus!
