use ohtuv::matcher::get_query_if_matching;
use ohtuv::naming::{
    decode_snapshot_name, encode_snapshot_name, extract_timespec_for_file, format_timespec,
    SnapshotTime,
};
use ohtuv::outcome::{InitResult, PathStatus, RepoError};
use ohtuv::parse::{
    parse_date, parse_hours, parse_hours_minutes, parse_n_integers, parse_query_from_args,
    RepositoryQuery,
};
use ohtuv::paths::{extract_file_name, path_is_absolute};
use ohtuv::repo::{
    find_matching_files, find_repository_path, get_validated_input_path, init_repository,
    restore_file, save_file, FsModel, RestoreOutcome,
};
use ohtuv::timespec::{timespecs_match, Timespec};

fn s(x: &str) -> String {
    x.to_string()
}

fn args(xs: &[&str]) -> Vec<String> {
    xs.iter().map(|x| x.to_string()).collect()
}

fn t(day: i32, month: i32, year: i32, hour: i32, minute: i32) -> SnapshotTime {
    SnapshotTime { day, month, year, hour, minute }
}

#[test]
fn parse_date_exact_shape() {
    assert_eq!(parse_date(&s("4.3.2021")), Some((4, 3, 2021)));
    assert_eq!(parse_date(&s("4.3")), None);
    assert_eq!(parse_date(&s("4.3.2021.5")), None);
    assert_eq!(parse_date(&s("4.x.2021")), None);
    assert_eq!(parse_date(&s("-1.-2.-3")), Some((-1, -2, -3)));
}

#[test]
fn parse_hours_minutes_exact_shape() {
    assert_eq!(parse_hours_minutes(&s("9.15")), Some((9, 15)));
    assert_eq!(parse_hours_minutes(&s("9")), None);
    assert_eq!(parse_hours_minutes(&s("9.15.3")), None);
    assert_eq!(parse_hours_minutes(&s("9.")), None);
}

#[test]
fn parse_hours_whole_token() {
    assert_eq!(parse_hours(&s("9")), Some(9));
    assert_eq!(parse_hours(&s("+9")), Some(9));
    assert_eq!(parse_hours(&s("07")), Some(7));
    assert_eq!(parse_hours(&s("9.15")), None);
    assert_eq!(parse_hours(&s("")), None);
    assert_eq!(parse_hours(&s("2147483647")), Some(2147483647));
    assert_eq!(parse_hours(&s("2147483648")), None);
    assert_eq!(parse_hours(&s("-2147483648")), Some(-2147483648));
    assert_eq!(parse_hours(&s("-2147483649")), None);
}

#[test]
fn parse_n_integers_is_greedy() {
    assert_eq!(
        parse_n_integers(&s("1.2.2021.3.4.report.txt"), 5),
        Some(vec![1, 2, 2021, 3, 4])
    );
    assert_eq!(parse_n_integers(&s("1.2.3.4"), 5), None);
    assert_eq!(parse_n_integers(&s("1.2.x.4.5"), 5), None);
}

#[test]
fn query_shapes_in_priority_order() {
    assert!(parse_query_from_args(&args(&[])).is_none());

    let q = parse_query_from_args(&args(&["notes.txt"])).unwrap();
    assert_eq!(q.file_name, "notes.txt");
    assert_eq!(q.time, Timespec::Unspecified);

    let q = parse_query_from_args(&args(&["4.3.2021", "9.15", "notes.txt"])).unwrap();
    assert_eq!(q.file_name, "notes.txt");
    assert_eq!(q.time, Timespec::Minute { day: 4, month: 3, year: 2021, hour: 9, minute: 15 });

    let q = parse_query_from_args(&args(&["4.3.2021", "9", "notes.txt"])).unwrap();
    assert_eq!(q.file_name, "notes.txt");
    assert_eq!(q.time, Timespec::Hour { day: 4, month: 3, year: 2021, hour: 9 });

    let q = parse_query_from_args(&args(&["4.3.2021", "notes.txt"])).unwrap();
    assert_eq!(q.file_name, "notes.txt");
    assert_eq!(q.time, Timespec::Date { day: 4, month: 3, year: 2021 });

    // a time-looking second token is still the filename when no third follows
    let q = parse_query_from_args(&args(&["4.3.2021", "9.15"])).unwrap();
    assert_eq!(q.file_name, "9.15");
    assert_eq!(q.time, Timespec::Date { day: 4, month: 3, year: 2021 });

    // a first token that is no date makes everything after it irrelevant
    let q = parse_query_from_args(&args(&["x.y.z", "9.15", "b"])).unwrap();
    assert_eq!(q.file_name, "x.y.z");
    assert_eq!(q.time, Timespec::Unspecified);

    // a lone date-shaped token is the filename
    let q = parse_query_from_args(&args(&["4.3.2021"])).unwrap();
    assert_eq!(q.file_name, "4.3.2021");
    assert_eq!(q.time, Timespec::Unspecified);
}

#[test]
fn encode_decode_round_trip() {
    let e = encode_snapshot_name("notes.txt", &t(4, 3, 2021, 9, 15));
    assert_eq!(e, "4.3.2021.9.15.notes.txt");
    let (ts, rem) = decode_snapshot_name(&e).unwrap();
    assert_eq!(ts, Timespec::Minute { day: 4, month: 3, year: 2021, hour: 9, minute: 15 });
    assert_eq!(rem, "notes.txt");

    // a name that itself holds dots and digits survives the round trip
    let e = encode_snapshot_name("7.notes.old.txt", &t(31, 12, 1999, 23, 59));
    assert_eq!(e, "31.12.1999.23.59.7.notes.old.txt");
    let (ts, rem) = decode_snapshot_name(&e).unwrap();
    assert_eq!(ts, Timespec::Minute { day: 31, month: 12, year: 1999, hour: 23, minute: 59 });
    assert_eq!(rem, "7.notes.old.txt");

    // a negative year is formatted and read back unchanged
    let e = encode_snapshot_name("a", &t(1, 1, -44, 0, 0));
    assert_eq!(e, "1.1.-44.0.0.a");
    let (ts, rem) = decode_snapshot_name(&e).unwrap();
    assert_eq!(ts, Timespec::Minute { day: 1, month: 1, year: -44, hour: 0, minute: 0 });
    assert_eq!(rem, "a");
}

#[test]
fn decode_rejects_non_snapshot_names() {
    assert!(decode_snapshot_name(&s("notes.txt")).is_none());
    assert!(decode_snapshot_name(&s("1.2.3.4")).is_none());
    assert!(decode_snapshot_name(&s("1.2.3.4.x.txt")).is_none());
    assert!(extract_timespec_for_file(&s("nope")).is_err());
    assert_eq!(
        extract_timespec_for_file(&s("4.3.2021.9.15.notes.txt")),
        Ok(Timespec::Minute { day: 4, month: 3, year: 2021, hour: 9, minute: 15 })
    );
}

#[test]
fn timespec_matching_by_specificity() {
    let stored = Timespec::Minute { day: 1, month: 1, year: 2020, hour: 10, minute: 0 };
    assert!(timespecs_match(&stored, &Timespec::Unspecified));
    assert!(timespecs_match(&stored, &Timespec::Date { day: 1, month: 1, year: 2020 }));
    assert!(!timespecs_match(&stored, &Timespec::Date { day: 2, month: 1, year: 2020 }));
    assert!(timespecs_match(&stored, &Timespec::Hour { day: 1, month: 1, year: 2020, hour: 10 }));
    assert!(!timespecs_match(&stored, &Timespec::Hour { day: 1, month: 1, year: 2020, hour: 11 }));
    assert!(timespecs_match(&stored, &stored.clone()));
    // a stored timespec that is not fully specified matches nothing
    assert!(!timespecs_match(
        &Timespec::Date { day: 1, month: 1, year: 2020 },
        &Timespec::Unspecified
    ));
}

#[test]
fn suffix_matching_on_decoded_remainder() {
    let query = RepositoryQuery { file_name: s("foo.txt"), time: Timespec::Unspecified };
    // ends-with matching: a longer original name still matches
    let kept = get_query_if_matching(&s("/r/1.1.2020.10.0.bar-foo.txt"), &query).unwrap();
    assert_eq!(kept.0, "/r/1.1.2020.10.0.bar-foo.txt");
    assert_eq!(kept.1.file_name, "bar-foo.txt");
    assert_eq!(
        kept.1.time,
        Timespec::Minute { day: 1, month: 1, year: 2020, hour: 10, minute: 0 }
    );
    // but not a name that merely contains the fragment
    assert!(get_query_if_matching(&s("/r/1.1.2020.10.0.foo.txtx"), &query).is_none());
    // and not an entry that is no snapshot
    assert!(get_query_if_matching(&s("/r/readme.md"), &query).is_none());
}

#[test]
fn format_timespec_prints_full_times_only() {
    assert_eq!(
        format_timespec(&Timespec::Minute { day: 4, month: 3, year: 2021, hour: 9, minute: 15 }),
        "4.3.2021 9.15"
    );
    assert_eq!(format_timespec(&Timespec::Date { day: 4, month: 3, year: 2021 }), "");
    assert_eq!(format_timespec(&Timespec::Unspecified), "");
}

#[test]
fn file_names_come_off_paths() {
    assert_eq!(extract_file_name(&s("/a/b.txt")), Ok(s("b.txt")));
    assert_eq!(extract_file_name(&s("b.txt")), Ok(s("b.txt")));
    // trailing slashes and `.` components do not hide the last component
    assert_eq!(extract_file_name(&s("/a/")), Ok(s("a")));
    assert_eq!(extract_file_name(&s("/a/.")), Ok(s("a")));
    assert_eq!(extract_file_name(&s("a//")), Ok(s("a")));
    // but nothing usable remains of these
    assert_eq!(extract_file_name(&s("/a/..")), Err(RepoError::InvalidFileName));
    assert_eq!(extract_file_name(&s("..")), Err(RepoError::InvalidFileName));
    assert_eq!(extract_file_name(&s(".")), Err(RepoError::InvalidFileName));
    assert_eq!(extract_file_name(&s("/")), Err(RepoError::InvalidFileName));
    assert_eq!(extract_file_name(&s("")), Err(RepoError::InvalidFileName));
    // a component merely ending in a dot is an ordinary file name
    assert_eq!(extract_file_name(&s("/a/b.")), Ok(s("b.")));
}

#[test]
fn absolute_paths_are_recognized() {
    assert!(path_is_absolute(&s("/")));
    assert!(path_is_absolute(&s("/a/b")));
    assert!(!path_is_absolute(&s("")));
    assert!(!path_is_absolute(&s("a/b")));
    assert!(!path_is_absolute(&s("/a/")));
    assert!(!path_is_absolute(&s("/a//b")));
}

#[test]
fn locator_walks_upward() {
    let mut fs = FsModel::new();
    // no marker anywhere: the walk ends at the root without a find
    assert_eq!(find_repository_path(&fs, &s("/a/b/c")), None);

    // the nearest marker wins; a marker that is a file is passed over
    fs.set_status(&s("/a/.ohtuv"), PathStatus::Directory);
    fs.set_status(&s("/a/b/.ohtuv"), PathStatus::File);
    assert_eq!(find_repository_path(&fs, &s("/a/b/c")), Some(s("/a/.ohtuv")));
    assert_eq!(find_repository_path(&fs, &s("/a")), Some(s("/a/.ohtuv")));
    // the filesystem root itself is not probed
    fs.set_status(&s("/.ohtuv"), PathStatus::Directory);
    assert_eq!(find_repository_path(&fs, &s("/")), None);
}

#[test]
fn init_twice_reports_already_initialized() {
    let mut fs = FsModel::new();
    assert_eq!(init_repository(&mut fs, &s("/w"), true), InitResult::Created);
    assert_eq!(fs.status(&s("/w/.ohtuv")), PathStatus::Directory);
    assert_eq!(init_repository(&mut fs, &s("/w"), true), InitResult::AlreadyInitialized);
    assert_eq!(fs.status(&s("/w/.ohtuv")), PathStatus::Directory);
}

#[test]
fn init_blocked_or_failed() {
    let mut fs = FsModel::new();
    fs.set_status(&s("/w/.ohtuv"), PathStatus::File);
    assert_eq!(init_repository(&mut fs, &s("/w"), true), InitResult::BlockedByFile);

    let mut fs = FsModel::new();
    assert_eq!(init_repository(&mut fs, &s("/w"), false), InitResult::Failed);
    assert_eq!(fs.status(&s("/w/.ohtuv")), PathStatus::NotFound);
}

#[test]
fn save_validates_its_input() {
    let mut fs = FsModel::new();
    fs.set_status(&s("/w/.ohtuv"), PathStatus::Directory);
    fs.set_status(&s("/w/d"), PathStatus::Directory);
    let when = t(4, 3, 2021, 9, 15);
    assert_eq!(save_file(&mut fs, &s("/w"), None, when), Err(RepoError::MissingFileName));
    assert_eq!(
        save_file(&mut fs, &s("/w"), Some(&s("/w/d")), when),
        Err(RepoError::InputIsDirectory)
    );
    assert_eq!(
        save_file(&mut fs, &s("/w"), Some(&s("/w/gone")), when),
        Err(RepoError::InputNotFound)
    );

    let mut fs = FsModel::new();
    fs.set_status(&s("/w/n.txt"), PathStatus::File);
    assert_eq!(
        save_file(&mut fs, &s("/w"), Some(&s("/w/n.txt")), when),
        Err(RepoError::RepositoryNotFound)
    );

    // a path without a usable file name is rejected even when it exists
    let mut fs = FsModel::new();
    fs.set_status(&s("/w/.ohtuv"), PathStatus::Directory);
    fs.set_status(&s("/w/.."), PathStatus::File);
    assert_eq!(
        save_file(&mut fs, &s("/w"), Some(&s("/w/..")), when),
        Err(RepoError::InvalidFileName)
    );
}

#[test]
fn saving_twice_in_one_minute_is_rejected() {
    let mut fs = FsModel::new();
    fs.set_status(&s("/w/.ohtuv"), PathStatus::Directory);
    fs.set_status(&s("/w/notes.txt"), PathStatus::File);
    let when = t(4, 3, 2021, 9, 15);
    assert_eq!(
        save_file(&mut fs, &s("/w"), Some(&s("/w/notes.txt")), when),
        Ok(s("/w/.ohtuv/4.3.2021.9.15.notes.txt"))
    );
    assert_eq!(fs.status(&s("/w/.ohtuv/4.3.2021.9.15.notes.txt")), PathStatus::File);
    assert_eq!(
        save_file(&mut fs, &s("/w"), Some(&s("/w/notes.txt")), when),
        Err(RepoError::DuplicateSnapshot)
    );
    // a later minute goes through
    assert_eq!(
        save_file(&mut fs, &s("/w"), Some(&s("/w/notes.txt")), t(4, 3, 2021, 9, 16)),
        Ok(s("/w/.ohtuv/4.3.2021.9.16.notes.txt"))
    );
}

#[test]
fn specificity_narrows_ambiguous_matches() {
    let mut fs = FsModel::new();
    fs.set_status(&s("/w/.ohtuv"), PathStatus::Directory);
    fs.set_status(&s("/w/.ohtuv/1.1.2020.10.0.a"), PathStatus::File);
    fs.set_status(&s("/w/.ohtuv/1.1.2020.11.0.a"), PathStatus::File);

    let date_query = RepositoryQuery {
        file_name: s("a"),
        time: Timespec::Date { day: 1, month: 1, year: 2020 },
    };
    let found = find_matching_files(&fs, &s("/w"), &date_query).unwrap();
    assert_eq!(found.len(), 2);

    match restore_file(&mut fs, &s("/w"), &args(&["1.1.2020", "a"])) {
        RestoreOutcome::Ambiguous(list) => assert_eq!(list.len(), 2),
        other => panic!("expected an ambiguous outcome, got {:?}", other),
    }

    match restore_file(&mut fs, &s("/w"), &args(&["1.1.2020", "10", "a"])) {
        RestoreOutcome::Restored { stored_path, output_path } => {
            assert_eq!(stored_path, "/w/.ohtuv/1.1.2020.10.0.a");
            assert_eq!(output_path, "/w/a");
        },
        other => panic!("expected a restore, got {:?}", other),
    }
    assert_eq!(fs.status(&s("/w/a")), PathStatus::File);
}

#[test]
fn restore_reports_bad_queries_and_empty_repositories() {
    let mut fs = FsModel::new();
    match restore_file(&mut fs, &s("/w"), &args(&[])) {
        RestoreOutcome::InvalidQuery => {},
        other => panic!("expected an invalid query, got {:?}", other),
    }
    match restore_file(&mut fs, &s("/w"), &args(&["a"])) {
        RestoreOutcome::RepositoryNotFound => {},
        other => panic!("expected no repository, got {:?}", other),
    }
    fs.set_status(&s("/w/.ohtuv"), PathStatus::Directory);
    match restore_file(&mut fs, &s("/w"), &args(&["a"])) {
        RestoreOutcome::NoMatch => {},
        other => panic!("expected no match, got {:?}", other),
    }
}

#[test]
fn end_to_end_init_save_restore() {
    let mut fs = FsModel::new();
    assert_eq!(init_repository(&mut fs, &s("/work"), true), InitResult::Created);
    fs.set_status(&s("/work/notes.txt"), PathStatus::File);
    assert_eq!(
        save_file(&mut fs, &s("/work"), Some(&s("/work/notes.txt")), t(4, 3, 2021, 9, 15)),
        Ok(s("/work/.ohtuv/4.3.2021.9.15.notes.txt"))
    );
    // restoring from a subdirectory finds the repository above it
    match restore_file(&mut fs, &s("/work/sub"), &args(&["4.3.2021", "notes.txt"])) {
        RestoreOutcome::Restored { stored_path, output_path } => {
            assert_eq!(stored_path, "/work/.ohtuv/4.3.2021.9.15.notes.txt");
            assert_eq!(output_path, "/work/sub/notes.txt");
        },
        other => panic!("expected a restore, got {:?}", other),
    }
    assert_eq!(fs.status(&s("/work/sub/notes.txt")), PathStatus::File);
}

#[test]
fn validated_input_is_the_given_file() {
    let mut fs = FsModel::new();
    fs.set_status(&s("/w/n.txt"), PathStatus::File);
    let p = s("/w/n.txt");
    assert_eq!(get_validated_input_path(&fs, Some(&p)), Ok(&p));
    assert_eq!(get_validated_input_path(&fs, None), Err(RepoError::MissingFileName));
}

#[test]
fn snapshot_name_from_the_wall_clock() {
    let mut fs = FsModel::new();
    fs.set_status(&s("/w/.ohtuv"), PathStatus::Directory);
    fs.set_status(&s("/w/n.txt"), PathStatus::File);
    match ohtuv::clock::create_output_path(&fs, &s("/w"), &s("/w/n.txt")) {
        Ok(p) => {
            assert!(p.starts_with("/w/.ohtuv/"));
            assert!(p.ends_with(".n.txt"));
            let name = extract_file_name(&p).unwrap();
            let (ts, rem) = decode_snapshot_name(&name).unwrap();
            assert_eq!(rem, "n.txt");
            match ts {
                Timespec::Minute { day, month, year, hour, minute } => {
                    assert!((1..=31).contains(&day));
                    assert!((1..=12).contains(&month));
                    assert!(year >= 2020);
                    assert!((0..=23).contains(&hour));
                    assert!((0..=59).contains(&minute));
                },
                other => panic!("expected a full timestamp, got {:?}", other),
            }
        },
        // the local UTC offset cannot always be determined in a test run
        Err(RepoError::ClockUnavailable) => {},
        Err(other) => panic!("unexpected error {:?}", other),
    }
}
