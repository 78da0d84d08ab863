//! The restore-command argument parser: greedy positional interpretation
//! of 1-3 tokens into a filename fragment and a time constraint.

use vstd::prelude::*;
use crate::numbers::{parse_i32, str_i32_value, valid_i32_string};
use crate::text::{split_dots, split_dots_exec, views_of};
use crate::timespec::Timespec;

verus! {

/// A restore request: a filename suffix to match and a time constraint.
#[derive(Debug, Clone)]
pub struct RepositoryQuery {
    pub file_name: String,
    pub time: Timespec,
}

/// The first `n` dot-separated pieces of the string all parse as `i32`
/// (the string may have further pieces beyond them).
pub open spec fn leading_integers_ok(s: Seq<char>, n: int) -> bool {
    split_dots(s).len() >= n && (forall|i: int|
        0 <= i < n ==> valid_i32_string(#[trigger] split_dots(s)[i]))
}

/// Value of the `i`-th dot-separated piece.
pub open spec fn piece_value(s: Seq<char>, i: int) -> int {
    str_i32_value(split_dots(s)[i])
}

/// A date token: exactly three dot-separated integers.
pub open spec fn date_ok(s: Seq<char>) -> bool {
    split_dots(s).len() == 3 && leading_integers_ok(s, 3)
}

/// An hour-and-minute token: exactly two dot-separated integers.
pub open spec fn hours_minutes_ok(s: Seq<char>) -> bool {
    split_dots(s).len() == 2 && leading_integers_ok(s, 2)
}

/// Reads the first `n` dot-separated pieces of the string as integers;
/// fails where the string has fewer pieces or one of them is not an `i32`.
pub fn parse_n_integers(string: &String, n: usize) -> (r: Option<Vec<i32>>)
    ensures
        match r {
            Some(v) => leading_integers_ok(string@, n as int) && v@.len() == n as int
                && (forall|i: int| 0 <= i < n ==> v@[i] as int == piece_value(string@, i)),
            None => !leading_integers_ok(string@, n as int),
        },
{
    let pieces = split_dots_exec(string.as_str());
    if pieces.len() < n {
        return None;
    }
    let mut values: Vec<i32> = Vec::new();
    let mut i: usize = 0;
    while i < n
        invariant
            0 <= i <= n <= pieces@.len(),
            views_of(pieces@) == split_dots(string@),
            values@.len() == i as int,
            forall|k: int| 0 <= k < i ==> valid_i32_string(#[trigger] split_dots(string@)[k]),
            forall|k: int| 0 <= k < i ==> values@[k] as int == piece_value(string@, k),
        decreases n - i,
    {
        proof {
            assert(views_of(pieces@)[i as int] == pieces@[i as int]@);
        }
        match parse_i32(pieces[i].as_str()) {
            Some(v) => values.push(v),
            None => {
                return None;
            },
        }
        i = i + 1;
    }
    Some(values)
}

/// Reads a token of the exact shape `day.month.year`.
pub fn parse_date(date_arg: &String) -> (r: Option<(i32, i32, i32)>)
    ensures
        match r {
            Some((d, m, y)) => date_ok(date_arg@) && d as int == piece_value(date_arg@, 0)
                && m as int == piece_value(date_arg@, 1) && y as int == piece_value(date_arg@, 2),
            None => !date_ok(date_arg@),
        },
{
    let pieces = split_dots_exec(date_arg.as_str());
    if pieces.len() != 3 {
        return None;
    }
    match parse_n_integers(date_arg, 3) {
        Some(v) => Some((v[0], v[1], v[2])),
        None => None,
    }
}

/// Reads a token of the exact shape `hour.minute`.
pub fn parse_hours_minutes(time_arg: &String) -> (r: Option<(i32, i32)>)
    ensures
        match r {
            Some((h, m)) => hours_minutes_ok(time_arg@) && h as int == piece_value(time_arg@, 0)
                && m as int == piece_value(time_arg@, 1),
            None => !hours_minutes_ok(time_arg@),
        },
{
    let pieces = split_dots_exec(time_arg.as_str());
    if pieces.len() != 2 {
        return None;
    }
    match parse_n_integers(time_arg, 2) {
        Some(v) => Some((v[0], v[1])),
        None => None,
    }
}

/// Reads a token that is one whole integer: the hour.
pub fn parse_hours(time_arg: &String) -> (r: Option<i32>)
    ensures
        match r {
            Some(h) => valid_i32_string(time_arg@) && h as int == str_i32_value(time_arg@),
            None => !valid_i32_string(time_arg@),
        },
{
    parse_i32(time_arg.as_str())
}

/// What the argument list denotes: the filename fragment and the time
/// constraint, tried in this fixed priority order. A lone token is the
/// filename; a leading date token may be followed by an `hour.minute` or
/// an hour token and then the filename; otherwise the second token is the
/// filename. An empty list denotes nothing.
pub open spec fn parse_query_spec(args: Seq<Seq<char>>) -> Option<(Seq<char>, Timespec)> {
    if args.len() == 0 {
        Option::None
    } else if !date_ok(args[0]) || args.len() == 1 {
        Option::Some((args[0], Timespec::Unspecified))
    } else {
        let d = piece_value(args[0], 0) as i32;
        let m = piece_value(args[0], 1) as i32;
        let y = piece_value(args[0], 2) as i32;
        if hours_minutes_ok(args[1]) && args.len() >= 3 {
            let h = piece_value(args[1], 0) as i32;
            let mi = piece_value(args[1], 1) as i32;
            Option::Some(
                (args[2], Timespec::Minute { day: d, month: m, year: y, hour: h, minute: mi }),
            )
        } else if valid_i32_string(args[1]) && args.len() >= 3 {
            let h = str_i32_value(args[1]) as i32;
            Option::Some((args[2], Timespec::Hour { day: d, month: m, year: y, hour: h }))
        } else {
            Option::Some((args[1], Timespec::Date { day: d, month: m, year: y }))
        }
    }
}

/// Parses the restore-command arguments into a structured query, trying
/// the token shapes in the documented priority order and selecting the
/// first that fits; fails only on an empty argument list.
pub fn parse_query_from_args(args: &Vec<String>) -> (r: Option<RepositoryQuery>)
    ensures
        match r {
            Some(q) => parse_query_spec(views_of(args@)) == Option::Some((q.file_name@, q.time)),
            None => parse_query_spec(views_of(args@)) is None,
        },
{
    proof {
        if args@.len() > 0 {
            assert(views_of(args@)[0] == args@[0]@);
        }
        if args@.len() > 1 {
            assert(views_of(args@)[1] == args@[1]@);
        }
        if args@.len() > 2 {
            assert(views_of(args@)[2] == args@[2]@);
        }
    }
    if args.len() == 0 {
        return None;
    }
    let first = &args[0];
    let (d, m, y) = match parse_date(first) {
        Some(dmy) => dmy,
        None => {
            return Some(RepositoryQuery { file_name: first.clone(), time: Timespec::Unspecified });
        },
    };
    if args.len() == 1 {
        return Some(RepositoryQuery { file_name: first.clone(), time: Timespec::Unspecified });
    }
    let second = &args[1];
    if let Some((h, mi)) = parse_hours_minutes(second) {
        if args.len() >= 3 {
            return Some(
                RepositoryQuery {
                    file_name: args[2].clone(),
                    time: Timespec::Minute { day: d, month: m, year: y, hour: h, minute: mi },
                },
            );
        }
    }
    if let Some(h) = parse_hours(second) {
        if args.len() >= 3 {
            return Some(
                RepositoryQuery {
                    file_name: args[2].clone(),
                    time: Timespec::Hour { day: d, month: m, year: y, hour: h },
                },
            );
        }
    }
    Some(
        RepositoryQuery {
            file_name: second.clone(),
            time: Timespec::Date { day: d, month: m, year: y },
        },
    )
}

} // verus!
