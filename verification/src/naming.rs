//! The on-disk snapshot name: five dot-separated integers — day, month,
//! year, hour, minute — followed by the original file name, which may
//! itself contain dots. Encoding, decoding, and the round-trip law.

use vstd::prelude::*;
use crate::numbers::{
    fmt_i32, i32_fmt, is_digit_char, lemma_i32_fmt_valid, lemma_nat_digits_are_digits,
    nat_digits, valid_i32_string,
};
use crate::outcome::RepoError;
use crate::parse::{leading_integers_ok, parse_n_integers, piece_value};
use crate::text::{
    join_dots, join_dots_from, lemma_join_split, lemma_split_concat, lemma_split_singleton,
    split_dots, split_dots_exec, views_of,
};
use crate::timespec::Timespec;

verus! {

/// The moment a snapshot was taken, at minute resolution. The fields are
/// plain integers; no calendar validation is attached to them.
#[derive(Debug, Clone, Copy, PartialEq, Eq, Structural)]
pub struct SnapshotTime {
    pub day: i32,
    pub month: i32,
    pub year: i32,
    pub hour: i32,
    pub minute: i32,
}

/// The stored name a snapshot of `name` taken at `t` gets.
pub open spec fn encoded_name(t: SnapshotTime, name: Seq<char>) -> Seq<char> {
    i32_fmt(t.day as int) + seq!['.'] + i32_fmt(t.month as int) + seq!['.'] + i32_fmt(
        t.year as int,
    ) + seq!['.'] + i32_fmt(t.hour as int) + seq!['.'] + i32_fmt(t.minute as int) + seq!['.']
        + name
}

/// A stored name decodes as a snapshot when its first five dot-separated
/// pieces are integers.
pub open spec fn decode_ok(s: Seq<char>) -> bool {
    leading_integers_ok(s, 5)
}

/// The save time a stored name carries, as a fully specified timespec.
pub open spec fn decoded_timespec(s: Seq<char>) -> Timespec {
    Timespec::Minute {
        day: piece_value(s, 0) as i32,
        month: piece_value(s, 1) as i32,
        year: piece_value(s, 2) as i32,
        hour: piece_value(s, 3) as i32,
        minute: piece_value(s, 4) as i32,
    }
}

/// The original file name a stored name carries: everything after its
/// fifth piece, dots restored.
pub open spec fn decoded_remainder(s: Seq<char>) -> Seq<char> {
    join_dots(split_dots(s).subrange(5, split_dots(s).len() as int))
}

/// Encodes a save time and an original file name into the stored name.
pub fn encode_snapshot_name(original_name: &str, t: &SnapshotTime) -> (r: String)
    ensures
        r@ == encoded_name(*t, original_name@),
{
    proof {
        reveal_strlit(".");
    }
    let mut r = fmt_i32(t.day);
    r.append(".");
    r.append(fmt_i32(t.month).as_str());
    r.append(".");
    r.append(fmt_i32(t.year).as_str());
    r.append(".");
    r.append(fmt_i32(t.hour).as_str());
    r.append(".");
    r.append(fmt_i32(t.minute).as_str());
    r.append(".");
    r.append(original_name);
    proof {
        assert(r@ =~= encoded_name(*t, original_name@));
    }
    r
}

/// Reads the save time off a stored name: its first five dot-separated
/// pieces as day, month, year, hour and minute. Fails where the name is
/// no snapshot name.
pub fn extract_timespec_for_file(path: &String) -> (r: Result<Timespec, RepoError>)
    ensures
        match r {
            Ok(t) => decode_ok(path@) && t == decoded_timespec(path@),
            Err(e) => !decode_ok(path@) && e == RepoError::InvalidFileName,
        },
{
    match parse_n_integers(path, 5) {
        Some(v) => Ok(
            Timespec::Minute {
                day: v[0],
                month: v[1],
                year: v[2],
                hour: v[3],
                minute: v[4],
            },
        ),
        None => Err(RepoError::InvalidFileName),
    }
}

/// Decodes a stored name into the save time and the original file name.
pub fn decode_snapshot_name(stored_name: &String) -> (r: Option<(Timespec, String)>)
    ensures
        match r {
            Some((t, rem)) => decode_ok(stored_name@) && t == decoded_timespec(stored_name@)
                && rem@ == decoded_remainder(stored_name@),
            None => !decode_ok(stored_name@),
        },
{
    let timespec = match extract_timespec_for_file(stored_name) {
        Ok(t) => t,
        Err(_) => {
            return None;
        },
    };
    let pieces = split_dots_exec(stored_name.as_str());
    let remainder = join_dots_from(&pieces, 5);
    proof {
        assert(views_of(pieces@).subrange(5, pieces@.len() as int) =~~= split_dots(
            stored_name@,
        ).subrange(5, split_dots(stored_name@).len() as int));
    }
    Some((timespec, remainder))
}

/// A formatted integer holds neither a dot nor a slash, and starts with
/// a digit or a minus sign.
pub proof fn lemma_i32_fmt_chars(n: int)
    requires
        i32::MIN <= n <= i32::MAX,
    ensures
        forall|i: int| 0 <= i < i32_fmt(n).len() ==> i32_fmt(n)[i] != '.',
        forall|i: int| 0 <= i < i32_fmt(n).len() ==> i32_fmt(n)[i] != '/',
        i32_fmt(n).len() >= 1,
        is_digit_char(i32_fmt(n)[0]) || i32_fmt(n)[0] == '-',
{
    if n < 0 {
        lemma_nat_digits_are_digits(-n);
        assert(forall|i: int|
            1 <= i < i32_fmt(n).len() ==> is_digit_char(#[trigger] i32_fmt(n)[i]));
    } else {
        lemma_nat_digits_are_digits(n);
        assert(forall|i: int|
            0 <= i < i32_fmt(n).len() ==> is_digit_char(#[trigger] i32_fmt(n)[i]));
    }
}

/// The pieces of an encoded name: the five formatted fields, then the
/// pieces of the original name.
proof fn lemma_encoded_split(t: SnapshotTime, name: Seq<char>)
    ensures
        split_dots(encoded_name(t, name)) == seq![
            i32_fmt(t.day as int),
            i32_fmt(t.month as int),
            i32_fmt(t.year as int),
            i32_fmt(t.hour as int),
            i32_fmt(t.minute as int),
        ] + split_dots(name),
{
    let a1 = i32_fmt(t.day as int);
    let a2 = i32_fmt(t.month as int);
    let a3 = i32_fmt(t.year as int);
    let a4 = i32_fmt(t.hour as int);
    let a5 = i32_fmt(t.minute as int);
    lemma_i32_fmt_chars(t.day as int);
    lemma_i32_fmt_chars(t.month as int);
    lemma_i32_fmt_chars(t.year as int);
    lemma_i32_fmt_chars(t.hour as int);
    lemma_i32_fmt_chars(t.minute as int);
    let e5 = a5 + seq!['.'] + name;
    let e4 = a4 + seq!['.'] + e5;
    let e3 = a3 + seq!['.'] + e4;
    let e2 = a2 + seq!['.'] + e3;
    let e1 = a1 + seq!['.'] + e2;
    assert(encoded_name(t, name) =~= e1);
    lemma_split_concat(a5, name);
    lemma_split_concat(a4, e5);
    lemma_split_concat(a3, e4);
    lemma_split_concat(a2, e3);
    lemma_split_concat(a1, e2);
    lemma_split_singleton(a1);
    lemma_split_singleton(a2);
    lemma_split_singleton(a3);
    lemma_split_singleton(a4);
    lemma_split_singleton(a5);
    assert(split_dots(encoded_name(t, name)) =~~= seq![a1, a2, a3, a4, a5] + split_dots(name));
}

/// Round trip: a name encoded from a save time and an original file name
/// always decodes, and yields back exactly that time and that name.
pub proof fn lemma_encode_decode_round_trip(t: SnapshotTime, name: Seq<char>)
    ensures
        decode_ok(encoded_name(t, name)),
        decoded_timespec(encoded_name(t, name)) == (Timespec::Minute {
            day: t.day,
            month: t.month,
            year: t.year,
            hour: t.hour,
            minute: t.minute,
        }),
        decoded_remainder(encoded_name(t, name)) == name,
{
    let e = encoded_name(t, name);
    lemma_encoded_split(t, name);
    lemma_i32_fmt_valid(t.day as int);
    lemma_i32_fmt_valid(t.month as int);
    lemma_i32_fmt_valid(t.year as int);
    lemma_i32_fmt_valid(t.hour as int);
    lemma_i32_fmt_valid(t.minute as int);
    crate::text::lemma_split_nonempty(name);
    assert(split_dots(e)[0] == i32_fmt(t.day as int));
    assert(split_dots(e)[1] == i32_fmt(t.month as int));
    assert(split_dots(e)[2] == i32_fmt(t.year as int));
    assert(split_dots(e)[3] == i32_fmt(t.hour as int));
    assert(split_dots(e)[4] == i32_fmt(t.minute as int));
    assert(valid_i32_string(split_dots(e)[0]));
    assert(valid_i32_string(split_dots(e)[1]));
    assert(valid_i32_string(split_dots(e)[2]));
    assert(valid_i32_string(split_dots(e)[3]));
    assert(valid_i32_string(split_dots(e)[4]));
    assert(forall|i: int| 0 <= i < 5 ==> valid_i32_string(#[trigger] split_dots(e)[i]));
    assert(split_dots(e).subrange(5, split_dots(e).len() as int) =~= split_dots(name));
    lemma_join_split(name);
}

/// An encoded name holds no slash, provided the original name holds none.
pub proof fn lemma_encoded_no_slash(t: SnapshotTime, name: Seq<char>)
    requires
        forall|i: int| 0 <= i < name.len() ==> name[i] != '/',
    ensures
        forall|i: int| 0 <= i < encoded_name(t, name).len() ==> encoded_name(t, name)[i] != '/',
        encoded_name(t, name)[0] != '.',
        encoded_name(t, name).len() >= 1,
{
    lemma_i32_fmt_chars(t.day as int);
    lemma_i32_fmt_chars(t.month as int);
    lemma_i32_fmt_chars(t.year as int);
    lemma_i32_fmt_chars(t.hour as int);
    lemma_i32_fmt_chars(t.minute as int);
    assert(encoded_name(t, name)[0] == i32_fmt(t.day as int)[0]);
}

/// The one line a listing prints for a fully specified save time:
/// `day.month.year hour.minute`. Any other timespec prints as nothing.
pub open spec fn formatted_timespec(t: Timespec) -> Seq<char> {
    match t {
        Timespec::Minute { day, month, year, hour, minute } => i32_fmt(day as int) + seq!['.']
            + i32_fmt(month as int) + seq!['.'] + i32_fmt(year as int) + seq![' '] + i32_fmt(
            hour as int,
        ) + seq!['.'] + i32_fmt(minute as int),
        _ => Seq::<char>::empty(),
    }
}

/// Renders a timespec for display in a listing of candidate snapshots.
pub fn format_timespec(timespec: &Timespec) -> (r: String)
    ensures
        r@ == formatted_timespec(*timespec),
{
    proof {
        reveal_strlit(".");
        reveal_strlit(" ");
    }
    match *timespec {
        Timespec::Minute { day, month, year, hour, minute } => {
            let mut r = fmt_i32(day);
            r.append(".");
            r.append(fmt_i32(month).as_str());
            r.append(".");
            r.append(fmt_i32(year).as_str());
            r.append(" ");
            r.append(fmt_i32(hour).as_str());
            r.append(".");
            r.append(fmt_i32(minute).as_str());
            proof {
                assert(r@ =~= formatted_timespec(*timespec));
            }
            r
        },
        _ => String::new(),
    }
}

} // verus!
