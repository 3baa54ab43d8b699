//! Subtitle timing.
//!
//! An edit decision list gives times as `HH:MM:SS:FF`, the last field
//! counting frames. A subtitle file gives them as `HH:MM:SS,mmm`. What a
//! number of frames comes to in milliseconds depends on the frame rate and is
//! worked out by the caller; everything else is done here.

use vstd::prelude::*;
use crate::decimal::{decimal, padded_chars, parse_u64, parsed_u64, push_decimal, zero_padded};
use crate::path::{find_last, last_index_of, lemma_last_index_of, name_chars};
use crate::text::{from_chars, push_all, to_chars};

verus! {

/// The pieces of `s` between the occurrences of `sep`.
pub open spec fn pieces(s: Seq<char>, sep: char) -> Seq<Seq<char>>
    decreases s.len(),
{
    let at = last_index_of(s, sep);
    if at < 0 || at >= s.len() {
        seq![s]
    } else {
        pieces(s.take(at), sep).push(s.skip(at + 1))
    }
}

/// The number that a field of a timecode stands for: what it spells as an
/// unsigned 32-bit integer, or `0` if it spells none.
pub open spec fn field_value(s: Seq<char>) -> u32 {
    match parsed_u64(s) {
        Some(n) => if n <= u32::MAX {
            n as u32
        } else {
            0
        },
        None => 0,
    }
}

/// The fields of a timecode.
#[derive(Clone, Copy, Debug, PartialEq, Eq, Structural)]
pub struct Timecode {
    pub hours: u32,
    pub minutes: u32,
    pub seconds: u32,
    pub frames: u32,
}

/// The timecode that `s` spells, if it has exactly four fields.
pub open spec fn timecode_of(s: Seq<char>) -> Option<Timecode> {
    let fields = pieces(s, ':');
    if fields.len() == 4 {
        Some(
            Timecode {
                hours: field_value(fields[0]),
                minutes: field_value(fields[1]),
                seconds: field_value(fields[2]),
                frames: field_value(fields[3]),
            },
        )
    } else {
        None
    }
}

/// The time of day in milliseconds that the fields add up to.
pub open spec fn total_millis(hours: u32, minutes: u32, seconds: u32, millis: u32) -> nat {
    (hours * 3600000 + minutes * 60000 + seconds * 1000 + millis) as nat
}

/// A time in milliseconds as a subtitle file writes it: `HH:MM:SS,mmm`.
pub open spec fn subtitle_time(total: nat) -> Seq<char> {
    zero_padded(total / 3600000, 2) + seq![':'] + zero_padded(total % 3600000 / 60000, 2) + seq![
        ':',
    ] + zero_padded(total % 60000 / 1000, 2) + seq![','] + zero_padded(total % 1000, 3)
}

/// One entry of a subtitle file: its number, its times, its text and an
/// empty line.
pub open spec fn subtitle_block(
    number: nat,
    start: Seq<char>,
    end: Seq<char>,
    text: Seq<char>,
) -> Seq<char> {
    decimal(number) + seq!['\n'] + start + seq![' ', '-', '-', '>', ' '] + end + seq!['\n'] + text
        + seq!['\n', '\n']
}

/// The pieces of `v[..end]` between the occurrences of `sep`.
fn split_pieces(v: &Vec<char>, end: usize, sep: char) -> (r: Vec<Vec<char>>)
    requires
        end <= v.len(),
    ensures
        r@.len() == pieces(v@.take(end as int), sep).len(),
        forall|i: int| 0 <= i < r@.len() ==> (#[trigger] r@[i])@ == pieces(v@.take(end as int), sep)[i],
    decreases end,
{
    let ghost s = v@.take(end as int);
    proof {
        lemma_last_index_of(s, sep);
    }
    match find_last(v, end, sep) {
        Some(at) => {
            let mut out = split_pieces(v, at, sep);
            let piece = name_chars(v, at + 1, end);
            proof {
                assert(s.take(at as int) =~= v@.take(at as int));
                assert(s.skip(at + 1) =~= v@.subrange(at + 1, end as int));
            }
            out.push(piece);
            out
        },
        None => {
            let mut out: Vec<Vec<char>> = Vec::new();
            out.push(name_chars(v, 0, end));
            proof {
                assert(v@.subrange(0, end as int) =~= s);
            }
            out
        },
    }
}

/// The number that the field `field` stands for.
fn read_field(field: &Vec<char>) -> (r: u32)
    ensures
        r == field_value(field@),
{
    proof {
        assert(field@.subrange(0, field.len() as int) =~= field@);
    }
    match parse_u64(field, 0, field.len()) {
        Some(n) => if n <= u32::MAX as u64 {
            n as u32
        } else {
            0
        },
        None => 0,
    }
}

/// Reads a timecode of four fields separated by `:`. A field that is no
/// number counts as zero; a text with more or fewer fields is no timecode.
pub fn split_timecode(text: &str) -> (r: Option<Timecode>)
    ensures
        r == timecode_of(text@),
{
    let v = to_chars(text);
    proof {
        assert(v@.take(v.len() as int) =~= v@);
    }
    let fields = split_pieces(&v, v.len(), ':');
    if fields.len() == 4 {
        Some(
            Timecode {
                hours: read_field(&fields[0]),
                minutes: read_field(&fields[1]),
                seconds: read_field(&fields[2]),
                frames: read_field(&fields[3]),
            },
        )
    } else {
        None
    }
}

/// The time `hours:minutes:seconds` plus `millis` milliseconds as a subtitle
/// file writes it.
pub fn srt_timestamp(hours: u32, minutes: u32, seconds: u32, millis: u32) -> (r: String)
    ensures
        r@ == subtitle_time(total_millis(hours, minutes, seconds, millis)),
{
    let total: u64 = hours as u64 * 3600000 + minutes as u64 * 60000 + seconds as u64 * 1000
        + millis as u64;
    let mut out: Vec<char> = Vec::new();
    push_all(&mut out, &padded_chars(total / 3600000, 2));
    out.push(':');
    push_all(&mut out, &padded_chars(total % 3600000 / 60000, 2));
    out.push(':');
    push_all(&mut out, &padded_chars(total % 60000 / 1000, 2));
    out.push(',');
    push_all(&mut out, &padded_chars(total % 1000, 3));
    assert(out@ =~= subtitle_time(total as nat));
    from_chars(&out)
}

/// The entry of a subtitle file for the clip with the given number, counted
/// from one, with its times as the subtitle file writes them.
pub fn srt_block(number: u64, start: &str, end: &str, text: &str) -> (r: String)
    ensures
        r@ == subtitle_block(number as nat, start@, end@, text@),
{
    let mut out: Vec<char> = Vec::new();
    push_decimal(&mut out, number);
    out.push('\n');
    push_all(&mut out, &to_chars(start));
    out.push(' ');
    out.push('-');
    out.push('-');
    out.push('>');
    out.push(' ');
    push_all(&mut out, &to_chars(end));
    out.push('\n');
    push_all(&mut out, &to_chars(text));
    out.push('\n');
    out.push('\n');
    assert(out@ =~= subtitle_block(number as nat, start@, end@, text@));
    from_chars(&out)
}

} // verus!
