//! File sizes as people write them.
//!
//! A size is written as a whole number followed by a unit: `B`, `KB`, `MB`
//! or `GB`, each 1024 times the one before. Without a unit the number counts
//! bytes. Case and surrounding whitespace do not matter.

use vstd::prelude::*;
use crate::decimal::{
    decimal, digit_char, is_digit, lemma_decimal_round_trip, parse_u64, parsed_u64, push_decimal,
};
use crate::text::{
    ends_with, from_chars, has_suffix, to_chars, trim, trimmed, uppercase, uppercase_of,
};

verus! {

/// Bytes in a kilobyte.
pub const KB: u64 = 1024;

/// Bytes in a megabyte.
pub const MB: u64 = 1048576;

/// Bytes in a gigabyte.
pub const GB: u64 = 1073741824;

/// `s` without any repetitions of `unit` at its end.
pub open spec fn without_trailing(s: Seq<char>, unit: Seq<char>) -> Seq<char>
    decreases s.len(),
{
    if unit.len() > 0 && ends_with(s, unit) {
        without_trailing(s.take(s.len() - unit.len()), unit)
    } else {
        s
    }
}

/// The number of bytes that the text `upper` stands for, where `upper` is in
/// upper case and has no whitespace around it. The unit is the first of
/// `KB`, `MB`, `GB` and `B` that the text ends with; what comes before the
/// unit has to be an unsigned number. `None` if it is not, or if the size
/// does not fit 64 bits.
pub open spec fn size_from_upper(upper: Seq<char>) -> Option<u64> {
    let (unit, factor) = if ends_with(upper, seq!['K', 'B']) {
        (seq!['K', 'B'], KB as int)
    } else if ends_with(upper, seq!['M', 'B']) {
        (seq!['M', 'B'], MB as int)
    } else if ends_with(upper, seq!['G', 'B']) {
        (seq!['G', 'B'], GB as int)
    } else if ends_with(upper, seq!['B']) {
        (seq!['B'], 1int)
    } else {
        (Seq::<char>::empty(), 1int)
    };
    match parsed_u64(without_trailing(upper, unit)) {
        Some(n) => if n * factor <= u64::MAX {
            Some((n * factor) as u64)
        } else {
            None
        },
        None => None,
    }
}

/// The number of bytes that the text `s` stands for.
pub open spec fn size_of_text(s: Seq<char>) -> Option<u64> {
    size_from_upper(uppercase_of(trimmed(s)))
}

/// Length of `v` without any repetitions of `unit` at its end.
fn strip_unit(v: &Vec<char>, unit: &Vec<char>) -> (end: usize)
    requires
        unit.len() > 0,
    ensures
        end <= v.len(),
        v@.take(end as int) == without_trailing(v@, unit@),
{
    let mut end: usize = v.len();
    proof {
        assert(v@.take(end as int) == v@);
    }
    loop
        invariant
            end <= v.len(),
            unit.len() > 0,
            without_trailing(v@.take(end as int), unit@) == without_trailing(v@, unit@),
        ensures
            end <= v.len(),
            v@.take(end as int) == without_trailing(v@, unit@),
        decreases end,
    {
        let ghost s = v@.take(end as int);
        if end < unit.len() {
            break ;
        }
        let base = end - unit.len();
        let mut j: usize = 0;
        let mut same = true;
        while j < unit.len()
            invariant
                j <= unit.len(),
                base + unit.len() == end,
                end <= v.len(),
                same ==> forall|k: int| 0 <= k < j ==> v@[base + k] == unit@[k],
                !same ==> exists|k: int| 0 <= k < unit.len() && v@[base + k] != unit@[k],
            decreases unit.len() - j,
        {
            if v[base + j] != unit[j] {
                same = false;
            }
            j += 1;
        }
        if same {
            proof {
                assert(s.skip(s.len() - unit@.len()) =~= unit@);
                assert(s.take(s.len() - unit@.len()) =~= v@.take(base as int));
            }
            end = base;
        } else {
            proof {
                let k = choose|k: int| 0 <= k < unit.len() && v@[base + k] != unit@[k];
                assert(s.skip(s.len() - unit@.len())[k] == v@[base + k]);
            }
            break ;
        }
    }
    end
}

/// The number of bytes that `upper` stands for, where `upper` is already in
/// upper case and has no whitespace around it.
pub fn parse_size_normalized(upper: &str) -> (r: Option<u64>)
    ensures
        r == size_from_upper(upper@),
{
    let v = to_chars(upper);
    let kb: Vec<char> = vec!['K', 'B'];
    let mb: Vec<char> = vec!['M', 'B'];
    let gb: Vec<char> = vec!['G', 'B'];
    let b: Vec<char> = vec!['B'];
    assert(kb@ =~= seq!['K', 'B']);
    assert(mb@ =~= seq!['M', 'B']);
    assert(gb@ =~= seq!['G', 'B']);
    assert(b@ =~= seq!['B']);
    let (end, factor): (usize, u64) = if has_suffix(&v, &kb) {
        (strip_unit(&v, &kb), KB)
    } else if has_suffix(&v, &mb) {
        (strip_unit(&v, &mb), MB)
    } else if has_suffix(&v, &gb) {
        (strip_unit(&v, &gb), GB)
    } else if has_suffix(&v, &b) {
        (strip_unit(&v, &b), 1)
    } else {
        proof {
            assert(v@.take(v.len() as int) == v@);
        }
        (v.len(), 1)
    };
    proof {
        assert(v@.subrange(0, end as int) == v@.take(end as int));
    }
    match parse_u64(&v, 0, end) {
        Some(n) => n.checked_mul(factor),
        None => None,
    }
}

/// The number of bytes that `size_str` stands for, such as `100KB`, `1mb`
/// or `4096`.
pub fn parse_size(size_str: &str) -> (r: Option<u64>)
    ensures
        r == size_of_text(size_str@),
{
    let bare = trim(size_str);
    let upper = uppercase(bare.as_str());
    parse_size_normalized(upper.as_str())
}

/// The lower bound that the text `min_size` sets: the size it stands for, or
/// no bound at all if it stands for none.
pub fn min_size_bound(min_size: &str) -> (r: u64)
    ensures
        r == match size_of_text(min_size@) {
            Some(n) => n,
            None => 0,
        },
{
    match parse_size(min_size) {
        Some(n) => n,
        None => 0,
    }
}

/// The upper bound that the text `upper` sets, where `upper` is in upper
/// case and has no whitespace around it: the size it stands for. A text that
/// names no unit, or that stands for no size, sets no bound at all.
pub open spec fn upper_bound_from_upper(upper: Seq<char>) -> u64 {
    if !ends_with(upper, seq!['B']) {
        u64::MAX
    } else {
        match size_from_upper(upper) {
            Some(n) => n,
            None => u64::MAX,
        }
    }
}

/// The upper bound that the text `text` sets; no bound at all if the text is
/// empty.
pub open spec fn upper_bound_of_text(text: Seq<char>) -> u64 {
    if text.len() == 0 {
        u64::MAX
    } else {
        upper_bound_from_upper(uppercase_of(trimmed(text)))
    }
}

/// The upper bound that `upper` sets, where `upper` is already in upper case
/// and has no whitespace around it.
pub fn max_size_bound_normalized(upper: &str) -> (r: u64)
    ensures
        r == upper_bound_from_upper(upper@),
{
    let unit: Vec<char> = vec!['B'];
    assert(unit@ =~= seq!['B']);
    if !has_suffix(&to_chars(upper), &unit) {
        u64::MAX
    } else {
        match parse_size_normalized(upper) {
            Some(n) => n,
            None => u64::MAX,
        }
    }
}

/// The upper bound that the text `max_size` sets: the size it stands for.
/// There is no upper bound if the text is empty, names no unit, or stands
/// for no size.
pub fn max_size_bound(max_size: &str) -> (r: u64)
    ensures
        r == upper_bound_of_text(max_size@),
{
    if max_size.is_empty() {
        u64::MAX
    } else {
        let bare = trim(max_size);
        let upper = uppercase(bare.as_str());
        max_size_bound_normalized(upper.as_str())
    }
}

/// Whether a file of `size` bytes lies within the bounds, both inclusive.
pub open spec fn size_admitted(size: u64, min_size: u64, max_size: u64) -> bool {
    min_size <= size && size <= max_size
}

/// Whether a file of `size` bytes lies within the bounds, both inclusive.
pub fn size_in_bounds(size: u64, min_size: u64, max_size: u64) -> (r: bool)
    ensures
        r == size_admitted(size, min_size, max_size),
{
    min_size <= size && size <= max_size
}

/// With no lower and no upper bound, every size is admitted.
pub proof fn lemma_unbounded_admits_all(size: u64)
    ensures
        size_admitted(size, 0, u64::MAX),
{
}

/// `bytes` in hundredths of `unit`, rounded to the nearest whole number, a
/// tie going to the even one.
pub open spec fn hundredths(bytes: nat, unit: nat) -> nat {
    let whole = (bytes * 100) / unit;
    let rest = (bytes * 100) % unit;
    if 2 * rest > unit || (2 * rest == unit && whole % 2 == 1) {
        whole + 1
    } else {
        whole
    }
}

/// `bytes` counted in `unit` with two decimals, followed by `label`.
pub open spec fn scaled_size(bytes: nat, unit: nat, label: Seq<char>) -> Seq<char> {
    let h = hundredths(bytes, unit);
    decimal(h / 100) + seq!['.', digit_char((h % 100 / 10) as int), digit_char((h % 10) as int)]
        + label
}

/// A size for people to read: whole bytes below a kilobyte, else the size
/// in the largest of `KB`, `MB` and `GB` that it reaches, with two decimals.
pub open spec fn formatted_size(bytes: u64) -> Seq<char> {
    if bytes < KB {
        decimal(bytes as nat) + seq![' ', 'B']
    } else if bytes < MB {
        scaled_size(bytes as nat, KB as nat, seq![' ', 'K', 'B'])
    } else if bytes < GB {
        scaled_size(bytes as nat, MB as nat, seq![' ', 'M', 'B'])
    } else {
        scaled_size(bytes as nat, GB as nat, seq![' ', 'G', 'B'])
    }
}

/// Appends `bytes` counted in `unit`, with two decimals, to `out`.
fn push_scaled(out: &mut Vec<char>, bytes: u64, unit: u64)
    requires
        unit >= 1024,
    ensures
        final(out)@ == old(out)@ + scaled_size(bytes as nat, unit as nat, Seq::<char>::empty()),
{
    let n: u128 = bytes as u128 * 100;
    let whole: u128 = n / (unit as u128);
    let rest: u128 = n % (unit as u128);
    let h: u128 = if 2 * rest > unit as u128 || (2 * rest == unit as u128 && whole % 2 == 1) {
        whole + 1
    } else {
        whole
    };
    assert(h == hundredths(bytes as nat, unit as nat));
    assert(whole <= n / 1024) by (nonlinear_arith)
        requires
            whole == n / (unit as u128),
            unit >= 1024,
    ;
    let units: u64 = (h / 100) as u64;
    let tenth: u8 = (h % 100 / 10) as u8;
    let hundredth: u8 = (h % 10) as u8;
    let ghost before = out@;
    push_decimal(out, units);
    out.push('.');
    out.push((48u8 + tenth) as char);
    out.push((48u8 + hundredth) as char);
    assert(out@ =~= before + scaled_size(bytes as nat, unit as nat, Seq::<char>::empty()));
}

/// `bytes` as a size for people to read, such as `512 B` or `1.50 MB`.
pub fn format_bytes(bytes: u64) -> (r: String)
    ensures
        r@ == formatted_size(bytes),
{
    let mut out: Vec<char> = Vec::new();
    if bytes < KB {
        push_decimal(&mut out, bytes);
        out.push(' ');
        out.push('B');
        assert(out@ =~= formatted_size(bytes));
    } else {
        let (unit, letter): (u64, char) = if bytes < MB {
            (KB, 'K')
        } else if bytes < GB {
            (MB, 'M')
        } else {
            (GB, 'G')
        };
        push_scaled(&mut out, bytes, unit);
        out.push(' ');
        out.push(letter);
        out.push('B');
        assert(out@ =~= formatted_size(bytes));
    }
    from_chars(&out)
}

/// A number written out, followed by a unit of two letters, is read as that
/// number.
proof fn lemma_number_before_unit(n: nat, letter: char)
    requires
        n <= u64::MAX,
        letter == 'K' || letter == 'M' || letter == 'G',
    ensures
        ends_with(decimal(n) + seq![letter, 'B'], seq![letter, 'B']),
        parsed_u64(without_trailing(decimal(n) + seq![letter, 'B'], seq![letter, 'B'])) == Some(
            n as u64,
        ),
{
    let unit = seq![letter, 'B'];
    let digits = decimal(n);
    let text = digits + unit;
    lemma_decimal_round_trip(n);
    assert(text.skip(text.len() - unit.len()) =~= unit);
    assert(text.take(text.len() - unit.len()) =~= digits);
    assert(is_digit(digits[digits.len() - 1]));
    if ends_with(digits, unit) {
        assert(digits.skip(digits.len() - 2)[1] == digits[digits.len() - 1]);
    }
    assert(without_trailing(digits, unit) == digits);
    assert(is_digit(digits[0]));
}

/// A canonical size survives being read and written again: `nKB`, for a
/// whole number `n` from 1 to 1023, stands for `n` times 1024 bytes, and that
/// many bytes are written as `n.00 KB`. The same holds of `MB`, and of `GB`
/// as far as the size fits 64 bits.
pub proof fn lemma_canonical_size_round_trip(n: nat)
    requires
        1 <= n,
    ensures
        n < 1024 ==> size_from_upper(decimal(n) + seq!['K', 'B']) == Some((n * KB) as u64)
            && formatted_size((n * KB) as u64) == decimal(n) + seq!['.', '0', '0', ' ', 'K', 'B'],
        n < 1024 ==> size_from_upper(decimal(n) + seq!['M', 'B']) == Some((n * MB) as u64)
            && formatted_size((n * MB) as u64) == decimal(n) + seq!['.', '0', '0', ' ', 'M', 'B'],
        n < 17179869184 ==> size_from_upper(decimal(n) + seq!['G', 'B']) == Some((n * GB) as u64)
            && formatted_size((n * GB) as u64) == decimal(n) + seq!['.', '0', '0', ' ', 'G', 'B'],
{
    lemma_decimal_round_trip(n);
    if n < 1024 {
        lemma_number_before_unit(n, 'K');
        lemma_whole_units(n, KB as nat);
        assert(formatted_size((n * KB) as u64) =~= decimal(n) + seq!['.', '0', '0', ' ', 'K', 'B']);

        lemma_number_before_unit(n, 'M');
        let text = decimal(n) + seq!['M', 'B'];
        if ends_with(text, seq!['K', 'B']) {
            assert(text.skip(text.len() - 2)[0] == text[text.len() - 2]);
        }
        lemma_whole_units(n, MB as nat);
        assert(formatted_size((n * MB) as u64) =~= decimal(n) + seq!['.', '0', '0', ' ', 'M', 'B']);
    }
    if n < 17179869184 {
        lemma_number_before_unit(n, 'G');
        let text = decimal(n) + seq!['G', 'B'];
        if ends_with(text, seq!['K', 'B']) {
            assert(text.skip(text.len() - 2)[0] == text[text.len() - 2]);
        }
        if ends_with(text, seq!['M', 'B']) {
            assert(text.skip(text.len() - 2)[0] == text[text.len() - 2]);
        }
        lemma_whole_units(n, GB as nat);
        assert(formatted_size((n * GB) as u64) =~= decimal(n) + seq!['.', '0', '0', ' ', 'G', 'B']);
    }
}

/// A whole number of units has no hundredths beyond the whole.
proof fn lemma_whole_units(n: nat, unit: nat)
    requires
        unit > 0,
    ensures
        hundredths(n * unit, unit) == n * 100,
        (n * 100) / 100 == n,
        (n * 100) % 100 == 0,
{
    assert((n * unit * 100) / unit == n * 100 && (n * unit * 100) % unit == 0) by (nonlinear_arith)
        requires
            unit > 0,
    ;
}

} // verus!
