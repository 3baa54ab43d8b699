//! Where duplicates are moved to.
//!
//! Duplicates go to a directory of the day, `<root>/YYYY/MM/DD`, under their
//! own file name. Where that name is taken, a number is put behind the stem:
//! `<stem> (1).<ext>`, `<stem> (2).<ext>` and so on, until a name is free.

use vstd::prelude::*;
use crate::decimal::{decimal, lemma_decimal_round_trip, padded_chars, push_decimal, zero_padded};
use crate::filter::list_contains;
use crate::path::{
    extension_of_name, file_name_bounds, file_name_of, find_last, name_chars, stem_of_name,
    lemma_last_index_of,
};
use crate::sorting::texts;
use crate::text::{from_chars, push_all, to_chars};

verus! {

/// `name` placed in the directory `dir`. A name that starts at the root
/// stands for itself; a separator is put in between unless the directory is
/// empty or ends with one.
pub open spec fn joined(dir: Seq<char>, name: Seq<char>) -> Seq<char> {
    if name.len() > 0 && name[0] == '/' {
        name
    } else if dir.len() == 0 || dir.last() == '/' {
        dir + name
    } else {
        dir + seq!['/'] + name
    }
}

/// The directory of a day below `root`: `<root>/YYYY/MM/DD`.
pub open spec fn archive_dir_of(root: Seq<char>, year: u32, month: u8, day: u8) -> Seq<char> {
    joined(
        joined(joined(root, zero_padded(year as nat, 4)), zero_padded(month as nat, 2)),
        zero_padded(day as nat, 2),
    )
}

/// The name tried for a file called `name` at the given attempt: the name
/// itself at attempt `0`, later the stem, the attempt in brackets, and the
/// extension if the name has one that is not empty.
pub open spec fn candidate_name(name: Seq<char>, attempt: nat) -> Seq<char> {
    if attempt == 0 {
        name
    } else {
        let numbered = stem_of_name(name) + seq![' ', '('] + decimal(attempt) + seq![')'];
        match extension_of_name(name) {
            Some(ext) => if ext.len() > 0 {
                numbered + seq!['.'] + ext
            } else {
                numbered
            },
            None => numbered,
        }
    }
}

/// The destination tried for the file at `path` at the given attempt, if the
/// path has a file name.
pub open spec fn destination_of(dir: Seq<char>, path: Seq<char>, attempt: nat) -> Option<
    Seq<char>,
> {
    match file_name_of(path) {
        Some(name) => Some(joined(dir, candidate_name(name, attempt))),
        None => None,
    }
}

/// No two attempts try the same name: the search for a free name never
/// comes back to a name that it has found taken.
pub proof fn lemma_attempts_differ(name: Seq<char>, a: nat, b: nat)
    requires
        a != b,
    ensures
        candidate_name(name, a) != candidate_name(name, b),
{
    let stem = stem_of_name(name);
    let tail = match extension_of_name(name) {
        Some(ext) => if ext.len() > 0 {
            seq!['.'] + ext
        } else {
            Seq::<char>::empty()
        },
        None => Seq::<char>::empty(),
    };
    lemma_last_index_of(name, '.');
    lemma_decimal_round_trip(a);
    lemma_decimal_round_trip(b);
    let front = stem + seq![' ', '('];
    if a >= 1 {
        assert(candidate_name(name, a) =~= front + decimal(a) + seq![')'] + tail);
    }
    if b >= 1 {
        assert(candidate_name(name, b) =~= front + decimal(b) + seq![')'] + tail);
    }
    if a >= 1 && b >= 1 {
        let x = front + decimal(a) + seq![')'] + tail;
        let y = front + decimal(b) + seq![')'] + tail;
        if x == y {
            assert(x.len() == y.len());
            assert(decimal(a).len() == decimal(b).len());
            assert forall|k: int| 0 <= k < decimal(a).len() implies decimal(a)[k] == decimal(b)[k] by {
                assert(x[front.len() + k] == decimal(a)[k]);
                assert(y[front.len() + k] == decimal(b)[k]);
            }
            assert(decimal(a) =~= decimal(b));
        }
    } else {
        let n = if a >= 1 {
            a
        } else {
            b
        };
        let numbered = front + decimal(n) + seq![')'] + tail;
        assert(numbered.len() == stem.len() + 3 + decimal(n).len() + tail.len());
        assert(name.len() <= stem.len() + 1 + tail.len());
    }
}

/// `name` placed in the directory `dir`, as characters.
fn join_chars(dir: &Vec<char>, name: &Vec<char>) -> (r: Vec<char>)
    ensures
        r@ == joined(dir@, name@),
{
    let mut out: Vec<char> = Vec::new();
    if name.len() > 0 && name[0] == '/' {
        push_all(&mut out, name);
        assert(out@ =~= name@);
    } else {
        push_all(&mut out, dir);
        if !(dir.len() == 0 || dir[dir.len() - 1] == '/') {
            out.push('/');
        }
        push_all(&mut out, name);
        assert(out@ =~= joined(dir@, name@));
    }
    out
}

/// `name` placed in the directory `dir`.
pub fn join(dir: &str, name: &str) -> (r: String)
    ensures
        r@ == joined(dir@, name@),
{
    let out = join_chars(&to_chars(dir), &to_chars(name));
    from_chars(&out)
}

/// The directory of the day `year`-`month`-`day` below `root`.
pub fn archive_dir(root: &str, year: u32, month: u8, day: u8) -> (r: String)
    ensures
        r@ == archive_dir_of(root@, year, month, day),
{
    let by_year = join_chars(&to_chars(root), &padded_chars(year as u64, 4));
    let by_month = join_chars(&by_year, &padded_chars(month as u64, 2));
    let by_day = join_chars(&by_month, &padded_chars(day as u64, 2));
    from_chars(&by_day)
}

/// The name tried at `attempt` for a file called `name`, as characters.
fn candidate_chars(name: &Vec<char>, attempt: u64) -> (r: Vec<char>)
    ensures
        r@ == candidate_name(name@, attempt as nat),
{
    if attempt == 0 {
        return name_chars(name, 0, name.len());
    }
    let found = find_last(name, name.len(), '.');
    proof {
        assert(name@.take(name.len() as int) =~= name@);
        lemma_last_index_of(name@, '.');
    }
    let (stem_end, ext_start): (usize, Option<usize>) = match found {
        Some(k) => if k == 0 {
            (name.len(), None)
        } else {
            (k, Some(k + 1))
        },
        None => (name.len(), None),
    };
    let mut out = name_chars(name, 0, stem_end);
    assert(out@ =~= stem_of_name(name@));
    out.push(' ');
    out.push('(');
    push_decimal(&mut out, attempt);
    out.push(')');
    let ghost numbered = stem_of_name(name@) + seq![' ', '('] + decimal(attempt as nat) + seq![')'];
    assert(out@ =~= numbered);
    match ext_start {
        Some(from) => {
            assert(extension_of_name(name@) == Some(name@.skip(from as int)));
            if from < name.len() {
                out.push('.');
                let ext = name_chars(name, from, name.len());
                assert(ext@ =~= name@.skip(from as int));
                push_all(&mut out, &ext);
                assert(out@ =~= numbered + seq!['.'] + name@.skip(from as int));
            }
        },
        None => {},
    }
    out
}

/// The destination tried at `attempt` for the file at `path`, in the
/// directory `dir`; none if the path has no file name.
pub fn destination(dir: &str, path: &str, attempt: u64) -> (r: Option<String>)
    ensures
        match r {
            Some(d) => destination_of(dir@, path@, attempt as nat) == Some(d@),
            None => destination_of(dir@, path@, attempt as nat) is None,
        },
{
    let v = to_chars(path);
    match file_name_bounds(&v) {
        Some((start, end)) => {
            let name = name_chars(&v, start, end);
            let candidate = candidate_chars(&name, attempt);
            let out = join_chars(&to_chars(dir), &candidate);
            Some(from_chars(&out))
        },
        None => None,
    }
}

/// The first destination for the file at `path` that is not among `taken`,
/// and the attempt at which it was found. Attempts beyond `limit` are not
/// made. None if the path has no file name or every attempt up to the limit
/// is taken.
pub fn free_destination(dir: &str, path: &str, taken: &Vec<String>, limit: u64) -> (r: Option<
    (String, u64),
>)
    ensures
        match r {
            Some((d, attempt)) => {
                &&& attempt <= limit
                &&& destination_of(dir@, path@, attempt as nat) == Some(d@)
                &&& !texts(taken@).contains(d@)
                &&& forall|earlier: nat|
                    earlier < attempt ==> texts(taken@).contains(
                        #[trigger] destination_of(dir@, path@, earlier)->0,
                    )
            },
            None => file_name_of(path@) is None || forall|n: nat|
                n <= limit ==> texts(taken@).contains(
                    #[trigger] destination_of(dir@, path@, n)->0,
                ),
        },
{
    let mut attempt: u64 = 0;
    loop
        invariant
            attempt <= limit,
            forall|earlier: nat|
                earlier < attempt ==> texts(taken@).contains(
                    #[trigger] destination_of(dir@, path@, earlier)->0,
                ),
        decreases limit - attempt,
    {
        match destination(dir, path, attempt) {
            Some(d) => {
                if !list_contains(taken, d.as_str()) {
                    return Some((d, attempt));
                }
            },
            None => {
                return None;
            },
        }
        if attempt == limit {
            return None;
        }
        attempt += 1;
    }
}

} // verus!
