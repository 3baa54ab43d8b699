//! Paths as text.
//!
//! A path is a string whose components are separated by `/`. Empty components
//! (doubled or trailing separators) and `.` components carry no meaning and
//! are skipped, except for a `.` that opens a relative path. The functions
//! here split such a path into the pieces that the rest of the library reads:
//! the file name, its stem and its extension.

use vstd::prelude::*;
use crate::text::{to_chars, string_of};

verus! {

/// Index of the last occurrence of `c` in `s`, or `-1` if there is none.
pub open spec fn last_index_of(s: Seq<char>, c: char) -> int
    decreases s.len(),
{
    if s.len() == 0 {
        -1
    } else if s.last() == c {
        s.len() - 1
    } else {
        last_index_of(s.drop_last(), c)
    }
}

/// `p` without the trailing separators and `.` components that do not
/// contribute a component of their own.
pub open spec fn without_trailing_filler(p: Seq<char>) -> Seq<char>
    decreases p.len(),
{
    if p.len() >= 1 && p.last() == '/' {
        without_trailing_filler(p.drop_last())
    } else if p.len() >= 2 && p.last() == '.' && p[p.len() - 2] == '/' {
        without_trailing_filler(p.take(p.len() - 2))
    } else {
        p
    }
}

/// The text after the last separator of `p` (all of `p` if it has none).
pub open spec fn final_component(p: Seq<char>) -> Seq<char> {
    p.skip(last_index_of(p, '/') + 1)
}

/// The file name of a path: its final component, unless the path is empty,
/// is only a root, or ends in `.` or `..`.
pub open spec fn file_name_of(p: Seq<char>) -> Option<Seq<char>> {
    let c = final_component(without_trailing_filler(p));
    if c.len() == 0 || c == seq!['.'] || c == seq!['.', '.'] {
        None
    } else {
        Some(c)
    }
}

/// The stem of a file name: the name up to its last `.`, or the whole name
/// if it has no `.` or only the one it starts with.
pub open spec fn stem_of_name(name: Seq<char>) -> Seq<char> {
    let dot = last_index_of(name, '.');
    if dot <= 0 {
        name
    } else {
        name.take(dot)
    }
}

/// The extension of a file name: the text after its last `.`, if it has a
/// `.` other than one it starts with.
pub open spec fn extension_of_name(name: Seq<char>) -> Option<Seq<char>> {
    let dot = last_index_of(name, '.');
    if dot <= 0 {
        None
    } else {
        Some(name.skip(dot + 1))
    }
}

/// The stem of the file name of a path, if it has a file name.
pub open spec fn file_stem_of(p: Seq<char>) -> Option<Seq<char>> {
    match file_name_of(p) {
        Some(name) => Some(stem_of_name(name)),
        None => None,
    }
}

/// The extension of the file name of a path, if it has one.
pub open spec fn extension_of(p: Seq<char>) -> Option<Seq<char>> {
    match file_name_of(p) {
        Some(name) => extension_of_name(name),
        None => None,
    }
}

/// The last index of `c` holds `c`, and no later index does.
pub proof fn lemma_last_index_of(s: Seq<char>, c: char)
    ensures
        -1 <= last_index_of(s, c) < s.len(),
        last_index_of(s, c) >= 0 ==> s[last_index_of(s, c)] == c,
        forall|i: int| last_index_of(s, c) < i < s.len() ==> #[trigger] s[i] != c,
    decreases s.len(),
{
    if s.len() > 0 && s.last() != c {
        let t = s.drop_last();
        lemma_last_index_of(t, c);
        assert forall|i: int| last_index_of(s, c) < i < s.len() implies #[trigger] s[i] != c by {
            if i < s.len() - 1 {
                assert(s[i] == t[i]);
            }
        }
    }
}

/// An index that holds `c` (or `-1`) with no `c` after it is the last one.
pub proof fn lemma_last_index_of_is(s: Seq<char>, c: char, k: int)
    requires
        -1 <= k < s.len(),
        k >= 0 ==> s[k] == c,
        forall|i: int| k < i < s.len() ==> #[trigger] s[i] != c,
    ensures
        last_index_of(s, c) == k,
    decreases s.len(),
{
    if s.len() > 0 && k < s.len() - 1 {
        let t = s.drop_last();
        assert(s.last() == s[s.len() - 1]);
        assert forall|i: int| k < i < t.len() implies #[trigger] t[i] != c by {
            assert(t[i] == s[i]);
        }
        lemma_last_index_of_is(t, c, k);
    }
}

/// Index of the last `c` in `v[..end]`, or `None`.
pub(crate) fn find_last(v: &Vec<char>, end: usize, c: char) -> (r: Option<usize>)
    requires
        end <= v.len(),
    ensures
        match r {
            Some(k) => k as int == last_index_of(v@.take(end as int), c),
            None => last_index_of(v@.take(end as int), c) == -1,
        },
{
    let mut i: usize = end;
    while i > 0
        invariant
            i <= end <= v.len(),
            forall|j: int| i <= j < end ==> #[trigger] v@[j] != c,
        decreases i,
    {
        if v[i - 1] == c {
            proof {
                lemma_last_index_of_is(v@.take(end as int), c, i - 1);
            }
            return Some(i - 1);
        }
        i -= 1;
    }
    proof {
        lemma_last_index_of_is(v@.take(end as int), c, -1);
    }
    None
}

/// Length of `v` once trailing separators and `.` components are dropped.
pub(crate) fn significant_len(v: &Vec<char>) -> (end: usize)
    ensures
        end <= v.len(),
        v@.take(end as int) == without_trailing_filler(v@),
{
    let mut end: usize = v.len();
    proof {
        assert(v@.take(end as int) == v@);
    }
    loop
        invariant
            end <= v.len(),
            without_trailing_filler(v@.take(end as int)) == without_trailing_filler(v@),
        ensures
            end <= v.len(),
            v@.take(end as int) == without_trailing_filler(v@),
        decreases end,
    {
        let ghost p = v@.take(end as int);
        if end >= 1 && v[end - 1] == '/' {
            proof {
                assert(p.drop_last() == v@.take(end - 1));
            }
            end -= 1;
        } else if end >= 2 && v[end - 1] == '.' && v[end - 2] == '/' {
            proof {
                assert(p.take(p.len() - 2) == v@.take(end - 2));
            }
            end -= 2;
        } else {
            break ;
        }
    }
    end
}

/// The bounds `(start, end)` of the file name within `v`, if the path has one.
pub(crate) fn file_name_bounds(v: &Vec<char>) -> (r: Option<(usize, usize)>)
    ensures
        match r {
            Some((start, end)) => start < end <= v.len() && file_name_of(v@) == Some(
                v@.subrange(start as int, end as int),
            ),
            None => file_name_of(v@) is None,
        },
{
    let end = significant_len(v);
    let found = find_last(v, end, '/');
    proof {
        lemma_last_index_of(v@.take(end as int), '/');
    }
    let start = match found {
        Some(k) => k + 1,
        None => 0,
    };
    proof {
        assert(final_component(v@.take(end as int)) == v@.subrange(start as int, end as int));
    }
    let len = end - start;
    if len == 0 {
        None
    } else if len == 1 && v[start] == '.' {
        proof {
            assert(v@.subrange(start as int, end as int) == seq!['.']);
        }
        None
    } else if len == 2 && v[start] == '.' && v[start + 1] == '.' {
        proof {
            assert(v@.subrange(start as int, end as int) == seq!['.', '.']);
        }
        None
    } else {
        proof {
            let c = v@.subrange(start as int, end as int);
            if c == seq!['.'] {
                assert(c.len() == 1 && c[0] == '.');
            }
            if c == seq!['.', '.'] {
                assert(c.len() == 2 && c[0] == '.' && c[1] == '.');
            }
        }
        Some((start, end))
    }
}

/// The file name of `path`, if it has one.
pub fn file_name(path: &str) -> (r: Option<String>)
    ensures
        match r {
            Some(name) => file_name_of(path@) == Some(name@),
            None => file_name_of(path@) is None,
        },
{
    let v = to_chars(path);
    match file_name_bounds(&v) {
        Some((start, end)) => Some(string_of(&v, start, end)),
        None => None,
    }
}

/// The stem of the file name of `path`, if it has a file name.
pub fn file_stem(path: &str) -> (r: Option<String>)
    ensures
        match r {
            Some(stem) => file_stem_of(path@) == Some(stem@),
            None => file_stem_of(path@) is None,
        },
{
    let v = to_chars(path);
    match file_name_bounds(&v) {
        Some((start, end)) => {
            let ghost name = v@.subrange(start as int, end as int);
            let name_v = name_chars(&v, start, end);
            let stem_end = match find_last(&name_v, name_v.len(), '.') {
                Some(k) => if k == 0 {
                    name_v.len()
                } else {
                    k
                },
                None => name_v.len(),
            };
            proof {
                assert(name_v@.take(name_v.len() as int) == name_v@);
                lemma_last_index_of(name, '.');
                assert(name.take(name.len() as int) == name);
                assert(name_v@.subrange(0, stem_end as int) == name.take(stem_end as int));
            }
            Some(string_of(&name_v, 0, stem_end))
        },
        None => None,
    }
}

/// The extension of the file name of `path`, if it has one.
pub fn extension(path: &str) -> (r: Option<String>)
    ensures
        match r {
            Some(ext) => extension_of(path@) == Some(ext@),
            None => extension_of(path@) is None,
        },
{
    let v = to_chars(path);
    match file_name_bounds(&v) {
        Some((start, end)) => {
            let ghost name = v@.subrange(start as int, end as int);
            let name_v = name_chars(&v, start, end);
            proof {
                assert(name_v@.take(name_v.len() as int) == name_v@);
                lemma_last_index_of(name, '.');
            }
            match find_last(&name_v, name_v.len(), '.') {
                Some(k) => if k == 0 {
                    None
                } else {
                    proof {
                        assert(name_v@.subrange(k + 1, name_v.len() as int) == name.skip(k + 1));
                    }
                    Some(string_of(&name_v, k + 1, name_v.len()))
                },
                None => None,
            }
        },
        None => None,
    }
}

/// A copy of `v[start..end]`.
pub(crate) fn name_chars(v: &Vec<char>, start: usize, end: usize) -> (r: Vec<char>)
    requires
        start <= end <= v.len(),
    ensures
        r@ == v@.subrange(start as int, end as int),
{
    let mut r: Vec<char> = Vec::new();
    let mut i: usize = start;
    while i < end
        invariant
            start <= i <= end <= v.len(),
            r@ == v@.subrange(start as int, i as int),
        decreases end - i,
    {
        r.push(v[i]);
        i += 1;
    }
    r
}

} // verus!
