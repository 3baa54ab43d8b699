//! Which files a scan takes in.
//!
//! A file is judged first by its size, which is cheap, and then by the
//! extension of its name. Extensions are compared in lower case.

use vstd::prelude::*;
use crate::path::{extension, extension_of};
use crate::size::{size_admitted, size_in_bounds};
use crate::sorting::texts;
use crate::text::{lowercase, lowercase_of, same_text, string_of, to_chars};

verus! {

/// Number of characters at the start of `s` that are a dot or a wildcard.
pub open spec fn leading_marks(s: Seq<char>) -> nat
    decreases s.len(),
{
    if s.len() > 0 && (s[0] == '.' || s[0] == '*') {
        1 + leading_marks(s.drop_first())
    } else {
        0
    }
}

/// An extension as the user wrote it, without the dots and wildcards it
/// starts with.
pub open spec fn bare_extension(s: Seq<char>) -> Seq<char> {
    s.skip(leading_marks(s) as int)
}

/// The form in which an extension is compared: bare and in lower case.
pub open spec fn normalized_extension(s: Seq<char>) -> Seq<char> {
    lowercase_of(bare_extension(s))
}

/// The normalized forms of a list of extensions.
pub open spec fn normalized_extensions(list: Seq<Seq<char>>) -> Seq<Seq<char>> {
    Seq::new(list.len(), |i: int| normalized_extension(list[i]))
}

/// Whether a file with the lowercase extension `ext` passes the lists: with a
/// list of included extensions, only those pass; otherwise every extension
/// passes that is not excluded. A file without extension passes only if no
/// extensions are named for inclusion.
pub open spec fn extension_admitted(
    ext: Option<Seq<char>>,
    allowed: Seq<Seq<char>>,
    denied: Seq<Seq<char>>,
) -> bool {
    match ext {
        Some(e) => {
            if allowed.len() > 0 && !allowed.contains(e) {
                false
            } else if denied.len() > 0 && denied.contains(e) {
                false
            } else {
                true
            }
        },
        None => allowed.len() == 0,
    }
}

/// The lowercase form of the extension of `path`, if it has one.
pub open spec fn lowercase_extension_of(path: Seq<char>) -> Option<Seq<char>> {
    match extension_of(path) {
        Some(e) => Some(lowercase_of(e)),
        None => None,
    }
}

/// A run of dots and wildcards at the front of `s` that stops at another
/// character (or at the end) is the whole leading run.
pub proof fn lemma_leading_marks(s: Seq<char>, n: nat)
    requires
        n <= s.len(),
        forall|i: int| 0 <= i < n ==> s[i] == '.' || s[i] == '*',
        n < s.len() ==> s[n as int] != '.' && s[n as int] != '*',
    ensures
        leading_marks(s) == n,
    decreases n,
{
    if n > 0 {
        let t = s.drop_first();
        assert forall|i: int| 0 <= i < n - 1 implies t[i] == '.' || t[i] == '*' by {
            assert(t[i] == s[i + 1]);
        }
        lemma_leading_marks(t, (n - 1) as nat);
    }
}

/// A bare extension starts with neither a dot nor a wildcard.
pub proof fn lemma_bare_extension_is_bare(s: Seq<char>)
    ensures
        bare_extension(s).len() > 0 ==> bare_extension(s)[0] != '.' && bare_extension(s)[0] != '*',
        leading_marks(s) <= s.len(),
    decreases s.len(),
{
    if s.len() > 0 && (s[0] == '.' || s[0] == '*') {
        let t = s.drop_first();
        lemma_bare_extension_is_bare(t);
        assert(bare_extension(s) =~= bare_extension(t));
    } else {
        assert(bare_extension(s) =~= s);
    }
}

/// The form in which the extension `ext` is compared: without the dots and
/// wildcards it starts with, in lower case.
pub fn normalize_extension(ext: &str) -> (r: String)
    ensures
        r@ == normalized_extension(ext@),
{
    let v = to_chars(ext);
    let mut at: usize = 0;
    while at < v.len() && (v[at] == '.' || v[at] == '*')
        invariant
            at <= v.len(),
            forall|i: int| 0 <= i < at ==> v@[i] == '.' || v@[i] == '*',
        decreases v.len() - at,
    {
        at += 1;
    }
    proof {
        lemma_leading_marks(v@, at as nat);
        assert(v@.skip(at as int) == v@.subrange(at as int, v.len() as int));
    }
    let text = string_of(&v, at, v.len());
    lowercase(text.as_str())
}

/// The forms in which the extensions of `list` are compared.
pub fn normalize_extensions(list: &Vec<String>) -> (r: Vec<String>)
    ensures
        texts(r@) == normalized_extensions(texts(list@)),
{
    let mut out: Vec<String> = Vec::new();
    let mut i: usize = 0;
    while i < list.len()
        invariant
            i <= list.len(),
            out@.len() == i,
            forall|k: int| 0 <= k < i ==> (#[trigger] out@[k])@ == normalized_extension(list@[k]@),
        decreases list.len() - i,
    {
        out.push(normalize_extension(list[i].as_str()));
        i += 1;
    }
    assert(texts(out@) =~= normalized_extensions(texts(list@)));
    out
}

/// Whether `list` holds the text `item`.
pub fn list_contains(list: &Vec<String>, item: &str) -> (r: bool)
    ensures
        r == texts(list@).contains(item@),
{
    let mut i: usize = 0;
    while i < list.len()
        invariant
            i <= list.len(),
            forall|k: int| 0 <= k < i ==> (#[trigger] texts(list@)[k]) != item@,
        decreases list.len() - i,
    {
        assert(texts(list@)[i as int] == list@[i as int]@);
        if same_text(list[i].as_str(), item) {
            return true;
        }
        i += 1;
    }
    false
}

/// The rules by which a scan takes files in: bounds on the size, both
/// inclusive, and lists of extensions in their normalized form.
#[derive(Debug)]
pub struct ScanFilter {
    pub min_size: u64,
    pub max_size: u64,
    pub allowed: Vec<String>,
    pub denied: Vec<String>,
}

impl ScanFilter {
    /// Whether the filter takes in a file at `path` of `size` bytes.
    pub open spec fn admits(&self, path: Seq<char>, size: u64) -> bool {
        size_admitted(size, self.min_size, self.max_size) && extension_admitted(
            lowercase_extension_of(path),
            texts(self.allowed@),
            texts(self.denied@),
        )
    }

    /// A filter that takes in every file.
    pub fn unrestricted() -> (r: ScanFilter)
        ensures
            r.min_size == 0,
            r.max_size == u64::MAX,
            r.allowed@.len() == 0,
            r.denied@.len() == 0,
            forall|path: Seq<char>, size: u64| r.admits(path, size),
    {
        let r = ScanFilter {
            min_size: 0,
            max_size: u64::MAX,
            allowed: Vec::new(),
            denied: Vec::new(),
        };
        assert forall|path: Seq<char>, size: u64| r.admits(path, size) by {
            assert(texts(r.allowed@).len() == 0);
            assert(texts(r.denied@).len() == 0);
        }
        r
    }

    /// Whether a file with the lowercase extension `ext` passes the lists
    /// of this filter.
    pub fn accepts_extension(&self, ext: Option<&str>) -> (r: bool)
        ensures
            r == extension_admitted(
                match ext {
                    Some(e) => Some(e@),
                    None => None,
                },
                texts(self.allowed@),
                texts(self.denied@),
            ),
    {
        assert(texts(self.allowed@).len() == self.allowed@.len());
        assert(texts(self.denied@).len() == self.denied@.len());
        match ext {
            Some(e) => {
                if self.allowed.len() > 0 && !list_contains(&self.allowed, e) {
                    false
                } else if self.denied.len() > 0 && list_contains(&self.denied, e) {
                    false
                } else {
                    true
                }
            },
            None => self.allowed.len() == 0,
        }
    }

    /// Whether the filter takes in a file at `path` of `size` bytes. The size
    /// is judged first; a file outside the bounds is turned away whatever its
    /// name.
    pub fn accepts(&self, path: &str, size: u64) -> (r: bool)
        ensures
            r == self.admits(path@, size),
    {
        if !size_in_bounds(size, self.min_size, self.max_size) {
            return false;
        }
        match extension(path) {
            Some(ext) => {
                let lower = lowercase(ext.as_str());
                self.accepts_extension(Some(lower.as_str()))
            },
            None => self.accepts_extension(None),
        }
    }

    /// Whether the filter takes in the entry at `path`, whose size is known
    /// only if its metadata could be read. An entry of unknown size is
    /// passed over.
    pub fn accepts_entry(&self, path: &str, size: Option<u64>) -> (r: bool)
        ensures
            r == match size {
                Some(n) => self.admits(path@, n),
                None => false,
            },
    {
        match size {
            Some(n) => self.accepts(path, n),
            None => false,
        }
    }
}

/// A filter without bounds on the size turns no file away for its size.
pub proof fn lemma_no_bounds_no_size_exclusion(filter: ScanFilter, path: Seq<char>, size: u64)
    requires
        filter.min_size == 0,
        filter.max_size == u64::MAX,
    ensures
        size_admitted(size, filter.min_size, filter.max_size),
        filter.admits(path, size) == extension_admitted(
            lowercase_extension_of(path),
            texts(filter.allowed@),
            texts(filter.denied@),
        ),
{
}

/// A file outside the bounds on the size is turned away whatever its name.
pub proof fn lemma_size_decides_first(filter: ScanFilter, path: Seq<char>, size: u64)
    requires
        size < filter.min_size || size > filter.max_size,
    ensures
        !filter.admits(path, size),
{
}

} // verus!
