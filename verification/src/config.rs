//! The settings of a run.

use vstd::prelude::*;
use crate::filter::{ScanFilter, normalize_extensions, normalized_extensions};
use crate::hasher::{HashAlgorithm, algorithm_named, select_algorithm};
use crate::size::{max_size_bound, min_size_bound, size_of_text, upper_bound_of_text};
use crate::sorting::texts;
use crate::text::{lowercase_of, to_chars};

verus! {

/// By what files are matched.
#[derive(Clone, Copy, Debug, PartialEq, Eq, Structural)]
pub enum MatchMode {
    /// By the stem of the file name.
    Name,
    /// By the digest of the content.
    Hash,
}

/// `c` with an upper-case letter of the basic alphabet turned to lower case.
pub open spec fn ascii_lower(c: char) -> char {
    if 'A' <= c && c <= 'Z' {
        ((c as int) + 32) as char
    } else {
        c
    }
}

/// Whether `name` is the word `name`, in whatever mix of upper and lower
/// case.
pub open spec fn asks_for_names(name: Seq<char>) -> bool {
    &&& name.len() == 4
    &&& ascii_lower(name[0]) == 'n'
    &&& ascii_lower(name[1]) == 'a'
    &&& ascii_lower(name[2]) == 'm'
    &&& ascii_lower(name[3]) == 'e'
}

/// The mode that `name` selects: by name if it says `name`, by content for
/// anything else.
pub fn match_mode(name: &str) -> (r: MatchMode)
    ensures
        r == if asks_for_names(name@) {
            MatchMode::Name
        } else {
            MatchMode::Hash
        },
{
    let v = to_chars(name);
    if v.len() == 4 && (v[0] == 'n' || v[0] == 'N') && (v[1] == 'a' || v[1] == 'A') && (v[2] == 'm'
        || v[2] == 'M') && (v[3] == 'e' || v[3] == 'E') {
        MatchMode::Name
    } else {
        MatchMode::Hash
    }
}

/// `num_cpus::get`: the number of logical cores that this process may use.
/// It depends on the machine; the crate promises that it is at least one.
#[verifier::external_body]
fn available_cores() -> (n: usize)
    ensures
        n >= 1,
{
    num_cpus::get()
}

/// The number of workers for a request of `requested` threads on a machine
/// with `available` cores: as many as requested, or one for each core if
/// none were requested.
pub fn worker_count(requested: usize, available: usize) -> (r: usize)
    ensures
        r == if requested == 0 {
            available
        } else {
            requested
        },
{
    if requested == 0 {
        available
    } else {
        requested
    }
}

/// The number of workers for a request of `requested` threads on this
/// machine.
pub fn resolve_worker_count(requested: usize) -> (r: usize)
    ensures
        r >= 1,
        requested != 0 ==> r == requested,
{
    if requested == 0 {
        worker_count(requested, available_cores())
    } else {
        requested
    }
}

/// How deep the walk goes below the root: without limit, or, if it is not to
/// descend into directories, to the entries of the root alone.
pub fn walk_depth(recurse: bool) -> (r: Option<usize>)
    ensures
        r == if recurse {
            None::<usize>
        } else {
            Some(1usize)
        },
{
    if recurse {
        None
    } else {
        Some(1)
    }
}

/// The settings of a run.
#[derive(Debug)]
pub struct RunConfig {
    pub match_mode: MatchMode,
    pub algorithm: HashAlgorithm,
    pub recurse: bool,
    pub filter: ScanFilter,
    /// Number of worker threads; `0` for one per core.
    pub threads: usize,
    pub move_duplicates: bool,
}

impl RunConfig {
    /// The settings that the given arguments ask for. Sizes that cannot be
    /// read set no bound, nor does an upper bound without unit; extensions
    /// are taken in their normalized form.
    pub fn from_arguments(
        match_mode_name: &str,
        algorithm_name: &str,
        recurse: bool,
        allowed_extensions: &Vec<String>,
        denied_extensions: &Vec<String>,
        min_size: &str,
        max_size: &str,
        threads: usize,
        move_duplicates: bool,
    ) -> (r: RunConfig)
        ensures
            r.match_mode == if asks_for_names(match_mode_name@) {
                MatchMode::Name
            } else {
                MatchMode::Hash
            },
            r.algorithm == algorithm_named(lowercase_of(algorithm_name@)),
            r.recurse == recurse,
            r.threads == threads,
            r.move_duplicates == move_duplicates,
            r.filter.min_size == match size_of_text(min_size@) {
                Some(n) => n,
                None => 0,
            },
            r.filter.max_size == upper_bound_of_text(max_size@),
            texts(r.filter.allowed@) == normalized_extensions(texts(allowed_extensions@)),
            texts(r.filter.denied@) == normalized_extensions(texts(denied_extensions@)),
    {
        RunConfig {
            match_mode: match_mode(match_mode_name),
            algorithm: select_algorithm(algorithm_name),
            recurse,
            filter: ScanFilter {
                min_size: min_size_bound(min_size),
                max_size: max_size_bound(max_size),
                allowed: normalize_extensions(allowed_extensions),
                denied: normalize_extensions(denied_extensions),
            },
            threads,
            move_duplicates,
        }
    }

    /// Whether any bound on the size is set.
    pub fn has_size_bounds(&self) -> (r: bool)
        ensures
            r == (self.filter.min_size > 0 || self.filter.max_size < u64::MAX),
    {
        self.filter.min_size > 0 || self.filter.max_size < u64::MAX
    }
}

} // verus!
