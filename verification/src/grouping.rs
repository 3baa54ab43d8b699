//! Grouping files by name or by content.
//!
//! By name, the key of a file is the stem of its file name. By content, the
//! key is the digest of what the file holds; only files that share their size
//! with another file are candidates for hashing at all, since a file of a
//! size that occurs once cannot have a duplicate.

use vstd::prelude::*;
use std::collections::HashMap;
use crate::groups::{
    Entry, GroupMap, grouped, lemma_grouped_members, lemma_grouped_push, members_in, paths_keyed,
};
use crate::hasher::{HashAlgorithm, content_key};
use crate::path::{file_stem, file_stem_of};
use crate::records::{FileRecord, HashedFile, HashedView, RecordView, hashed_views, record_views};

verus! {

/// The entries that grouping by name files: each file that has a file name,
/// under the stem of that name.
pub open spec fn name_entries(files: Seq<RecordView>) -> Seq<Entry>
    decreases files.len(),
{
    if files.len() == 0 {
        Seq::empty()
    } else {
        match file_stem_of(files.last().path) {
            Some(stem) => name_entries(files.drop_last()).push((stem, files.last().path)),
            None => name_entries(files.drop_last()),
        }
    }
}

/// The entries that grouping by content files: each file whose content was
/// read, under its digest.
pub open spec fn hash_entries(files: Seq<HashedView>) -> Seq<Entry>
    decreases files.len(),
{
    if files.len() == 0 {
        Seq::empty()
    } else {
        match files.last().digest {
            Some(digest) => hash_entries(files.drop_last()).push((digest, files.last().path)),
            None => hash_entries(files.drop_last()),
        }
    }
}

/// How many of `files` hold exactly `size` bytes.
pub open spec fn size_count(files: Seq<RecordView>, size: u64) -> nat
    decreases files.len(),
{
    if files.len() == 0 {
        0
    } else if files.last().size == size {
        size_count(files.drop_last(), size) + 1
    } else {
        size_count(files.drop_last(), size)
    }
}

/// The files that have to be hashed: those that share their size with at
/// least one other file, in the order of the scan.
pub open spec fn candidates_of(files: Seq<RecordView>) -> Seq<RecordView> {
    files.filter(|f: RecordView| size_count(files, f.size) >= 2)
}

/// Groups `files` by the stem of their file name. A path without a file name
/// is left out.
pub fn group_by_name(files: &Vec<FileRecord>) -> (r: GroupMap)
    ensures
        r.wf(),
        r@ == grouped(name_entries(record_views(files@))),
{
    let ghost all = record_views(files@);
    let mut map = GroupMap::new();
    let mut i: usize = 0;
    proof {
        assert(all.take(0) == Seq::<RecordView>::empty());
        assert(grouped(Seq::<Entry>::empty()) == Seq::<crate::groups::GroupView>::empty());
    }
    while i < files.len()
        invariant
            i <= files.len(),
            all == record_views(files@),
            map.wf(),
            map@ == grouped(name_entries(all.take(i as int))),
        decreases files.len() - i,
    {
        proof {
            let next = all.take(i + 1);
            assert(next.drop_last() == all.take(i as int));
            assert(next.last() == files@[i as int]@);
        }
        match file_stem(files[i].path.as_str()) {
            Some(stem) => {
                proof {
                    lemma_grouped_push(
                        name_entries(all.take(i as int)),
                        (stem@, files@[i as int].path@),
                    );
                }
                map.insert(stem, files[i].path.clone());
            },
            None => {},
        }
        i += 1;
    }
    proof {
        assert(all.take(i as int) == all);
    }
    map
}

/// Groups the files that were hashed by their digest. A file without a
/// digest, whose content could not be read, is left out.
pub fn group_by_hash(hashed: &Vec<HashedFile>) -> (r: GroupMap)
    ensures
        r.wf(),
        r@ == grouped(hash_entries(hashed_views(hashed@))),
{
    let ghost all = hashed_views(hashed@);
    let mut map = GroupMap::new();
    let mut i: usize = 0;
    proof {
        assert(all.take(0) == Seq::<HashedView>::empty());
        assert(grouped(Seq::<Entry>::empty()) == Seq::<crate::groups::GroupView>::empty());
    }
    while i < hashed.len()
        invariant
            i <= hashed.len(),
            all == hashed_views(hashed@),
            map.wf(),
            map@ == grouped(hash_entries(all.take(i as int))),
        decreases hashed.len() - i,
    {
        proof {
            let next = all.take(i + 1);
            assert(next.drop_last() == all.take(i as int));
            assert(next.last() == hashed@[i as int]@);
        }
        match &hashed[i].digest {
            Some(digest) => {
                proof {
                    lemma_grouped_push(
                        hash_entries(all.take(i as int)),
                        (digest@, hashed@[i as int].path@),
                    );
                }
                map.insert(digest.clone(), hashed[i].path.clone());
            },
            None => {},
        }
        i += 1;
    }
    proof {
        assert(all.take(i as int) == all);
    }
    map
}

/// Counting one more file adds one to the count of its size and leaves the
/// other counts as they are.
pub proof fn lemma_size_count_step(files: Seq<RecordView>, i: int, size: u64)
    requires
        0 <= i < files.len(),
    ensures
        size_count(files.take(i + 1), size) == size_count(files.take(i), size) + if files[i].size
            == size {
            1nat
        } else {
            0nat
        },
        size_count(files.take(i), size) <= i,
    decreases i,
{
    assert(files.take(i + 1).drop_last() == files.take(i));
    if i > 0 {
        lemma_size_count_step(files, i - 1, size);
    }
}

/// How often each size occurs among `files`.
fn count_sizes(files: &Vec<FileRecord>) -> (counts: HashMap<u64, usize>)
    ensures
        forall|size: u64|
            counts@.contains_key(size) <==> #[trigger] size_count(record_views(files@), size) > 0,
        forall|size: u64|
            counts@.contains_key(size) ==> counts@[size] == #[trigger] size_count(
                record_views(files@),
                size,
            ),
{
    let ghost all = record_views(files@);
    let mut counts: HashMap<u64, usize> = HashMap::new();
    let mut i: usize = 0;
    proof {
        assert(all.take(0) == Seq::<RecordView>::empty());
    }
    while i < files.len()
        invariant
            i <= files.len(),
            all == record_views(files@),
            forall|size: u64|
                counts@.contains_key(size) <==> #[trigger] size_count(all.take(i as int), size) > 0,
            forall|size: u64|
                counts@.contains_key(size) ==> counts@[size] == #[trigger] size_count(
                    all.take(i as int),
                    size,
                ),
        decreases files.len() - i,
    {
        let size = files[i].size;
        let seen: usize = match counts.get(&size) {
            Some(n) => *n,
            None => 0,
        };
        proof {
            assert(all[i as int].size == size);
            lemma_size_count_step(all, i as int, size);
            assert(seen == size_count(all.take(i as int), size));
            assert forall|other: u64|
                size_count(all.take(i + 1), other) == size_count(all.take(i as int), other)
                    + if other == size {
                    1nat
                } else {
                    0nat
                } by {
                lemma_size_count_step(all, i as int, other);
            }
        }
        let ghost before = counts@;
        counts.insert(size, seen + 1);
        proof {
            assert(counts@ == before.insert(size, (seen + 1) as usize));
            assert forall|other: u64|
                counts@.contains_key(other) <==> #[trigger] size_count(all.take(i + 1), other)
                    > 0 by {
                assert(before.contains_key(other) <==> size_count(all.take(i as int), other) > 0);
            }
            assert forall|other: u64| counts@.contains_key(other) implies counts@[other]
                == #[trigger] size_count(all.take(i + 1), other) by {
                assert(before.contains_key(other) <==> size_count(all.take(i as int), other) > 0);
                if other != size {
                    assert(before[other] == size_count(all.take(i as int), other));
                }
            }
        }
        i += 1;
    }
    proof {
        assert(all.take(i as int) == all);
    }
    counts
}

/// The files that have to be hashed: those of `files` whose size occurs at
/// least twice. A file of a size that occurs once is never a candidate.
pub fn hash_candidates(files: &Vec<FileRecord>) -> (r: Vec<FileRecord>)
    ensures
        record_views(r@) == candidates_of(record_views(files@)),
{
    let ghost all = record_views(files@);
    let ghost shared = |f: RecordView| size_count(all, f.size) >= 2;
    let counts = count_sizes(files);
    let mut out: Vec<FileRecord> = Vec::new();
    let mut i: usize = 0;
    proof {
        assert(all.take(0) == Seq::<RecordView>::empty());
        reveal(Seq::filter);
        assert(record_views(out@) =~= all.take(0).filter(shared));
    }
    while i < files.len()
        invariant
            i <= files.len(),
            all == record_views(files@),
            shared == (|f: RecordView| size_count(all, f.size) >= 2),
            forall|size: u64|
                counts@.contains_key(size) <==> #[trigger] size_count(all, size) > 0,
            forall|size: u64|
                counts@.contains_key(size) ==> counts@[size] == #[trigger] size_count(all, size),
            record_views(out@) == all.take(i as int).filter(shared),
        decreases files.len() - i,
    {
        let size = files[i].size;
        let occurs: usize = match counts.get(&size) {
            Some(n) => *n,
            None => 0,
        };
        proof {
            reveal(Seq::filter);
            let next = all.take(i + 1);
            assert(next.drop_last() == all.take(i as int));
            assert(next.last() == all[i as int]);
            assert(all[i as int].size == size);
            assert(occurs == size_count(all, size));
        }
        let ghost before = record_views(out@);
        if occurs >= 2 {
            out.push(files[i].clone());
            assert(record_views(out@) =~= before.push(all[i as int]));
        }
        i += 1;
    }
    proof {
        assert(all.take(i as int) == all);
    }
    out
}

/// How often `path` occurs among the paths of `key` is how often the entry
/// `(key, path)` occurs.
pub proof fn lemma_paths_keyed_count(entries: Seq<Entry>, key: Seq<char>, path: Seq<char>)
    ensures
        paths_keyed(entries, key).to_multiset().count(path) == entries.to_multiset().count(
            (key, path),
        ),
    decreases entries.len(),
{
    broadcast use vstd::seq_lib::group_to_multiset_ensures;

    if entries.len() == 0 {
        assert(paths_keyed(entries, key) =~= Seq::<Seq<char>>::empty());
    } else {
        let front = entries.drop_last();
        let last = entries.last();
        lemma_paths_keyed_count(front, key, path);
        assert(entries =~= front.push(last));
    }
}

/// Group membership does not depend on the order in which the files come
/// in: two lists that hold the same entries file the same paths, each as
/// often, under every key.
pub proof fn lemma_membership_ignores_order(first: Seq<Entry>, second: Seq<Entry>, key: Seq<char>)
    requires
        first.to_multiset() == second.to_multiset(),
    ensures
        members_in(grouped(first), key).to_multiset() == members_in(
            grouped(second),
            key,
        ).to_multiset(),
{
    lemma_grouped_members(first, key);
    lemma_grouped_members(second, key);
    let a = paths_keyed(first, key).to_multiset();
    let b = paths_keyed(second, key).to_multiset();
    assert forall|path: Seq<char>| a.count(path) == b.count(path) by {
        lemma_paths_keyed_count(first, key, path);
        lemma_paths_keyed_count(second, key, path);
    }
    assert(a =~= b);
}

/// Grouping the same files again gives the same groups.
pub proof fn lemma_grouping_is_repeatable(first: GroupMap, second: GroupMap, entries: Seq<Entry>)
    requires
        first@ == grouped(entries),
        second@ == grouped(entries),
    ensures
        first@ == second@,
        forall|key: Seq<char>| first.members(key) == second.members(key),
{
}

/// The entry of a hashed file occurs among the entries.
proof fn lemma_hash_entry_present(files: Seq<HashedView>, i: int)
    requires
        0 <= i < files.len(),
        files[i].digest is Some,
    ensures
        hash_entries(files).contains((files[i].digest->0, files[i].path)),
    decreases files.len(),
{
    let front = files.drop_last();
    let entries = hash_entries(files);
    if i == files.len() - 1 {
        assert(entries[entries.len() - 1] == (files[i].digest->0, files[i].path));
    } else {
        lemma_hash_entry_present(front, i);
        let k = choose|k: int|
            0 <= k < hash_entries(front).len() && hash_entries(front)[k] == (
                files[i].digest->0,
                files[i].path,
            );
        assert(entries[k] == hash_entries(front)[k]);
    }
}

/// Every path of an entry is among the paths filed under the entry's key.
pub proof fn lemma_entry_is_member(entries: Seq<Entry>, i: int)
    requires
        0 <= i < entries.len(),
    ensures
        members_in(grouped(entries), entries[i].0).contains(entries[i].1),
    decreases entries.len(),
{
    lemma_grouped_members(entries, entries[i].0);
    let key = entries[i].0;
    let front = entries.drop_last();
    if i == entries.len() - 1 {
        let paths = paths_keyed(entries, key);
        assert(paths[paths.len() - 1] == entries[i].1);
    } else {
        lemma_entry_is_member(front, i);
        lemma_grouped_members(front, key);
        let before = paths_keyed(front, key);
        let k = choose|k: int| 0 <= k < before.len() && before[k] == entries[i].1;
        assert(paths_keyed(entries, key)[k] == before[k]);
    }
}

/// Two files that were hashed to the same digest are in the same group, the
/// group of that digest.
pub proof fn lemma_same_digest_same_group(files: Seq<HashedView>, i: int, j: int)
    requires
        0 <= i < files.len(),
        0 <= j < files.len(),
        files[i].digest is Some,
        files[i].digest == files[j].digest,
    ensures
        members_in(grouped(hash_entries(files)), files[i].digest->0).contains(files[i].path),
        members_in(grouped(hash_entries(files)), files[i].digest->0).contains(files[j].path),
{
    let entries = hash_entries(files);
    lemma_hash_entry_present(files, i);
    lemma_hash_entry_present(files, j);
    let a = choose|a: int| 0 <= a < entries.len() && entries[a] == (files[i].digest->0, files[i].path);
    let b = choose|b: int| 0 <= b < entries.len() && entries[b] == (files[j].digest->0, files[j].path);
    lemma_entry_is_member(entries, a);
    lemma_entry_is_member(entries, b);
}

/// Only files that share their size with another file are hashed: every
/// candidate has a size that occurs at least twice, a file of such a size is
/// a candidate, and a file whose size occurs once is not.
pub proof fn lemma_candidates_share_size(files: Seq<RecordView>)
    ensures
        forall|k: int|
            0 <= k < candidates_of(files).len() ==> size_count(
                files,
                (#[trigger] candidates_of(files)[k]).size,
            ) >= 2,
        forall|i: int|
            0 <= i < files.len() && size_count(files, files[i].size) >= 2 ==> candidates_of(
                files,
            ).contains(#[trigger] files[i]),
        forall|i: int, k: int|
            0 <= i < files.len() && 0 <= k < candidates_of(files).len() && size_count(
                files,
                (#[trigger] files[i]).size,
            ) < 2 ==> (#[trigger] candidates_of(files)[k]).size != files[i].size,
{
    let shared = |f: RecordView| size_count(files, f.size) >= 2;
    assert forall|k: int| 0 <= k < candidates_of(files).len() implies size_count(
        files,
        (#[trigger] candidates_of(files)[k]).size,
    ) >= 2 by {
        files.lemma_filter_pred(shared, k);
    }
    assert forall|i: int|
        0 <= i < files.len() && size_count(files, files[i].size) >= 2 implies candidates_of(
        files,
    ).contains(#[trigger] files[i]) by {
        files.lemma_filter_contains(shared, i);
    }
}

/// A size that some file has occurs at least once.
proof fn lemma_size_occurs(files: Seq<RecordView>, i: int)
    requires
        0 <= i < files.len(),
    ensures
        size_count(files, files[i].size) >= 1,
    decreases files.len(),
{
    if i < files.len() - 1 {
        let front = files.drop_last();
        assert(front[i] == files[i]);
        lemma_size_occurs(front, i);
    }
}

/// A size that two files have occurs at least twice.
pub proof fn lemma_size_occurs_twice(files: Seq<RecordView>, i: int, j: int)
    requires
        0 <= i < j < files.len(),
        files[i].size == files[j].size,
    ensures
        size_count(files, files[i].size) >= 2,
    decreases files.len(),
{
    let front = files.drop_last();
    assert(front[i] == files[i]);
    if j < files.len() - 1 {
        assert(front[j] == files[j]);
        lemma_size_occurs_twice(front, i, j);
    } else {
        lemma_size_occurs(front, i);
    }
}

/// Two files of the same size and the same content are placed in the same
/// group. `content_of` says what each path holds; the files handed to the
/// grouping are the candidates for hashing, each with the key of its
/// content.
pub proof fn lemma_identical_files_share_group(
    files: Seq<RecordView>,
    hashed: Seq<HashedView>,
    algorithm: HashAlgorithm,
    content_of: spec_fn(Seq<char>) -> Seq<u8>,
    i: int,
    j: int,
)
    requires
        0 <= i < j < files.len(),
        files[i].size == files[j].size,
        content_of(files[i].path) == content_of(files[j].path),
        hashed.len() == candidates_of(files).len(),
        forall|k: int|
            0 <= k < hashed.len() ==> (#[trigger] hashed[k]).path == candidates_of(files)[k].path
                && hashed[k].digest == Some(content_key(algorithm, content_of(hashed[k].path))),
    ensures
        members_in(
            grouped(hash_entries(hashed)),
            content_key(algorithm, content_of(files[i].path)),
        ).contains(files[i].path),
        members_in(
            grouped(hash_entries(hashed)),
            content_key(algorithm, content_of(files[i].path)),
        ).contains(files[j].path),
{
    let candidates = candidates_of(files);
    lemma_size_occurs_twice(files, i, j);
    lemma_candidates_share_size(files);
    assert(candidates.contains(files[i]));
    assert(candidates.contains(files[j]));
    let a = choose|a: int| 0 <= a < candidates.len() && candidates[a] == files[i];
    let b = choose|b: int| 0 <= b < candidates.len() && candidates[b] == files[j];
    assert(hashed[a].path == files[i].path);
    assert(hashed[b].path == files[j].path);
    lemma_same_digest_same_group(hashed, a, b);
}

} // verus!
