use fast_dedup::grouping::{group_by_hash, group_by_name, hash_candidates};
use fast_dedup::groups::{DuplicateGroup, GroupMap};
use fast_dedup::hasher::{hash_bytes, HashAlgorithm};
use fast_dedup::records::{FileRecord, HashedFile};
use fast_dedup::resolver::{count_duplicates, find_duplicates, movable_count};

fn record(path: &str, size: u64) -> FileRecord {
    FileRecord { path: path.to_string(), size }
}

fn hashed(path: &str, content: Option<&[u8]>) -> HashedFile {
    HashedFile {
        path: path.to_string(),
        digest: content.map(|c| hash_bytes(HashAlgorithm::Md5, c)),
    }
}

fn listing(groups: &[DuplicateGroup]) -> Vec<(String, Vec<String>)> {
    groups.iter().map(|g| (g.key.clone(), g.members.clone())).collect()
}

fn strings(items: &[&str]) -> Vec<String> {
    items.iter().map(|s| s.to_string()).collect()
}

#[test]
fn insert_files_paths_under_their_key() {
    let mut map = GroupMap::new();
    assert_eq!(map.len(), 0);
    map.insert("k1".to_string(), "a".to_string());
    map.insert("k2".to_string(), "b".to_string());
    map.insert("k1".to_string(), "c".to_string());
    assert_eq!(map.len(), 2);
    assert_eq!(
        listing(map.groups()),
        vec![
            ("k1".to_string(), strings(&["a", "c"])),
            ("k2".to_string(), strings(&["b"])),
        ]
    );
}

#[test]
fn merge_is_a_union_by_key() {
    let mut left = GroupMap::new();
    left.insert("x".to_string(), "l1".to_string());
    left.insert("y".to_string(), "l2".to_string());
    let mut right = GroupMap::new();
    right.insert("z".to_string(), "r1".to_string());
    right.insert("x".to_string(), "r2".to_string());
    right.insert("x".to_string(), "r3".to_string());
    left.merge(right);
    assert_eq!(
        listing(left.groups()),
        vec![
            ("x".to_string(), strings(&["l1", "r2", "r3"])),
            ("y".to_string(), strings(&["l2"])),
            ("z".to_string(), strings(&["r1"])),
        ]
    );
}

#[test]
fn merge_with_empty_maps() {
    let mut left = GroupMap::new();
    left.merge(GroupMap::new());
    assert_eq!(left.len(), 0);
    let mut right = GroupMap::new();
    right.insert("k".to_string(), "p".to_string());
    left.merge(right);
    assert_eq!(listing(left.groups()), vec![("k".to_string(), strings(&["p"]))]);
}

#[test]
fn merge_order_does_not_change_membership() {
    let build = |entries: &[(&str, &str)]| {
        let mut m = GroupMap::new();
        for (k, p) in entries {
            m.insert(k.to_string(), p.to_string());
        }
        m
    };
    let mut ab = build(&[("x", "1"), ("y", "2")]);
    ab.merge(build(&[("x", "3"), ("z", "4")]));
    let mut ba = build(&[("x", "3"), ("z", "4")]);
    ba.merge(build(&[("x", "1"), ("y", "2")]));
    let normal = |m: GroupMap| {
        let mut l = listing(&m.into_groups());
        for (_, members) in l.iter_mut() {
            members.sort();
        }
        l.sort();
        l
    };
    assert_eq!(normal(ab), normal(ba));
}

#[test]
fn groups_by_stem() {
    let files = vec![
        record("a/report.txt", 1),
        record("b/report.pdf", 2),
        record("c/notes.txt", 3),
        record("d/report", 4),
        record("..", 5),
    ];
    let map = group_by_name(&files);
    assert_eq!(
        listing(map.groups()),
        vec![
            ("report".to_string(), strings(&["a/report.txt", "b/report.pdf", "d/report"])),
            ("notes".to_string(), strings(&["c/notes.txt"])),
        ]
    );
}

#[test]
fn stems_are_case_sensitive() {
    let files = vec![record("a/Photo.jpg", 1), record("b/photo.jpg", 1)];
    let map = group_by_name(&files);
    assert_eq!(map.len(), 2);
    assert!(find_duplicates(map).is_empty());
}

#[test]
fn only_shared_sizes_are_candidates() {
    let files = vec![
        record("a", 10),
        record("b", 20),
        record("c", 10),
        record("d", 30),
        record("e", 20),
        record("f", 10),
    ];
    let candidates = hash_candidates(&files);
    let paths: Vec<&str> = candidates.iter().map(|f| f.path.as_str()).collect();
    assert_eq!(paths, vec!["a", "b", "c", "e", "f"]);
    assert!(candidates.iter().all(|f| f.size != 30));
}

#[test]
fn no_candidates_without_shared_size() {
    assert!(hash_candidates(&vec![]).is_empty());
    assert!(hash_candidates(&vec![record("a", 1)]).is_empty());
    assert!(hash_candidates(&vec![record("a", 1), record("b", 2), record("c", 3)]).is_empty());
}

#[test]
fn groups_by_digest_and_drops_unread_files() {
    let files = vec![
        hashed("a", Some(b"same")),
        hashed("b", None),
        hashed("c", Some(b"other")),
        hashed("d", Some(b"same")),
    ];
    let map = group_by_hash(&files);
    let key_same = hash_bytes(HashAlgorithm::Md5, b"same");
    let key_other = hash_bytes(HashAlgorithm::Md5, b"other");
    assert_eq!(
        listing(map.groups()),
        vec![(key_same, strings(&["a", "d"])), (key_other, strings(&["c"]))]
    );
}

#[test]
fn a_group_survives_a_failed_member() {
    let files = vec![
        hashed("a", Some(b"x")),
        hashed("b", None),
        hashed("c", Some(b"x")),
    ];
    let duplicates = find_duplicates(group_by_hash(&files));
    assert_eq!(duplicates.len(), 1);
    assert_eq!(duplicates[0].members, strings(&["a", "c"]));
}

#[test]
fn photo_scenario_by_hash_and_by_name() {
    let contents: Vec<(&str, &[u8])> = vec![
        ("a/photo.jpg", b"XXXXXXXXXX"),
        ("b/photo_copy.jpg", b"XXXXXXXXXX"),
        ("c/other.jpg", b"YYYYYYYYYY"),
    ];
    let files: Vec<FileRecord> =
        contents.iter().map(|(p, c)| record(p, c.len() as u64)).collect();

    let candidates = hash_candidates(&files);
    assert_eq!(candidates.len(), 3);
    let hashed_files: Vec<HashedFile> = candidates
        .iter()
        .map(|f| {
            let content = contents.iter().find(|(p, _)| *p == f.path).unwrap().1;
            hashed(&f.path, Some(content))
        })
        .collect();
    let by_hash = find_duplicates(group_by_hash(&hashed_files));
    assert_eq!(by_hash.len(), 1);
    assert_eq!(by_hash[0].members, strings(&["a/photo.jpg", "b/photo_copy.jpg"]));
    assert_eq!(by_hash[0].key, hash_bytes(HashAlgorithm::Md5, b"XXXXXXXXXX"));
    let stats = count_duplicates(&by_hash);
    assert_eq!(stats.groups, 1);
    assert_eq!(stats.files, 2);

    let by_name = find_duplicates(group_by_name(&files));
    assert!(by_name.is_empty());
    assert_eq!(count_duplicates(&by_name).files, 0);
}

#[test]
fn grouping_twice_gives_the_same_groups() {
    let files = vec![
        record("a/x.txt", 1),
        record("b/x.txt", 1),
        record("c/y.txt", 1),
        record("d/x.md", 1),
    ];
    let first = listing(&group_by_name(&files).into_groups());
    let second = listing(&group_by_name(&files).into_groups());
    assert_eq!(first, second);
}

#[test]
fn duplicates_are_groups_of_two_or_more() {
    let mut map = GroupMap::new();
    for (k, p) in [("a", "1"), ("b", "2"), ("a", "3"), ("c", "4"), ("c", "5"), ("c", "6")] {
        map.insert(k.to_string(), p.to_string());
    }
    let duplicates = find_duplicates(map);
    assert_eq!(
        listing(&duplicates),
        vec![
            ("a".to_string(), strings(&["1", "3"])),
            ("c".to_string(), strings(&["4", "5", "6"])),
        ]
    );
    let stats = count_duplicates(&duplicates);
    assert_eq!(stats.groups, 2);
    assert_eq!(stats.files, 5);
    assert_eq!(movable_count(&duplicates), 3);
}

#[test]
fn counts_of_nothing() {
    let none: Vec<DuplicateGroup> = Vec::new();
    assert_eq!(count_duplicates(&none).groups, 0);
    assert_eq!(count_duplicates(&none).files, 0);
    assert_eq!(movable_count(&none), 0);
    let empty_group = vec![DuplicateGroup { key: "k".to_string(), members: vec![] }];
    assert_eq!(movable_count(&empty_group), 0);
}

#[test]
fn keys_with_the_same_lookup_code_stay_apart() {
    // "Aa" and "BB" weigh the same in base 31
    let mut map = GroupMap::new();
    map.insert("Aa".to_string(), "1".to_string());
    map.insert("BB".to_string(), "2".to_string());
    map.insert("Aa".to_string(), "3".to_string());
    map.insert("BB".to_string(), "4".to_string());
    map.insert("AaAa".to_string(), "5".to_string());
    map.insert("BBBB".to_string(), "6".to_string());
    map.insert("AaBB".to_string(), "7".to_string());
    assert_eq!(
        listing(map.groups()),
        vec![
            ("Aa".to_string(), strings(&["1", "3"])),
            ("BB".to_string(), strings(&["2", "4"])),
            ("AaAa".to_string(), strings(&["5"])),
            ("BBBB".to_string(), strings(&["6"])),
            ("AaBB".to_string(), strings(&["7"])),
        ]
    );
}

#[test]
fn many_keys_are_grouped_quickly() {
    let mut files: Vec<FileRecord> = Vec::new();
    for i in 0..60000u64 {
        files.push(record(&format!("left/file{}.dat", i), i % 1000));
        files.push(record(&format!("right/file{}.bin", i), i % 1000));
    }
    let map = group_by_name(&files);
    assert_eq!(map.len(), 60000);
    let duplicates = find_duplicates(map);
    assert_eq!(duplicates.len(), 60000);
    assert_eq!(count_duplicates(&duplicates).files, 120000);
    assert_eq!(duplicates[7].members, strings(&["left/file7.dat", "right/file7.bin"]));
    assert_eq!(hash_candidates(&files).len(), 120000);
}

#[test]
fn merging_many_groups() {
    let mut left = GroupMap::new();
    let mut right = GroupMap::new();
    for i in 0..20000u32 {
        left.insert(format!("k{}", i), format!("l{}", i));
        right.insert(format!("k{}", 19999 - i), format!("r{}", i));
    }
    left.merge(right);
    assert_eq!(left.len(), 20000);
    let groups = left.into_groups();
    assert_eq!(groups[0].key, "k0");
    assert_eq!(groups[0].members, strings(&["l0", "r19999"]));
    assert!(groups.iter().all(|g| g.members.len() == 2));
}
