use std::path::Path;

use fast_dedup::order::{rank_paths, Rank};
use fast_dedup::path::{extension, file_name, file_stem};

const SAMPLES: [&str; 40] = [
    "",
    "/",
    ".",
    "..",
    "a",
    "a/",
    "a//",
    "a/.",
    "a/./",
    "a/..",
    "/a",
    "//a",
    "./a",
    "././a",
    "a/b",
    "a//b",
    "a/./b",
    "a.b",
    "a-b/x",
    "a/x",
    "photos/img.jpg",
    "photos-backup/img.jpg",
    "photos.bak/img.jpg",
    "photos 2/img.jpg",
    ".bashrc",
    ".bashrc.bak",
    "dir/.hidden",
    "archive.tar.gz",
    "dir.d/archive.tar.gz",
    "name.",
    "name..",
    "..name",
    "a/b/c/d.txt",
    "a/b/c",
    "/a/b",
    "../a",
    "a/../b",
    "ä/ö.txt",
    "A/b",
    "a/B",
];

fn std_rank(a: &str, b: &str) -> Rank {
    match Path::new(a).cmp(Path::new(b)) {
        std::cmp::Ordering::Less => Rank::Before,
        std::cmp::Ordering::Equal => Rank::Same,
        std::cmp::Ordering::Greater => Rank::After,
    }
}

#[test]
fn file_name_of_plain_paths() {
    assert_eq!(file_name("a/photo.jpg"), Some("photo.jpg".to_string()));
    assert_eq!(file_name("photo.jpg"), Some("photo.jpg".to_string()));
    assert_eq!(file_name("/tmp/foo.txt"), Some("foo.txt".to_string()));
    assert_eq!(file_name("/usr/bin/"), Some("bin".to_string()));
    assert_eq!(file_name("foo.txt/."), Some("foo.txt".to_string()));
    assert_eq!(file_name("foo.txt/.//"), Some("foo.txt".to_string()));
}

#[test]
fn paths_without_file_name() {
    assert_eq!(file_name(""), None);
    assert_eq!(file_name("/"), None);
    assert_eq!(file_name("."), None);
    assert_eq!(file_name(".."), None);
    assert_eq!(file_name("foo.txt/.."), None);
    assert_eq!(file_stem(".."), None);
    assert_eq!(extension("a/.."), None);
}

#[test]
fn stem_and_extension() {
    assert_eq!(file_stem("a/photo.jpg"), Some("photo".to_string()));
    assert_eq!(extension("a/photo.jpg"), Some("jpg".to_string()));
    assert_eq!(file_stem("archive.tar.gz"), Some("archive.tar".to_string()));
    assert_eq!(extension("archive.tar.gz"), Some("gz".to_string()));
    assert_eq!(file_stem("README"), Some("README".to_string()));
    assert_eq!(extension("README"), None);
    assert_eq!(file_stem(".bashrc"), Some(".bashrc".to_string()));
    assert_eq!(extension(".bashrc"), None);
    assert_eq!(file_stem("name."), Some("name".to_string()));
    assert_eq!(extension("name."), Some("".to_string()));
}

#[test]
fn name_parts_agree_with_std_path() {
    for p in SAMPLES {
        let path = Path::new(p);
        let name = path.file_name().map(|s| s.to_str().unwrap().to_string());
        let stem = path.file_stem().map(|s| s.to_str().unwrap().to_string());
        let ext = path.extension().map(|s| s.to_str().unwrap().to_string());
        assert_eq!(file_name(p), name, "file name of {:?}", p);
        assert_eq!(file_stem(p), stem, "file stem of {:?}", p);
        assert_eq!(extension(p), ext, "extension of {:?}", p);
    }
}

#[test]
fn ranks_by_component() {
    assert_eq!(rank_paths("a/x", "a-b/x"), Rank::Before);
    assert_eq!(rank_paths("photos/img.jpg", "photos-backup/img.jpg"), Rank::Before);
    assert_eq!(rank_paths("a/b", "a.b"), Rank::Before);
    assert_eq!(rank_paths("a", "a/b"), Rank::Before);
    assert_eq!(rank_paths("b", "a/b"), Rank::After);
    assert_eq!(rank_paths("a/b", "a/b"), Rank::Same);
    assert_eq!(rank_paths("a//b", "a/b"), Rank::Same);
    assert_eq!(rank_paths("a/./b/", "a/b"), Rank::Same);
    assert_eq!(rank_paths("/a", "a"), Rank::Before);
    assert_eq!(rank_paths("./a", "a"), Rank::Before);
    assert_eq!(rank_paths("../a", "a"), Rank::Before);
    assert_eq!(rank_paths("A/b", "a/b"), Rank::Before);
}

#[test]
fn ranking_agrees_with_std_path() {
    for a in SAMPLES {
        for b in SAMPLES {
            assert_eq!(rank_paths(a, b), std_rank(a, b), "{:?} against {:?}", a, b);
        }
    }
}

#[test]
fn ranking_is_a_total_preorder() {
    for a in SAMPLES {
        assert_eq!(rank_paths(a, a), Rank::Same);
        for b in SAMPLES {
            let ab = rank_paths(a, b);
            let ba = rank_paths(b, a);
            match ab {
                Rank::Before => assert_eq!(ba, Rank::After),
                Rank::Same => assert_eq!(ba, Rank::Same),
                Rank::After => assert_eq!(ba, Rank::Before),
            }
            for c in SAMPLES {
                if ab != Rank::After && rank_paths(b, c) != Rank::After {
                    assert_ne!(rank_paths(a, c), Rank::After);
                }
            }
        }
    }
}
