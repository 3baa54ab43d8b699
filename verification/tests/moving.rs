use fast_dedup::archive::{archive_dir, destination, free_destination, join};
use fast_dedup::confirm::{is_affirmative, Confirmation};
use fast_dedup::groups::DuplicateGroup;
use fast_dedup::mover::{
    is_cross_device, is_cross_device_lowercase, is_moved, pick_destination, plan_group,
    plan_moves, tally,
    MoveFailure, MoveOutcome, MoveReport, MoveState,
};

fn strings(items: &[&str]) -> Vec<String> {
    items.iter().map(|s| s.to_string()).collect()
}

fn group(key: &str, members: &[&str]) -> DuplicateGroup {
    DuplicateGroup { key: key.to_string(), members: strings(members) }
}

#[test]
fn yes_is_a_single_y() {
    assert!(is_affirmative("y"));
    assert!(is_affirmative("Y"));
    assert!(is_affirmative(" y\n"));
    assert!(is_affirmative("\tY\r\n"));
    assert!(!is_affirmative(""));
    assert!(!is_affirmative("\n"));
    assert!(!is_affirmative("n"));
    assert!(!is_affirmative("yes"));
    assert!(!is_affirmative("y y"));
    assert!(!is_affirmative("N"));
}

#[test]
fn two_yeses_confirm() {
    let c = Confirmation::start();
    assert!(c.needs_answer());
    let c = c.answer("y\n");
    assert_eq!(c, Confirmation::AwaitingSecond);
    assert!(c.needs_answer());
    assert!(!c.is_confirmed());
    let c = c.answer("Y\n");
    assert_eq!(c, Confirmation::Confirmed);
    assert!(c.is_confirmed());
    assert!(!c.needs_answer());
}

#[test]
fn either_no_cancels() {
    assert_eq!(Confirmation::start().answer("n"), Confirmation::Cancelled);
    assert_eq!(Confirmation::start().answer("y").answer(""), Confirmation::Cancelled);
    assert_eq!(Confirmation::start().answer("no").answer("y"), Confirmation::Cancelled);
    assert!(!Confirmation::Cancelled.needs_answer());
    assert!(!Confirmation::Cancelled.is_confirmed());
    assert_eq!(Confirmation::Confirmed.answer("n"), Confirmation::Confirmed);
}

#[test]
fn declined_run_moves_nothing() {
    let groups = vec![group("k", &["b/x", "a/x", "c/x"])];
    for (first, second) in [("n", "y"), ("y", "n"), ("", ""), ("y", "maybe")] {
        let confirmation = Confirmation::start().answer(first).answer(second);
        let plans = plan_moves(&groups, confirmation);
        assert!(plans.is_empty());
        let report = tally(&vec![]);
        assert_eq!(report, MoveReport { moved: 0, failed: 0 });
    }
    assert!(plan_moves(&groups, Confirmation::AwaitingFirst).is_empty());
    assert!(plan_moves(&groups, Confirmation::AwaitingSecond).is_empty());
}

#[test]
fn confirmed_run_plans_every_group() {
    let groups = vec![group("k", &["b/x", "a/x", "c/x"]), group("l", &["z", "y"])];
    let confirmation = Confirmation::start().answer("y").answer("y");
    let plans = plan_moves(&groups, confirmation);
    assert_eq!(plans.len(), 2);
    assert_eq!(plans[0].keeper, Some("a/x".to_string()));
    assert_eq!(plans[0].movable, strings(&["b/x", "c/x"]));
    assert_eq!(plans[1].keeper, Some("y".to_string()));
    assert_eq!(plans[1].movable, strings(&["z"]));
}

#[test]
fn keeper_is_first_by_component() {
    let plan = plan_group(&group("k", &["photos-backup/img.jpg", "photos/img.jpg"]));
    assert_eq!(plan.keeper, Some("photos/img.jpg".to_string()));
    assert_eq!(plan.movable, strings(&["photos-backup/img.jpg"]));
}

#[test]
fn plan_agrees_with_sorted_paths() {
    let members = [
        "b/2", "a/10", "a/1", "a.b/c", "a/b/c", "c", "a", "a-b/x", "/root/x", "./rel", "a/1/z",
    ];
    let plan = plan_group(&group("k", &members));
    let mut expected: Vec<std::path::PathBuf> =
        members.iter().map(std::path::PathBuf::from).collect();
    expected.sort();
    let expected: Vec<String> =
        expected.iter().map(|p| p.to_str().unwrap().to_string()).collect();
    let mut ranked = vec![plan.keeper.clone().unwrap()];
    ranked.extend(plan.movable.iter().cloned());
    assert_eq!(ranked, expected);
}

#[test]
fn equal_ranks_keep_their_order() {
    let plan = plan_group(&group("k", &["a//x", "a/x", "a/./x"]));
    assert_eq!(plan.keeper, Some("a//x".to_string()));
    assert_eq!(plan.movable, strings(&["a/x", "a/./x"]));
}

#[test]
fn small_groups() {
    let empty = plan_group(&group("k", &[]));
    assert_eq!(empty.keeper, None);
    assert!(empty.movable.is_empty());
    let single = plan_group(&group("k", &["only"]));
    assert_eq!(single.keeper, Some("only".to_string()));
    assert!(single.movable.is_empty());
}

#[test]
fn joins_paths() {
    assert_eq!(join("_archive", "2024"), "_archive/2024");
    assert_eq!(join("_archive/", "2024"), "_archive/2024");
    assert_eq!(join("", "2024"), "2024");
    assert_eq!(join("a", "/abs"), "/abs");
    assert_eq!(join("/", "x"), "/x");
    for (dir, name) in [("_archive", "2024"), ("a/", "b"), ("", "b"), ("a", "/b"), ("a", "")] {
        let expected = std::path::Path::new(dir).join(name);
        assert_eq!(join(dir, name), expected.to_str().unwrap());
    }
}

#[test]
fn archive_directory_of_a_day() {
    assert_eq!(archive_dir("_archive", 2024, 3, 7), "_archive/2024/03/07");
    assert_eq!(archive_dir("_archive", 2026, 10, 28), "_archive/2026/10/28");
    assert_eq!(archive_dir("/var/dups/", 987, 12, 1), "/var/dups/0987/12/01");
    assert_eq!(archive_dir("", 12345, 1, 31), "12345/01/31");
}

#[test]
fn destination_names() {
    let dir = "_archive/2024/03/07";
    assert_eq!(
        destination(dir, "b/photo_copy.jpg", 0),
        Some("_archive/2024/03/07/photo_copy.jpg".to_string())
    );
    assert_eq!(
        destination(dir, "b/photo_copy.jpg", 1),
        Some("_archive/2024/03/07/photo_copy (1).jpg".to_string())
    );
    assert_eq!(
        destination(dir, "b/photo_copy.jpg", 12),
        Some("_archive/2024/03/07/photo_copy (12).jpg".to_string())
    );
    assert_eq!(destination(dir, "README", 2), Some(format!("{}/README (2)", dir)));
    assert_eq!(destination(dir, ".bashrc", 1), Some(format!("{}/.bashrc (1)", dir)));
    assert_eq!(destination(dir, "x/name.", 1), Some(format!("{}/name (1)", dir)));
    assert_eq!(destination(dir, "a.tar.gz", 3), Some(format!("{}/a.tar (3).gz", dir)));
    assert_eq!(destination(dir, "..", 0), None);
    assert_eq!(destination(dir, "", 1), None);
}

#[test]
fn first_free_destination() {
    let dir = "arch";
    assert_eq!(
        free_destination(dir, "a/x.txt", &vec![], u64::MAX),
        Some(("arch/x.txt".to_string(), 0))
    );
    let taken = strings(&["arch/x.txt", "arch/x (1).txt", "arch/x (3).txt", "arch/y.txt"]);
    assert_eq!(
        free_destination(dir, "a/x.txt", &taken, u64::MAX),
        Some(("arch/x (2).txt".to_string(), 2))
    );
    assert_eq!(
        free_destination(dir, "a/x.txt", &taken, 2),
        Some(("arch/x (2).txt".to_string(), 2))
    );
    assert_eq!(free_destination(dir, "a/x.txt", &taken, 1), None);
    assert_eq!(free_destination(dir, "a/x.txt", &taken, 0), None);
    assert_eq!(
        free_destination(dir, "a/z.txt", &taken, 0),
        Some(("arch/z.txt".to_string(), 0))
    );
    assert_eq!(free_destination(dir, "a/..", &taken, u64::MAX), None);
}

#[test]
fn picks_a_destination_or_says_why_not() {
    let taken = strings(&["arch/x.txt", "arch/x (1).txt"]);
    assert_eq!(pick_destination("arch", "a/x.txt", &taken, 100), Ok("arch/x (2).txt".to_string()));
    assert_eq!(pick_destination("arch", "a/y.txt", &taken, 0), Ok("arch/y.txt".to_string()));
    assert_eq!(pick_destination("arch", "a/x.txt", &taken, 1), Err(MoveFailure::NoFreeName));
    assert_eq!(pick_destination("arch", "a/..", &taken, 100), Err(MoveFailure::NoFileName));
    assert_eq!(pick_destination("arch", "", &vec![], 100), Err(MoveFailure::NoFileName));
}

#[test]
fn moves_in_sequence_see_earlier_moves() {
    let dir = "arch";
    let mut taken: Vec<String> = Vec::new();
    let mut got = Vec::new();
    for path in ["a/f.bin", "b/f.bin", "c/f.bin"] {
        let (d, _) = free_destination(dir, path, &taken, u64::MAX).unwrap();
        taken.push(d.clone());
        got.push(d);
    }
    assert_eq!(got, strings(&["arch/f.bin", "arch/f (1).bin", "arch/f (2).bin"]));
}

#[test]
fn rename_that_succeeds() {
    let s = MoveState::start();
    assert_eq!(s.outcome(), None);
    let s = s.advance(true, false);
    assert_eq!(s, MoveState::Done(MoveOutcome::Renamed));
    assert_eq!(s.outcome(), Some(MoveOutcome::Renamed));
    assert_eq!(s.advance(false, true), s);
}

#[test]
fn rename_that_fails() {
    assert_eq!(
        MoveState::start().advance(false, false),
        MoveState::Done(MoveOutcome::Failed(MoveFailure::Rename))
    );
}

#[test]
fn other_device_falls_back_to_copy() {
    let s = MoveState::start().advance(false, true);
    assert_eq!(s, MoveState::Copy);
    assert_eq!(s.advance(false, false), MoveState::Done(MoveOutcome::Failed(MoveFailure::Copy)));
    let s = s.advance(true, false);
    assert_eq!(s, MoveState::RemoveOriginal);
    assert_eq!(s.advance(true, false), MoveState::Done(MoveOutcome::CopiedAndRemoved));
    assert_eq!(s.advance(false, false), MoveState::Done(MoveOutcome::CopiedButNotRemoved));
}

#[test]
fn original_is_removed_only_after_the_copy() {
    for first in [(true, false), (false, false), (false, true)] {
        for second in [(true, false), (false, false), (false, true)] {
            let a = MoveState::start().advance(first.0, first.1);
            let b = a.advance(second.0, second.1);
            if b == MoveState::RemoveOriginal {
                assert_eq!(a, MoveState::Copy);
                assert!(second.0);
            }
            assert_ne!(a, MoveState::RemoveOriginal);
        }
    }
}

#[test]
fn recognizes_other_device() {
    assert!(is_cross_device(true, "whatever"));
    assert!(is_cross_device(false, "Invalid cross-device link (os error 18)"));
    assert!(is_cross_device(false, "Cross-Device link"));
    assert!(!is_cross_device(false, "Permission denied (os error 13)"));
    assert!(!is_cross_device(false, "cross device"));
    assert!(!is_cross_device(false, ""));
    assert!(is_cross_device_lowercase(false, "a cross-device b"));
    assert!(!is_cross_device_lowercase(false, "CROSS-DEVICE"));
}

#[test]
fn tally_counts_moved_and_failed() {
    let outcomes = vec![
        MoveOutcome::Renamed,
        MoveOutcome::CopiedAndRemoved,
        MoveOutcome::CopiedButNotRemoved,
        MoveOutcome::Failed(MoveFailure::Rename),
        MoveOutcome::Failed(MoveFailure::Copy),
        MoveOutcome::Failed(MoveFailure::NoFileName),
        MoveOutcome::Failed(MoveFailure::NoFreeName),
        MoveOutcome::Renamed,
    ];
    assert_eq!(tally(&outcomes), MoveReport { moved: 3, failed: 5 });
    assert_eq!(tally(&vec![]), MoveReport { moved: 0, failed: 0 });
    assert!(is_moved(MoveOutcome::Renamed));
    assert!(is_moved(MoveOutcome::CopiedAndRemoved));
    assert!(!is_moved(MoveOutcome::CopiedButNotRemoved));
}
