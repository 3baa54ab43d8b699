//! Moving duplicates out of the way.
//!
//! Of each group the member that ranks first is kept where it is; the others
//! are moved to the archive, one after the other. A move is a rename; where
//! the archive lies on another device, the file is copied and the original
//! removed afterwards. The original is never removed before the copy has
//! succeeded, and a failure stops that one move only.
//!
//! This module decides; it touches no file. The caller carries out each step
//! and reports back how it went.

use vstd::prelude::*;
use crate::archive::{destination_of, free_destination};
use crate::confirm::{Confirmation, means_yes};
use crate::groups::DuplicateGroup;
use crate::order::{path_order, lemma_path_order_laws};
use crate::path::file_name_of;
use crate::sorting::{is_ranked, is_stable_sort_of, sort_paths, texts};
use crate::text::{contains_text, has_text, lowercase, lowercase_of, to_chars};

verus! {

/// What is to be done with the members of one group.
#[derive(Debug)]
pub struct MovePlan {
    /// The member that stays where it is; none only for an empty group.
    pub keeper: Option<String>,
    /// The members to be moved, in ranking order.
    pub movable: Vec<String>,
}

impl MovePlan {
    /// All the members of the plan, the keeper first.
    pub open spec fn ranked(&self) -> Seq<Seq<char>> {
        match self.keeper {
            Some(k) => seq![k@] + texts(self.movable@),
            None => texts(self.movable@),
        }
    }

    /// The plan is the one for a group of these `members`: keeper and
    /// movable members together are the members in ranking order, members
    /// that rank equal in the order they have in the group, and there is a
    /// keeper unless the group is empty.
    pub open spec fn is_plan_of(&self, members: Seq<Seq<char>>) -> bool {
        &&& is_stable_sort_of(self.ranked(), members)
        &&& (self.keeper is None <==> members.len() == 0)
        &&& (self.keeper is None ==> self.movable@.len() == 0)
    }
}

/// The plan for `group`: which member is kept and which are moved.
pub fn plan_group(group: &DuplicateGroup) -> (plan: MovePlan)
    ensures
        plan.is_plan_of(group@.members),
{
    let mut sorted: Vec<String> = Vec::new();
    let mut i: usize = 0;
    while i < group.members.len()
        invariant
            i <= group.members.len(),
            sorted@.len() == i,
            forall|k: int| 0 <= k < i ==> (#[trigger] sorted@[k])@ == group.members@[k]@,
        decreases group.members.len() - i,
    {
        sorted.push(group.members[i].clone());
        i += 1;
    }
    assert(texts(sorted@) =~= group@.members);
    sort_paths(&mut sorted);
    let ghost ranked = texts(sorted@);
    proof {
        ranked.to_multiset_ensures();
        group@.members.to_multiset_ensures();
    }
    if sorted.len() == 0 {
        let plan = MovePlan { keeper: None, movable: sorted };
        assert(plan.ranked() =~= ranked);
        plan
    } else {
        let keeper = sorted.remove(0);
        let plan = MovePlan { keeper: Some(keeper), movable: sorted };
        assert(plan.ranked() =~= ranked);
        plan
    }
}

/// The plans for `groups`, one for each group and in their order, if the
/// operator has confirmed the move; no plan at all otherwise.
pub fn plan_moves(groups: &Vec<DuplicateGroup>, confirmation: Confirmation) -> (plans: Vec<
    MovePlan,
>)
    ensures
        confirmation != Confirmation::Confirmed ==> plans@.len() == 0,
        confirmation == Confirmation::Confirmed ==> plans@.len() == groups@.len(),
        forall|i: int|
            0 <= i < plans@.len() ==> (#[trigger] plans@[i]).is_plan_of(groups@[i]@.members),
{
    let mut plans: Vec<MovePlan> = Vec::new();
    if !confirmation.is_confirmed() {
        return plans;
    }
    let mut i: usize = 0;
    while i < groups.len()
        invariant
            i <= groups.len(),
            plans@.len() == i,
            forall|k: int| 0 <= k < i ==> (#[trigger] plans@[k]).is_plan_of(groups@[k]@.members),
        decreases groups.len() - i,
    {
        plans.push(plan_group(&groups[i]));
        i += 1;
    }
    plans
}

/// Why a file was not moved. In every case the file is where it was.
#[derive(Clone, Copy, Debug, PartialEq, Eq, Structural)]
pub enum MoveFailure {
    /// The file has no file name to archive it under.
    NoFileName,
    /// No name in the archive was free.
    NoFreeName,
    /// The rename failed for a reason other than the archive being on
    /// another device.
    Rename,
    /// The copy to another device failed.
    Copy,
}

/// How the move of one file ended.
#[derive(Clone, Copy, Debug, PartialEq, Eq, Structural)]
pub enum MoveOutcome {
    /// The file was renamed into the archive.
    Renamed,
    /// The file was copied to the archive and the original removed.
    CopiedAndRemoved,
    /// The file was copied to the archive, but the original could not be
    /// removed: the content now exists twice.
    CopiedButNotRemoved,
    /// The file was not moved.
    Failed(MoveFailure),
}

/// Picks the destination for the file at `path` in the directory `dir`: the
/// first of its destinations, up to attempt `limit`, that is not among
/// `taken`. The file cannot be moved if its path has no file name or if all
/// its destinations are taken.
pub fn pick_destination(dir: &str, path: &str, taken: &Vec<String>, limit: u64) -> (r: Result<
    String,
    MoveFailure,
>)
    ensures
        match r {
            Ok(d) => exists|attempt: nat|
                {
                    &&& attempt <= limit
                    &&& #[trigger] destination_of(dir@, path@, attempt) == Some(d@)
                    &&& !texts(taken@).contains(d@)
                    &&& forall|earlier: nat|
                        earlier < attempt ==> texts(taken@).contains(
                            #[trigger] destination_of(dir@, path@, earlier)->0,
                        )
                },
            Err(MoveFailure::NoFileName) => file_name_of(path@) is None,
            Err(MoveFailure::NoFreeName) => file_name_of(path@) is Some && forall|n: nat|
                n <= limit ==> texts(taken@).contains(
                    #[trigger] destination_of(dir@, path@, n)->0,
                ),
            Err(_) => false,
        },
{
    match free_destination(dir, path, taken, limit) {
        Some((d, attempt)) => {
            assert(destination_of(dir@, path@, attempt as nat) == Some(d@));
            Ok(d)
        },
        None => {
            match crate::path::file_name(path) {
                Some(_) => Err(MoveFailure::NoFreeName),
                None => Err(MoveFailure::NoFileName),
            }
        },
    }
}

/// Where the move of one file stands.
#[derive(Clone, Copy, Debug, PartialEq, Eq, Structural)]
pub enum MoveState {
    /// The file is to be renamed to its destination.
    Rename,
    /// The rename met another device: the file is to be copied.
    Copy,
    /// The copy succeeded: the original is to be removed.
    RemoveOriginal,
    /// Nothing is left to do.
    Done(MoveOutcome),
}

impl MoveState {
    /// The state after the step that this state asks for was tried. `ok`
    /// says whether it succeeded; `cross_device` says, of a failed rename,
    /// whether it failed because the destination is on another device.
    pub open spec fn after(self, ok: bool, cross_device: bool) -> MoveState {
        match self {
            MoveState::Rename => if ok {
                MoveState::Done(MoveOutcome::Renamed)
            } else if cross_device {
                MoveState::Copy
            } else {
                MoveState::Done(MoveOutcome::Failed(MoveFailure::Rename))
            },
            MoveState::Copy => if ok {
                MoveState::RemoveOriginal
            } else {
                MoveState::Done(MoveOutcome::Failed(MoveFailure::Copy))
            },
            MoveState::RemoveOriginal => if ok {
                MoveState::Done(MoveOutcome::CopiedAndRemoved)
            } else {
                MoveState::Done(MoveOutcome::CopiedButNotRemoved)
            },
            MoveState::Done(outcome) => MoveState::Done(outcome),
        }
    }

    /// The state in which every move starts.
    pub fn start() -> (r: MoveState)
        ensures
            r == MoveState::Rename,
    {
        MoveState::Rename
    }

    /// Takes the result of the step that this state asks for.
    pub fn advance(self, ok: bool, cross_device: bool) -> (r: MoveState)
        ensures
            r == self.after(ok, cross_device),
    {
        match self {
            MoveState::Rename => if ok {
                MoveState::Done(MoveOutcome::Renamed)
            } else if cross_device {
                MoveState::Copy
            } else {
                MoveState::Done(MoveOutcome::Failed(MoveFailure::Rename))
            },
            MoveState::Copy => if ok {
                MoveState::RemoveOriginal
            } else {
                MoveState::Done(MoveOutcome::Failed(MoveFailure::Copy))
            },
            MoveState::RemoveOriginal => if ok {
                MoveState::Done(MoveOutcome::CopiedAndRemoved)
            } else {
                MoveState::Done(MoveOutcome::CopiedButNotRemoved)
            },
            MoveState::Done(outcome) => MoveState::Done(outcome),
        }
    }

    /// The outcome, once nothing is left to do.
    pub fn outcome(self) -> (r: Option<MoveOutcome>)
        ensures
            r == match self {
                MoveState::Done(outcome) => Some(outcome),
                _ => None::<MoveOutcome>,
            },
    {
        match self {
            MoveState::Done(outcome) => Some(outcome),
            _ => None,
        }
    }
}

/// Whether a failed rename is taken to have met another device, given the
/// lowercase form of the error's message: the system either calls the
/// operation unsupported or speaks of a `cross-device` link.
pub open spec fn signals_other_device(unsupported: bool, lower_message: Seq<char>) -> bool {
    unsupported || contains_text(lower_message, "cross-device"@)
}

/// Whether a failed rename met another device, given the lowercase form of
/// the error's message.
pub fn is_cross_device_lowercase(unsupported: bool, lower_message: &str) -> (r: bool)
    ensures
        r == signals_other_device(unsupported, lower_message@),
{
    unsupported || has_text(&to_chars(lower_message), &to_chars("cross-device"))
}

/// Whether a failed rename met another device. `unsupported` says that the
/// system called the operation unsupported; `message` is what the error
/// says, in any case.
pub fn is_cross_device(unsupported: bool, message: &str) -> (r: bool)
    ensures
        r == signals_other_device(unsupported, lowercase_of(message@)),
{
    let lower = lowercase(message);
    is_cross_device_lowercase(unsupported, lower.as_str())
}

/// Whether an outcome counts as a file moved.
pub open spec fn counts_as_moved(outcome: MoveOutcome) -> bool {
    outcome == MoveOutcome::Renamed || outcome == MoveOutcome::CopiedAndRemoved
}

/// How many of `outcomes` count as moved.
pub open spec fn moved_among(outcomes: Seq<MoveOutcome>) -> nat
    decreases outcomes.len(),
{
    if outcomes.len() == 0 {
        0
    } else if counts_as_moved(outcomes.last()) {
        moved_among(outcomes.drop_last()) + 1
    } else {
        moved_among(outcomes.drop_last())
    }
}

/// What a move run did: how many files were moved and how many were not.
#[derive(Clone, Copy, Debug, PartialEq, Eq, Structural)]
pub struct MoveReport {
    pub moved: usize,
    pub failed: usize,
}

/// Whether `outcome` counts as a file moved.
pub fn is_moved(outcome: MoveOutcome) -> (r: bool)
    ensures
        r == counts_as_moved(outcome),
{
    match outcome {
        MoveOutcome::Renamed => true,
        MoveOutcome::CopiedAndRemoved => true,
        _ => false,
    }
}

/// Counts the outcomes: every move either counts as moved or as failed.
pub fn tally(outcomes: &Vec<MoveOutcome>) -> (r: MoveReport)
    ensures
        r.moved == moved_among(outcomes@),
        r.moved + r.failed == outcomes@.len(),
{
    let mut moved: usize = 0;
    let mut failed: usize = 0;
    let mut i: usize = 0;
    proof {
        assert(outcomes@.take(0) =~= Seq::<MoveOutcome>::empty());
    }
    while i < outcomes.len()
        invariant
            i <= outcomes.len(),
            moved + failed == i,
            moved == moved_among(outcomes@.take(i as int)),
        decreases outcomes.len() - i,
    {
        proof {
            let next = outcomes@.take(i + 1);
            assert(next.drop_last() =~= outcomes@.take(i as int));
            assert(next.last() == outcomes@[i as int]);
        }
        if is_moved(outcomes[i]) {
            moved += 1;
        } else {
            failed += 1;
        }
        i += 1;
    }
    proof {
        assert(outcomes@.take(i as int) =~= outcomes@);
    }
    MoveReport { moved, failed }
}

/// Where the content of a file is while it is being moved.
pub struct Whereabouts {
    /// The file is at its original path.
    pub at_origin: bool,
    /// The file is complete at its destination.
    pub in_archive: bool,
}

/// What a step does to the file: a rename that succeeds takes it from its
/// origin to the archive, a copy that succeeds puts it in the archive as
/// well, a removal that succeeds takes it from its origin. A step that fails
/// changes nothing.
pub open spec fn whereabouts_after(state: MoveState, ok: bool, before: Whereabouts) -> Whereabouts {
    if !ok {
        before
    } else {
        match state {
            MoveState::Rename => Whereabouts { at_origin: false, in_archive: true },
            MoveState::Copy => Whereabouts { at_origin: before.at_origin, in_archive: true },
            MoveState::RemoveOriginal => Whereabouts {
                at_origin: false,
                in_archive: before.in_archive,
            },
            MoveState::Done(_) => before,
        }
    }
}

/// State and whereabouts after the steps whose results are `results`, each a
/// pair of `ok` and `cross_device`.
pub open spec fn after_steps(
    state: MoveState,
    place: Whereabouts,
    results: Seq<(bool, bool)>,
) -> (MoveState, Whereabouts)
    decreases results.len(),
{
    if results.len() == 0 {
        (state, place)
    } else {
        after_steps(
            state.after(results[0].0, results[0].1),
            whereabouts_after(state, results[0].0, place),
            results.drop_first(),
        )
    }
}

/// Where the file is in each state of a move that started at its origin.
pub open spec fn consistent(state: MoveState, place: Whereabouts) -> bool {
    match state {
        MoveState::Rename => place.at_origin && !place.in_archive,
        MoveState::Copy => place.at_origin && !place.in_archive,
        MoveState::RemoveOriginal => place.at_origin && place.in_archive,
        MoveState::Done(outcome) => match outcome {
            MoveOutcome::Renamed => !place.at_origin && place.in_archive,
            MoveOutcome::CopiedAndRemoved => !place.at_origin && place.in_archive,
            MoveOutcome::CopiedButNotRemoved => place.at_origin && place.in_archive,
            MoveOutcome::Failed(_) => place.at_origin && !place.in_archive,
        },
    }
}

/// Every step takes a state in which the file is where the state says to
/// another such state.
proof fn lemma_steps_keep_consistent(
    state: MoveState,
    place: Whereabouts,
    results: Seq<(bool, bool)>,
)
    requires
        consistent(state, place),
    ensures
        consistent(after_steps(state, place, results).0, after_steps(state, place, results).1),
    decreases results.len(),
{
    if results.len() > 0 {
        lemma_steps_keep_consistent(
            state.after(results[0].0, results[0].1),
            whereabouts_after(state, results[0].0, place),
            results.drop_first(),
        );
    }
}

/// No file is ever lost: however the steps of a move go, the file is at its
/// origin or in the archive afterwards. The original is asked to be removed
/// only while the archive holds a copy. A move that counts as moved has the
/// file in the archive and no longer at its origin; one that does not has
/// left the file at its origin.
pub proof fn lemma_no_file_is_lost(results: Seq<(bool, bool)>)
    ensures
        ({
            let start = Whereabouts { at_origin: true, in_archive: false };
            let (state, place) = after_steps(MoveState::Rename, start, results);
            &&& place.at_origin || place.in_archive
            &&& state == MoveState::RemoveOriginal ==> place.in_archive
            &&& forall|outcome: MoveOutcome|
                state == MoveState::Done(outcome) ==> {
                    &&& counts_as_moved(outcome) ==> place.in_archive && !place.at_origin
                    &&& !counts_as_moved(outcome) ==> place.at_origin
                }
        }),
{
    let start = Whereabouts { at_origin: true, in_archive: false };
    lemma_steps_keep_consistent(MoveState::Rename, start, results);
}

/// The keeper is the member that ranks first: no member of the group ranks
/// before it.
pub proof fn lemma_keeper_ranks_first(plan: MovePlan, members: Seq<Seq<char>>, i: int)
    requires
        plan.is_plan_of(members),
        0 <= i < members.len(),
    ensures
        plan.keeper is Some,
        path_order(plan.keeper->0@, members[i]) <= 0,
{
    let ranked = plan.ranked();
    ranked.to_multiset_ensures();
    members.to_multiset_ensures();
    assert(members.contains(members[i]));
    assert(members.to_multiset().count(members[i]) > 0);
    assert(ranked.contains(members[i]));
    let j = choose|j: int| 0 <= j < ranked.len() && ranked[j] == members[i];
    assert(ranked[0] == plan.keeper->0@);
    if j > 0 {
        assert(path_order(ranked[0], ranked[j]) <= 0);
    } else {
        lemma_path_order_laws(ranked[0], ranked[0], ranked[0]);
    }
}

/// A plan accounts for every member of its group: keeper and movable
/// members together are the members, each as often as the group has it, so
/// all but one of them are moved.
pub proof fn lemma_plan_covers_group(plan: MovePlan, members: Seq<Seq<char>>)
    requires
        plan.is_plan_of(members),
    ensures
        plan.ranked().to_multiset() == members.to_multiset(),
        members.len() > 0 ==> plan.movable@.len() == members.len() - 1,
        members.len() == 0 ==> plan.movable@.len() == 0,
{
    plan.ranked().to_multiset_ensures();
    members.to_multiset_ensures();
}

/// The keeper is never moved: in a group that holds no path twice, the
/// keeper is not among the members to be moved.
pub proof fn lemma_keeper_stays(plan: MovePlan, members: Seq<Seq<char>>)
    requires
        plan.is_plan_of(members),
        members.no_duplicates(),
        plan.keeper is Some,
    ensures
        !texts(plan.movable@).contains(plan.keeper->0@),
{
    let ranked = plan.ranked();
    let keeper = plan.keeper->0@;
    let movable = texts(plan.movable@);
    ranked.to_multiset_ensures();
    members.to_multiset_ensures();
    members.lemma_multiset_has_no_duplicates();
    if movable.contains(keeper) {
        let j = choose|j: int| 0 <= j < movable.len() && movable[j] == keeper;
        assert(ranked[j + 1] == keeper);
        assert(ranked[0] == keeper);
        assert(ranked =~= seq![keeper] + movable);
        vstd::seq_lib::lemma_multiset_commutative(seq![keeper], movable);
        seq![keeper].to_multiset_ensures();
        movable.to_multiset_ensures();
        assert(seq![keeper][0] == keeper);
        assert(seq![keeper].contains(keeper));
        assert(seq![keeper].to_multiset().count(keeper) > 0);
        assert(movable.to_multiset().count(keeper) > 0);
        assert(ranked.to_multiset().count(keeper) >= 2);
    }
}

/// Unless both answers mean yes, the move is not confirmed, and a run that
/// is not confirmed plans no move and so moves no file.
pub proof fn lemma_declined_moves_nothing(first: Seq<char>, second: Seq<char>)
    requires
        !means_yes(first) || !means_yes(second),
    ensures
        Confirmation::AwaitingFirst.after(means_yes(first)).after(means_yes(second))
            != Confirmation::Confirmed,
        moved_among(Seq::<MoveOutcome>::empty()) == 0,
{
}

/// The ranking order of a set of paths is unique: two rankings of the same
/// paths, none of which rank equal unless they are the same path, are the
/// same sequence.
pub proof fn lemma_ranking_is_unique(first: Seq<Seq<char>>, second: Seq<Seq<char>>)
    requires
        is_ranked(first),
        is_ranked(second),
        first.to_multiset() == second.to_multiset(),
        forall|i: int, j: int|
            0 <= i < first.len() && 0 <= j < first.len() && path_order(
                #[trigger] first[i],
                #[trigger] first[j],
            ) == 0 ==> first[i] == first[j],
    ensures
        first == second,
    decreases first.len(),
{
    first.to_multiset_ensures();
    second.to_multiset_ensures();
    if first.len() == 0 {
        assert(first =~= second);
    } else {
        let a = first[0];
        let b = second[0];
        assert(first.contains(a));
        assert(second.contains(b));
        assert(first.to_multiset().count(a) > 0);
        assert(second.to_multiset().count(b) > 0);
        assert(second.contains(a));
        assert(first.contains(b));
        let i = choose|i: int| 0 <= i < first.len() && first[i] == b;
        let j = choose|j: int| 0 <= j < second.len() && second[j] == a;
        lemma_path_order_laws(a, b, a);
        if i > 0 {
            assert(path_order(first[0], first[i]) <= 0);
        }
        if j > 0 {
            assert(path_order(second[0], second[j]) <= 0);
        }
        assert(path_order(first[0], first[i]) == 0);
        assert(a == b);
        let rest_first = first.remove(0);
        let rest_second = second.remove(0);
        vstd::seq_lib::to_multiset_remove(first, 0);
        vstd::seq_lib::to_multiset_remove(second, 0);
        assert forall|x: int, y: int| 0 <= x < y < rest_first.len() implies path_order(
            #[trigger] rest_first[x],
            #[trigger] rest_first[y],
        ) <= 0 by {
            assert(rest_first[x] == first[x + 1] && rest_first[y] == first[y + 1]);
        }
        assert forall|x: int, y: int| 0 <= x < y < rest_second.len() implies path_order(
            #[trigger] rest_second[x],
            #[trigger] rest_second[y],
        ) <= 0 by {
            assert(rest_second[x] == second[x + 1] && rest_second[y] == second[y + 1]);
        }
        assert forall|x: int, y: int|
            0 <= x < rest_first.len() && 0 <= y < rest_first.len() && path_order(
                #[trigger] rest_first[x],
                #[trigger] rest_first[y],
            ) == 0 implies rest_first[x] == rest_first[y] by {
            assert(rest_first[x] == first[x + 1] && rest_first[y] == first[y + 1]);
        }
        lemma_ranking_is_unique(rest_first, rest_second);
        assert(first =~= seq![a] + rest_first);
        assert(second =~= seq![b] + rest_second);
    }
}

/// In whatever order the members of a group come in, the plan is the same:
/// two plans for the same members agree on the keeper and on the order of
/// the members to be moved, as long as no two different members rank equal.
pub proof fn lemma_plan_ignores_member_order(
    first: MovePlan,
    first_members: Seq<Seq<char>>,
    second: MovePlan,
    second_members: Seq<Seq<char>>,
)
    requires
        first.is_plan_of(first_members),
        second.is_plan_of(second_members),
        first_members.to_multiset() == second_members.to_multiset(),
        forall|i: int, j: int|
            0 <= i < first_members.len() && 0 <= j < first_members.len() && path_order(
                #[trigger] first_members[i],
                #[trigger] first_members[j],
            ) == 0 ==> first_members[i] == first_members[j],
    ensures
        first.ranked() == second.ranked(),
{
    let a = first.ranked();
    a.to_multiset_ensures();
    first_members.to_multiset_ensures();
    assert forall|i: int, j: int|
        0 <= i < a.len() && 0 <= j < a.len() && path_order(#[trigger] a[i], #[trigger] a[j])
            == 0 implies a[i] == a[j] by {
        assert(a.contains(a[i]));
        assert(a.contains(a[j]));
        assert(a.to_multiset().count(a[i]) > 0);
        assert(a.to_multiset().count(a[j]) > 0);
        assert(first_members.contains(a[i]));
        assert(first_members.contains(a[j]));
        let x = choose|x: int| 0 <= x < first_members.len() && first_members[x] == a[i];
        let y = choose|y: int| 0 <= y < first_members.len() && first_members[y] == a[j];
        assert(path_order(first_members[x], first_members[y]) == 0);
    }
    lemma_ranking_is_unique(a, second.ranked());
}

} // verus!
