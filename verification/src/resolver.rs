//! From groups to duplicates.
//!
//! A group is a set of duplicates once it has at least two members. Only
//! such groups are reported and archived.

use vstd::prelude::*;
use crate::groups::{DuplicateGroup, GroupMap, GroupView, group_views, reverse_groups};

verus! {

/// The groups that hold duplicates: those of at least two members, in the
/// order they have in `groups`.
pub open spec fn duplicates_of(groups: Seq<GroupView>) -> Seq<GroupView> {
    groups.filter(|g: GroupView| g.members.len() >= 2)
}

/// The number of members of all the groups together.
pub open spec fn member_total(groups: Seq<GroupView>) -> nat
    decreases groups.len(),
{
    if groups.len() == 0 {
        0
    } else {
        member_total(groups.drop_last()) + groups.last().members.len()
    }
}

/// The number of members that can be moved away: all but one of each group.
pub open spec fn movable_total(groups: Seq<GroupView>) -> nat
    decreases groups.len(),
{
    if groups.len() == 0 {
        0
    } else if groups.last().members.len() >= 1 {
        (movable_total(groups.drop_last()) + groups.last().members.len() - 1) as nat
    } else {
        movable_total(groups.drop_last())
    }
}

/// What a run found: how many groups of duplicates, and how many files in
/// them, the one that is kept of each group included.
#[derive(Clone, Copy, Debug, PartialEq, Eq, Structural)]
pub struct DuplicateStats {
    pub groups: usize,
    pub files: u128,
}

/// The groups of `map` that hold duplicates.
pub fn find_duplicates(map: GroupMap) -> (r: Vec<DuplicateGroup>)
    ensures
        group_views(r@) == duplicates_of(map@),
{
    let ghost all = map@;
    let ghost twice = |g: GroupView| g.members.len() >= 2;
    let mut rest = map.into_groups();
    let total = rest.len();
    reverse_groups(&mut rest);
    let mut out: Vec<DuplicateGroup> = Vec::new();
    let mut done: usize = 0;
    proof {
        reveal(Seq::filter);
        assert(all.take(0) =~= Seq::<GroupView>::empty());
        assert(group_views(out@) =~= all.take(0).filter(twice));
    }
    while rest.len() > 0
        invariant
            done + rest.len() == total,
            total == all.len(),
            twice == (|g: GroupView| g.members.len() >= 2),
            forall|i: int| 0 <= i < rest.len() ==> (#[trigger] rest@[i])@ == all[total - 1 - i],
            group_views(out@) == all.take(done as int).filter(twice),
        decreases rest.len(),
    {
        let group = rest.pop().unwrap();
        proof {
            reveal(Seq::filter);
            let next = all.take(done + 1);
            assert(next.drop_last() =~= all.take(done as int));
            assert(next.last() == group@);
            assert(group@.members.len() == group.members@.len());
        }
        let ghost before = group_views(out@);
        if group.members.len() >= 2 {
            out.push(group);
            assert(group_views(out@) =~= before.push(all[done as int]));
        }
        done += 1;
    }
    proof {
        assert(all.take(done as int) =~= all);
    }
    out
}

/// Counts the groups and their members.
pub fn count_duplicates(groups: &Vec<DuplicateGroup>) -> (r: DuplicateStats)
    ensures
        r.groups == groups@.len(),
        r.files == member_total(group_views(groups@)),
{
    let ghost all = group_views(groups@);
    let mut files: u128 = 0;
    let mut i: usize = 0;
    proof {
        assert(all.take(0) =~= Seq::<GroupView>::empty());
    }
    while i < groups.len()
        invariant
            i <= groups.len(),
            all == group_views(groups@),
            files == member_total(all.take(i as int)),
            files <= i * usize::MAX,
        decreases groups.len() - i,
    {
        proof {
            let next = all.take(i + 1);
            assert(next.drop_last() =~= all.take(i as int));
            assert(next.last().members.len() == groups@[i as int].members@.len());
            assert((i + 1) * usize::MAX == i * usize::MAX + usize::MAX) by (nonlinear_arith);
            assert(i * usize::MAX <= usize::MAX * usize::MAX) by (nonlinear_arith)
                requires
                    i <= usize::MAX,
            ;
            assert(usize::MAX * usize::MAX + usize::MAX <= u128::MAX) by (nonlinear_arith)
                requires
                    usize::MAX <= u64::MAX,
            ;
        }
        files = files + groups[i].members.len() as u128;
        i += 1;
    }
    proof {
        assert(all.take(i as int) =~= all);
    }
    DuplicateStats { groups: groups.len(), files }
}

/// Counts the members that can be moved away: all but one of each group.
pub fn movable_count(groups: &Vec<DuplicateGroup>) -> (r: u128)
    ensures
        r == movable_total(group_views(groups@)),
{
    let ghost all = group_views(groups@);
    let mut count: u128 = 0;
    let mut i: usize = 0;
    proof {
        assert(all.take(0) =~= Seq::<GroupView>::empty());
    }
    while i < groups.len()
        invariant
            i <= groups.len(),
            all == group_views(groups@),
            count == movable_total(all.take(i as int)),
            count <= i * usize::MAX,
        decreases groups.len() - i,
    {
        proof {
            let next = all.take(i + 1);
            assert(next.drop_last() =~= all.take(i as int));
            assert(next.last().members.len() == groups@[i as int].members@.len());
            assert((i + 1) * usize::MAX == i * usize::MAX + usize::MAX) by (nonlinear_arith);
            assert(i * usize::MAX <= usize::MAX * usize::MAX) by (nonlinear_arith)
                requires
                    i <= usize::MAX,
            ;
            assert(usize::MAX * usize::MAX + usize::MAX <= u128::MAX) by (nonlinear_arith)
                requires
                    usize::MAX <= u64::MAX,
            ;
        }
        let n = groups[i].members.len();
        if n >= 1 {
            count = count + (n - 1) as u128;
        }
        i += 1;
    }
    proof {
        assert(all.take(i as int) =~= all);
    }
    count
}

/// Every group of duplicates has at least two members, and a group is among
/// the duplicates exactly if it has.
pub proof fn lemma_duplicates_have_two(groups: Seq<GroupView>)
    ensures
        forall|k: int|
            0 <= k < duplicates_of(groups).len() ==> (#[trigger] duplicates_of(
                groups,
            )[k]).members.len() >= 2,
        forall|i: int|
            0 <= i < groups.len() && groups[i].members.len() >= 2 ==> duplicates_of(
                groups,
            ).contains(#[trigger] groups[i]),
        forall|k: int|
            0 <= k < duplicates_of(groups).len() ==> groups.contains(
                #[trigger] duplicates_of(groups)[k],
            ),
{
    let twice = |g: GroupView| g.members.len() >= 2;
    assert forall|k: int| 0 <= k < duplicates_of(groups).len() implies (#[trigger] duplicates_of(
        groups,
    )[k]).members.len() >= 2 by {
        groups.lemma_filter_pred(twice, k);
    }
    assert forall|i: int|
        0 <= i < groups.len() && groups[i].members.len() >= 2 implies duplicates_of(
        groups,
    ).contains(#[trigger] groups[i]) by {
        groups.lemma_filter_contains(twice, i);
    }
    assert forall|k: int| 0 <= k < duplicates_of(groups).len() implies groups.contains(
        #[trigger] duplicates_of(groups)[k],
    ) by {
        groups.lemma_filter_contains_rev(twice, duplicates_of(groups)[k]);
    }
}

} // verus!
