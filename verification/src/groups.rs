//! Groups of paths that share a key.
//!
//! A [`GroupMap`] maps each key to the paths filed under it. Keys keep the
//! order in which they first came in, and the paths of one key keep the order
//! in which they were added.

use vstd::prelude::*;
use std::collections::HashMap;
use crate::sorting::texts;
use crate::text::to_chars;

verus! {

/// The paths that share one key.
#[derive(Debug)]
pub struct DuplicateGroup {
    pub key: String,
    pub members: Vec<String>,
}

/// A group as plain text: its key and its member paths.
pub struct GroupView {
    pub key: Seq<char>,
    pub members: Seq<Seq<char>>,
}

impl View for DuplicateGroup {
    type V = GroupView;

    open spec fn view(&self) -> GroupView {
        GroupView { key: self.key@, members: texts(self.members@) }
    }
}

/// What a list of groups holds, as plain text.
pub open spec fn group_views(groups: Seq<DuplicateGroup>) -> Seq<GroupView> {
    Seq::new(groups.len(), |i: int| groups[i]@)
}

/// Index of the group of `key`, or `-1` if no group has that key.
pub open spec fn position_of(groups: Seq<GroupView>, key: Seq<char>) -> int
    decreases groups.len(),
{
    if groups.len() == 0 {
        -1
    } else if position_of(groups.drop_last(), key) >= 0 {
        position_of(groups.drop_last(), key)
    } else if groups.last().key == key {
        groups.len() - 1
    } else {
        -1
    }
}

/// The paths filed under `key`; none if no group has that key.
pub open spec fn members_in(groups: Seq<GroupView>, key: Seq<char>) -> Seq<Seq<char>> {
    let at = position_of(groups, key);
    if at >= 0 {
        groups[at].members
    } else {
        Seq::empty()
    }
}

/// No two groups have the same key.
pub open spec fn keys_distinct(groups: Seq<GroupView>) -> bool {
    forall|i: int, j: int|
        0 <= i < j < groups.len() ==> (#[trigger] groups[i]).key != (#[trigger] groups[j]).key
}

/// `groups` with `more` added, in order, to the paths of `key`. A key that
/// has no group yet gets a new one at the end.
pub open spec fn with_members(groups: Seq<GroupView>, key: Seq<char>, more: Seq<Seq<char>>) -> Seq<
    GroupView,
> {
    let at = position_of(groups, key);
    if at >= 0 {
        groups.update(at, GroupView { key: key, members: groups[at].members + more })
    } else {
        groups.push(GroupView { key: key, members: more })
    }
}

/// `groups` with `path` added to the paths of `key`.
pub open spec fn with_member(groups: Seq<GroupView>, key: Seq<char>, path: Seq<char>) -> Seq<
    GroupView,
> {
    with_members(groups, key, seq![path])
}

/// The position of a key is the first index that holds it, and `-1` exactly
/// if no group holds it.
pub proof fn lemma_position_of(groups: Seq<GroupView>, key: Seq<char>)
    ensures
        -1 <= position_of(groups, key) < groups.len(),
        position_of(groups, key) >= 0 ==> groups[position_of(groups, key)].key == key,
        forall|i: int| 0 <= i < position_of(groups, key) ==> (#[trigger] groups[i]).key != key,
        position_of(groups, key) == -1 ==> forall|i: int|
            0 <= i < groups.len() ==> (#[trigger] groups[i]).key != key,
    decreases groups.len(),
{
    if groups.len() > 0 {
        let front = groups.drop_last();
        lemma_position_of(front, key);
        assert forall|i: int| 0 <= i < front.len() implies front[i] == groups[i] by {}
    }
}

/// The first index that holds `key` is its position.
pub proof fn lemma_position_of_is(groups: Seq<GroupView>, key: Seq<char>, at: int)
    requires
        0 <= at < groups.len(),
        groups[at].key == key,
        forall|i: int| 0 <= i < at ==> (#[trigger] groups[i]).key != key,
    ensures
        position_of(groups, key) == at,
{
    lemma_position_of(groups, key);
}

/// Adding paths to a key keeps the keys distinct, changes the paths of that
/// key alone, and keeps every other group where it was.
pub proof fn lemma_with_members(
    groups: Seq<GroupView>,
    key: Seq<char>,
    more: Seq<Seq<char>>,
    other: Seq<char>,
)
    requires
        keys_distinct(groups),
    ensures
        keys_distinct(with_members(groups, key, more)),
        members_in(with_members(groups, key, more), key) == members_in(groups, key) + more,
        other != key ==> members_in(with_members(groups, key, more), other) == members_in(
            groups,
            other,
        ),
        other != key ==> position_of(with_members(groups, key, more), other) == position_of(
            groups,
            other,
        ),
        position_of(with_members(groups, key, more), key) == if position_of(groups, key) >= 0 {
            position_of(groups, key)
        } else {
            groups.len() as int
        },
{
    let after = with_members(groups, key, more);
    lemma_position_of(groups, key);
    lemma_position_of(groups, other);
    lemma_position_of(after, key);
    lemma_position_of(after, other);
    let at = position_of(groups, key);
    assert forall|i: int| 0 <= i < groups.len() && i != at implies #[trigger] after[i]
        == groups[i] by {}
    if at >= 0 {
        assert(after[at].key == key);
        lemma_position_of_is(after, key, at);
    } else {
        assert(after[groups.len() as int].key == key);
        lemma_position_of_is(after, key, groups.len() as int);
        assert(Seq::<Seq<char>>::empty() + more == more);
    }
    if other != key {
        let o = position_of(groups, other);
        if o >= 0 {
            lemma_position_of_is(after, other, o);
        } else {
            assert forall|i: int| 0 <= i < after.len() implies (#[trigger] after[i]).key
                != other by {
                if i < groups.len() && i != at {
                    assert(after[i] == groups[i]);
                }
            }
        }
    }
}

/// A path together with the key under which it is filed: `(key, path)`.
pub type Entry = (Seq<char>, Seq<char>);

/// The paths that `entries` files under `key`, in order.
pub open spec fn paths_keyed(entries: Seq<Entry>, key: Seq<char>) -> Seq<Seq<char>>
    decreases entries.len(),
{
    if entries.len() == 0 {
        Seq::empty()
    } else if entries.last().0 == key {
        paths_keyed(entries.drop_last(), key).push(entries.last().1)
    } else {
        paths_keyed(entries.drop_last(), key)
    }
}

/// The keys that occur in `entries`, each once, in the order in which they
/// first occur.
pub open spec fn keys_seen(entries: Seq<Entry>) -> Seq<Seq<char>>
    decreases entries.len(),
{
    if entries.len() == 0 {
        Seq::empty()
    } else if keys_seen(entries.drop_last()).contains(entries.last().0) {
        keys_seen(entries.drop_last())
    } else {
        keys_seen(entries.drop_last()).push(entries.last().0)
    }
}

/// The groups that `entries` fall into: one group for each key, in the order
/// in which the keys first occur, holding the paths of that key in order.
pub open spec fn grouped(entries: Seq<Entry>) -> Seq<GroupView> {
    Seq::new(
        keys_seen(entries).len(),
        |i: int|
            GroupView {
                key: keys_seen(entries)[i],
                members: paths_keyed(entries, keys_seen(entries)[i]),
            },
    )
}

/// `keys_seen` holds no key twice, holds the key of every entry, and holds a
/// key exactly if some path is filed under it.
pub proof fn lemma_keys_seen(entries: Seq<Entry>)
    ensures
        keys_seen(entries).no_duplicates(),
        forall|i: int|
            0 <= i < entries.len() ==> keys_seen(entries).contains((#[trigger] entries[i]).0),
        forall|k: Seq<char>|
            keys_seen(entries).contains(k) <==> #[trigger] paths_keyed(entries, k).len() > 0,
    decreases entries.len(),
{
    if entries.len() > 0 {
        let front = entries.drop_last();
        let last = entries.last();
        lemma_keys_seen(front);
        let ks = keys_seen(entries);
        let kf = keys_seen(front);
        assert forall|k: Seq<char>| ks.contains(k) <==> (kf.contains(k) || k == last.0) by {
            if kf.contains(k) {
                let j = choose|j: int| 0 <= j < kf.len() && kf[j] == k;
                assert(ks[j] == k);
            }
            if k == last.0 && !kf.contains(k) {
                assert(ks[kf.len() as int] == k);
            }
            if ks.contains(k) {
                let j = choose|j: int| 0 <= j < ks.len() && ks[j] == k;
                if j < kf.len() {
                    assert(kf[j] == k);
                }
            }
        }
        assert forall|i: int| 0 <= i < entries.len() implies ks.contains(
            (#[trigger] entries[i]).0,
        ) by {
            if i < front.len() {
                assert(front[i] == entries[i]);
            }
        }
        assert forall|k: Seq<char>| ks.contains(k) <==> #[trigger] paths_keyed(entries, k).len()
            > 0 by {
            assert(kf.contains(k) <==> paths_keyed(front, k).len() > 0);
        }
    }
}

/// Filing one more entry adds its path to the group of its key.
pub proof fn lemma_grouped_push(entries: Seq<Entry>, entry: Entry)
    ensures
        keys_distinct(grouped(entries)),
        grouped(entries.push(entry)) == with_member(grouped(entries), entry.0, entry.1),
{
    let more = entries.push(entry);
    assert(more.drop_last() == entries);
    assert(more.last() == entry);
    lemma_keys_seen(entries);
    let ks = keys_seen(entries);
    let g = grouped(entries);
    lemma_position_of(g, entry.0);
    let at = position_of(g, entry.0);
    let gm = grouped(more);
    let w = with_member(g, entry.0, entry.1);
    if at >= 0 {
        assert(ks[at] == entry.0);
        assert(ks.contains(entry.0));
        assert(keys_seen(more) == ks);
        assert forall|i: int| 0 <= i < gm.len() implies gm[i] == w[i] by {
            if i == at {
                assert(paths_keyed(more, ks[i]) =~= g[at].members + seq![entry.1]);
            } else {
                assert(ks[i] != ks[at]);
            }
        }
    } else {
        if ks.contains(entry.0) {
            let j = choose|j: int| 0 <= j < ks.len() && ks[j] == entry.0;
            assert(g[j].key == entry.0);
        }
        assert(paths_keyed(entries, entry.0).len() == 0);
        assert(paths_keyed(more, entry.0) =~= seq![entry.1]);
        assert(keys_seen(more) == ks.push(entry.0));
        assert forall|i: int| 0 <= i < gm.len() implies gm[i] == w[i] by {
            if i < ks.len() {
                assert(g[i].key == ks[i]);
            }
        }
    }
    assert(gm =~= w);
    assert forall|i: int, j: int| 0 <= i < j < g.len() implies (#[trigger] g[i]).key != (
    #[trigger] g[j]).key by {
        assert(ks[i] != ks[j]);
    }
}

/// Each group of `grouped` holds the paths of its key, and a key without a
/// group has no paths.
pub proof fn lemma_grouped_members(entries: Seq<Entry>, key: Seq<char>)
    ensures
        keys_distinct(grouped(entries)),
        members_in(grouped(entries), key) == paths_keyed(entries, key),
{
    lemma_keys_seen(entries);
    let ks = keys_seen(entries);
    let g = grouped(entries);
    lemma_position_of(g, key);
    let at = position_of(g, key);
    if at < 0 {
        if ks.contains(key) {
            let j = choose|j: int| 0 <= j < ks.len() && ks[j] == key;
            assert(g[j].key == key);
        }
        assert(paths_keyed(entries, key) =~= Seq::<Seq<char>>::empty());
    }
}

/// `a` with every group of `b` merged in: the paths that `b` files under a
/// key come after those that `a` files under it, and the keys that only `b`
/// has follow the keys of `a`, in the order they have in `b`.
pub open spec fn merged(a: Seq<GroupView>, b: Seq<GroupView>) -> Seq<GroupView>
    decreases b.len(),
{
    if b.len() == 0 {
        a
    } else {
        with_members(merged(a, b.drop_last()), b.last().key, b.last().members)
    }
}

/// Merging is a union by key: no key is lost or overwritten, and under every
/// key the merged map files the paths of both maps.
pub proof fn lemma_merged_is_union(a: Seq<GroupView>, b: Seq<GroupView>, key: Seq<char>)
    requires
        keys_distinct(a),
        keys_distinct(b),
    ensures
        keys_distinct(merged(a, b)),
        members_in(merged(a, b), key) == members_in(a, key) + members_in(b, key),
    decreases b.len(),
{
    if b.len() == 0 {
        assert(members_in(a, key) + Seq::<Seq<char>>::empty() == members_in(a, key));
    } else {
        let front = b.drop_last();
        let last = b.last();
        assert forall|i: int, j: int| 0 <= i < j < front.len() implies (#[trigger] front[i]).key
            != (#[trigger] front[j]).key by {
            assert(front[i] == b[i] && front[j] == b[j]);
        }
        lemma_merged_is_union(a, front, key);
        lemma_merged_is_union(a, front, last.key);
        lemma_with_members(merged(a, front), last.key, last.members, key);
        lemma_position_of(front, key);
        lemma_position_of(b, key);
        if key == last.key {
            assert forall|i: int| 0 <= i < front.len() implies (#[trigger] front[i]).key
                != key by {
                assert(front[i] == b[i]);
                assert(b[i].key != b[b.len() - 1].key);
            }
            assert(position_of(front, key) == -1);
            assert(members_in(front, key) == Seq::<Seq<char>>::empty());
            assert(members_in(a, key) + Seq::<Seq<char>>::empty() + last.members == members_in(
                a,
                key,
            ) + last.members);
        } else {
            let at = position_of(front, key);
            if at >= 0 {
                assert(front[at] == b[at]);
            }
        }
    }
}

/// The order in which two maps are merged does not matter to who is filed
/// under a key, only to the order in which they are listed.
pub proof fn lemma_merge_commutes(a: Seq<GroupView>, b: Seq<GroupView>, key: Seq<char>)
    requires
        keys_distinct(a),
        keys_distinct(b),
    ensures
        members_in(merged(a, b), key).to_multiset() == members_in(merged(b, a), key).to_multiset(),
{
    lemma_merged_is_union(a, b, key);
    lemma_merged_is_union(b, a, key);
    vstd::seq_lib::lemma_multiset_commutative(members_in(a, key), members_in(b, key));
    vstd::seq_lib::lemma_multiset_commutative(members_in(b, key), members_in(a, key));
    assert(members_in(a, key).to_multiset().add(members_in(b, key).to_multiset()) =~= members_in(
        b,
        key,
    ).to_multiset().add(members_in(a, key).to_multiset()));
}

/// Merging three maps gives the same paths under every key, in the same
/// order, however the merges are bracketed.
pub proof fn lemma_merge_associates(
    a: Seq<GroupView>,
    b: Seq<GroupView>,
    c: Seq<GroupView>,
    key: Seq<char>,
)
    requires
        keys_distinct(a),
        keys_distinct(b),
        keys_distinct(c),
    ensures
        members_in(merged(merged(a, b), c), key) == members_in(merged(a, merged(b, c)), key),
{
    lemma_merged_is_union(a, b, key);
    lemma_merged_is_union(merged(a, b), c, key);
    lemma_merged_is_union(b, c, key);
    lemma_merged_is_union(a, merged(b, c), key);
    assert((members_in(a, key) + members_in(b, key)) + members_in(c, key) =~= members_in(a, key)
        + (members_in(b, key) + members_in(c, key)));
}

/// The number under which a key is looked up.
pub open spec fn key_code(key: Seq<char>) -> u64
    decreases key.len(),
{
    if key.len() == 0 {
        0
    } else {
        ((key_code(key.drop_last()) * 31 + key.last() as u32) % 0x1_0000_0000_0000_0000) as u64
    }
}

/// The number under which `key` is looked up.
fn code_of(key: &str) -> (code: u64)
    ensures
        code == key_code(key@),
{
    let chars = to_chars(key);
    let mut code: u64 = 0;
    let mut i: usize = 0;
    proof {
        assert(chars@.take(0) =~= Seq::<char>::empty());
    }
    while i < chars.len()
        invariant
            i <= chars.len(),
            code == key_code(chars@.take(i as int)),
        decreases chars.len() - i,
    {
        proof {
            let next = chars@.take(i + 1);
            assert(next.drop_last() =~= chars@.take(i as int));
            assert(next.last() == chars@[i as int]);
        }
        let c: u32 = chars[i] as u32;
        code = ((code as u128 * 31 + c as u128) % 0x1_0000_0000_0000_0000) as u64;
        i += 1;
    }
    proof {
        assert(chars@.take(i as int) =~= chars@);
    }
    code
}

/// A map from keys to the paths filed under them.
pub struct GroupMap {
    groups: Vec<DuplicateGroup>,
    /// For each code, the indices of the groups whose key has that code.
    index: HashMap<u64, Vec<usize>>,
}

impl View for GroupMap {
    type V = Seq<GroupView>;

    closed spec fn view(&self) -> Seq<GroupView> {
        group_views(self.groups@)
    }
}

/// The index lists what the groups hold: every index that it lists under a
/// code is that of a group whose key has this code, and every group is listed
/// under the code of its key.
pub open spec fn index_matches(index: Map<u64, Vec<usize>>, groups: Seq<GroupView>) -> bool {
    &&& forall|code: u64, k: int|
        index.contains_key(code) && 0 <= k < index[code]@.len() ==> {
            &&& (#[trigger] index[code]@[k]) < groups.len()
            &&& key_code(groups[index[code]@[k] as int].key) == code
        }
    &&& forall|i: int|
        0 <= i < groups.len() ==> {
            &&& index.contains_key(key_code((#[trigger] groups[i]).key))
            &&& index[key_code(groups[i].key)]@.contains(i as usize)
        }
}

impl GroupMap {
    /// The lookup index is in step with the groups.
    pub closed spec fn indexed(&self) -> bool {
        index_matches(self.index@, self@)
    }

    /// The keys are distinct and can be looked up. Every map that this
    /// library hands out is well-formed.
    pub open spec fn wf(&self) -> bool {
        keys_distinct(self@) && self.indexed()
    }

    /// The paths filed under `key`, in the order in which they were added.
    pub open spec fn members(&self, key: Seq<char>) -> Seq<Seq<char>> {
        members_in(self@, key)
    }

    /// A map without groups.
    pub fn new() -> (r: GroupMap)
        ensures
            r@ == Seq::<GroupView>::empty(),
            r.wf(),
    {
        let r = GroupMap { groups: Vec::new(), index: HashMap::new() };
        assert(r@ == Seq::<GroupView>::empty());
        r
    }

    /// The number of groups.
    pub fn len(&self) -> (n: usize)
        ensures
            n == self@.len(),
    {
        self.groups.len()
    }

    /// Index of the group of `key`, if there is one.
    fn find(&self, key: &String) -> (r: Option<usize>)
        requires
            self.wf(),
        ensures
            match r {
                Some(at) => at as int == position_of(self@, key@),
                None => position_of(self@, key@) == -1,
            },
    {
        let code = code_of(key.as_str());
        proof {
            lemma_position_of(self@, key@);
        }
        match self.index.get(&code) {
            Some(list) => {
                assert(self.index@.contains_key(code) && self.index@[code] == *list);
                let mut k: usize = 0;
                while k < list.len()
                    invariant
                        k <= list.len(),
                        self.wf(),
                        code == key_code(key@),
                        self.index@.contains_key(code),
                        self.index@[code] == *list,
                        forall|j: int| 0 <= j < k ==> (#[trigger] self@[list@[j] as int]).key != key@,
                    decreases list.len() - k,
                {
                    let at = list[k];
                    assert(self.index@[code]@[k as int] < self@.len());
                    assert(self@[at as int] == self.groups@[at as int]@);
                    if self.groups[at].key == *key {
                        proof {
                            let p = position_of(self@, key@);
                            lemma_position_of(self@, key@);
                            if p != at {
                                assert(self@[p].key == self@[at as int].key);
                            }
                        }
                        return Some(at);
                    }
                    k += 1;
                }
                proof {
                    let p = position_of(self@, key@);
                    lemma_position_of(self@, key@);
                    if p >= 0 {
                        assert(p < self.groups.len());
                        assert(self@[p].key == key@);
                        assert(self.index@.contains_key(key_code(self@[p].key)));
                        assert(self.index@[code]@.contains(p as usize));
                        let j = choose|j: int| 0 <= j < list@.len() && list@[j] == p as usize;
                        assert(self@[list@[j] as int].key != key@);
                    }
                }
                None
            },
            None => {
                proof {
                    let p = position_of(self@, key@);
                    lemma_position_of(self@, key@);
                    if p >= 0 {
                        assert(self@[p].key == key@);
                        assert(self.index@.contains_key(key_code(self@[p].key)));
                    }
                }
                None
            },
        }
    }

    /// Adds `path` to the paths of the group at `at`.
    fn extend_group(&mut self, at: usize, more: &mut Vec<String>)
        requires
            old(self).wf(),
            at < old(self)@.len(),
        ensures
            final(self).wf(),
            final(self)@ == old(self)@.update(
                at as int,
                GroupView {
                    key: old(self)@[at as int].key,
                    members: old(self)@[at as int].members + texts(old(more)@),
                },
            ),
            final(more)@.len() == 0,
    {
        let ghost before = self@;
        let ghost added = texts(more@);
        self.groups[at].members.append(more);
        assert(self@ =~= before.update(
            at as int,
            GroupView { key: before[at as int].key, members: before[at as int].members + added },
        )) by {
            assert(self@[at as int].members =~= before[at as int].members + added);
        }
        assert(forall|i: int| 0 <= i < before.len() ==> (#[trigger] self@[i]).key == before[i].key);
    }

    /// Adds `group`, whose key no group has yet, behind the other groups.
    fn add_group(&mut self, group: DuplicateGroup)
        requires
            old(self).wf(),
            position_of(old(self)@, group@.key) == -1,
        ensures
            final(self).wf(),
            final(self)@ == old(self)@.push(group@),
    {
        let ghost before = self@;
        let ghost index_before = self.index@;
        let ghost added = group@;
        let code = code_of(group.key.as_str());
        let at = self.groups.len();
        let mut list: Vec<usize> = match self.index.remove(&code) {
            Some(list) => list,
            None => Vec::new(),
        };
        let ghost list_before = list@;
        list.push(at);
        self.index.insert(code, list);
        self.groups.push(group);
        proof {
            lemma_position_of(before, added.key);
            assert(self@ =~= before.push(added));
            assert forall|c: u64, k: int|
                self.index@.contains_key(c) && 0 <= k < self.index@[c]@.len() implies {
                &&& (#[trigger] self.index@[c]@[k]) < self@.len()
                &&& key_code(self@[self.index@[c]@[k] as int].key) == c
            } by {
                if c == code {
                    if k < list_before.len() {
                        assert(index_before.contains_key(code));
                        assert(index_before[code]@[k] == list_before[k]);
                        assert(index_before[code]@[k] < before.len());
                    }
                } else {
                    assert(index_before.contains_key(c));
                    assert(self.index@[c] == index_before[c]);
                    assert(index_before[c]@[k] < before.len());
                }
            }
            assert forall|i: int| 0 <= i < self@.len() implies {
                &&& self.index@.contains_key(key_code((#[trigger] self@[i]).key))
                &&& self.index@[key_code(self@[i].key)]@.contains(i as usize)
            } by {
                if i < before.len() {
                    assert(self@[i] == before[i]);
                    let c = key_code(before[i].key);
                    assert(index_before.contains_key(c));
                    assert(index_before[c]@.contains(i as usize));
                    if c == code {
                        let j = choose|j: int|
                            0 <= j < index_before[c]@.len() && index_before[c]@[j] == i as usize;
                        assert(self.index@[c]@[j] == i as usize);
                    }
                } else {
                    assert(self.index@[code]@[list_before.len() as int] == at);
                }
            }
            assert forall|i: int, j: int| 0 <= i < j < self@.len() implies (#[trigger] self@[i]).key
                != (#[trigger] self@[j]).key by {
                if j == before.len() {
                    assert(before[i].key != added.key);
                }
            }
        }
    }

    /// Files `path` under `key`.
    pub fn insert(&mut self, key: String, path: String)
        requires
            old(self).wf(),
        ensures
            final(self).wf(),
            final(self)@ == with_member(old(self)@, key@, path@),
    {
        proof {
            lemma_position_of(self@, key@);
        }
        let mut one: Vec<String> = Vec::new();
        one.push(path);
        assert(texts(one@) =~= seq![path@]);
        match self.find(&key) {
            Some(at) => {
                self.extend_group(at, &mut one);
            },
            None => {
                self.add_group(DuplicateGroup { key, members: one });
            },
        }
    }

    /// Merges `other` into this map, key by key: the paths of `other` are
    /// added to the paths that this map already files under the same key.
    pub fn merge(&mut self, other: GroupMap)
        requires
            old(self).wf(),
            other.wf(),
        ensures
            final(self).wf(),
            final(self)@ == merged(old(self)@, other@),
    {
        let ghost start = self@;
        let ghost incoming = other@;
        let mut rest = other.groups;
        let mut done: usize = 0;
        let total = rest.len();
        // Groups are taken from the back of `rest`, which holds what is left
        // of `other` in reverse order.
        reverse_groups(&mut rest);
        while rest.len() > 0
            invariant
                done + rest.len() == total,
                total == incoming.len(),
                self.wf(),
                self@ == merged(start, incoming.take(done as int)),
                forall|i: int|
                    0 <= i < rest.len() ==> (#[trigger] rest@[i])@ == incoming[total - 1 - i],
            decreases rest.len(),
        {
            let ghost seen = incoming.take(done as int);
            let ghost before = self@;
            let mut group = rest.pop().unwrap();
            proof {
                assert(group@ == incoming[done as int]);
                let next = incoming.take(done + 1);
                assert(next.drop_last() == seen);
                assert(next.last() == incoming[done as int]);
                lemma_position_of(before, group@.key);
            }
            match self.find(&group.key) {
                Some(at) => {
                    self.extend_group(at, &mut group.members);
                },
                None => {
                    self.add_group(group);
                },
            }
            done += 1;
        }
        proof {
            assert(incoming.take(done as int) == incoming);
        }
    }

    /// The groups, in the order in which their keys first came in.
    pub fn groups(&self) -> (r: &Vec<DuplicateGroup>)
        ensures
            group_views(r@) == self@,
    {
        &self.groups
    }

    /// The groups, in the order in which their keys first came in.
    pub fn into_groups(self) -> (r: Vec<DuplicateGroup>)
        ensures
            group_views(r@) == self@,
    {
        self.groups
    }
}

/// Reverses the order of `groups`.
pub(crate) fn reverse_groups(groups: &mut Vec<DuplicateGroup>)
    ensures
        final(groups)@.len() == old(groups)@.len(),
        forall|i: int|
            0 <= i < old(groups)@.len() ==> #[trigger] final(groups)@[i] == old(groups)@[old(
                groups,
            )@.len() - 1 - i],
{
    let mut out: Vec<DuplicateGroup> = Vec::new();
    let ghost before = groups@;
    while groups.len() > 0
        invariant
            out@.len() + groups@.len() == before.len(),
            groups@ == before.take(groups@.len() as int),
            forall|i: int| 0 <= i < out@.len() ==> #[trigger] out@[i] == before[before.len() - 1 - i],
        decreases groups.len(),
    {
        let g = groups.pop().unwrap();
        out.push(g);
    }
    groups.append(&mut out);
}

} // verus!
