//! The largest processes by memory, grouped by name.
//!
//! Groups are ranked by resident size (RSS), or by proportional size (PSS)
//! where it can be read. Reading PSS is expensive, so the ranking by PSS asks
//! for it group by group, in order of RSS, and stops as soon as no further
//! group can enter the list.

use crate::metrics::{sat_add, sat_mul, saturating_product};
use crate::names::{increasing, joined, OrderedNames};
use crate::number::{parse_u64, u64_written};
use crate::text::{find_first, first_after, lines, lines_of, same, strip_both, trim, words, words_of, Class};
use vstd::prelude::*;

verus! {

/// How many groups are listed.
pub const TOP_N: usize = 10;

/// One task of the system, as it was read.
pub struct ProcessEntry {
    pub pid: u32,
    /// The name that the kernel holds; may be empty.
    pub name: String,
    /// The owner's name; empty if unknown.
    pub username: String,
    /// Resident bytes.
    pub rss: u64,
    /// Whether the task is a thread of another process.
    pub thread: bool,
}

/// One process of a group.
#[derive(Clone, Copy)]
pub struct Member {
    pub pid: u32,
    pub rss: u64,
}

/// All processes of one name.
pub struct Group {
    pub name: String,
    /// Resident bytes of all members together.
    pub rss: u128,
    pub members: Vec<Member>,
    /// The owners of the members.
    pub usernames: OrderedNames,
}

/// The name under which a process is listed.
pub open spec fn label_of(name: Seq<char>) -> Seq<char> {
    if name.len() == 0 {
        "unknown"@
    } else {
        name
    }
}

/// Whether `e` is a process listed under `key`.
pub open spec fn counts(e: ProcessEntry, key: Seq<char>) -> bool {
    !e.thread && label_of(e.name@) == key
}

/// The processes among `all` that are listed under `key`, in order.
pub open spec fn members_named(all: Seq<ProcessEntry>, key: Seq<char>) -> Seq<Member>
    decreases all.len(),
{
    if all.len() == 0 {
        Seq::empty()
    } else {
        let before = members_named(all.drop_last(), key);
        if counts(all.last(), key) {
            before.push(Member { pid: all.last().pid, rss: all.last().rss })
        } else {
            before
        }
    }
}

/// The known owners of the processes listed under `key`.
pub open spec fn users_named(all: Seq<ProcessEntry>, key: Seq<char>) -> Set<Seq<char>>
    decreases all.len(),
{
    if all.len() == 0 {
        Set::empty()
    } else {
        let before = users_named(all.drop_last(), key);
        if counts(all.last(), key) && all.last().username@.len() > 0 {
            before.insert(all.last().username@)
        } else {
            before
        }
    }
}

/// The resident bytes of `members` together.
pub open spec fn total_rss(members: Seq<Member>) -> nat
    decreases members.len(),
{
    if members.len() == 0 {
        0
    } else {
        total_rss(members.drop_last()) + members.last().rss as nat
    }
}

proof fn lemma_total_rss_bound(members: Seq<Member>)
    ensures
        total_rss(members) <= members.len() * u64::MAX,
    decreases members.len(),
{
    if members.len() > 0 {
        lemma_total_rss_bound(members.drop_last());
        assert(members.len() * u64::MAX == (members.len() - 1) * u64::MAX + u64::MAX)
            by (nonlinear_arith);
    }
}

/// Whether `g` is the group of its name among `all`.
pub open spec fn group_matches(g: Group, all: Seq<ProcessEntry>) -> bool {
    &&& g.members@.len() > 0
    &&& g.members@ == members_named(all, g.name@)
    &&& g.rss == total_rss(g.members@)
    &&& increasing(g.usernames@)
    &&& g.usernames@.to_set() == users_named(all, g.name@)
}

/// Whether a group of that name is among `groups`.
pub open spec fn has_group(groups: Seq<Group>, key: Seq<char>) -> bool {
    exists|i: int| 0 <= i < groups.len() && (#[trigger] groups[i]).name@ == key
}

/// Whether no two groups share a name.
pub open spec fn distinct_groups(groups: Seq<Group>) -> bool {
    forall|i: int, j: int|
        0 <= i < groups.len() && 0 <= j < groups.len() && i != j ==> (#[trigger] groups[i]).name@
            != (#[trigger] groups[j]).name@
}

/// Whether `groups` are the groups of `all`: one for each name in use.
pub open spec fn grouped(groups: Seq<Group>, all: Seq<ProcessEntry>) -> bool {
    &&& distinct_groups(groups)
    &&& forall|i: int| 0 <= i < groups.len() ==> group_matches(#[trigger] groups[i], all)
    &&& forall|j: int|
        0 <= j < all.len() && !(#[trigger] all[j]).thread ==> has_group(
            groups,
            label_of(all[j].name@),
        )
}

/// The name under which a process is listed; `unknown` if it has none.
pub fn display_name(name: &str) -> (r: String)
    ensures
        r@ == label_of(name@),
        name@.len() > 0 ==> r@ == name@,
        name@.len() == 0 ==> r@ == "unknown"@,
{
    if name.is_empty() {
        "unknown".to_owned()
    } else {
        name.to_owned()
    }
}

fn find_group(groups: &Vec<Group>, key: &str) -> (r: Option<usize>)
    ensures
        match r {
            Some(i) => i < groups.len() && groups@[i as int].name@ == key@,
            None => !has_group(groups@, key@),
        },
{
    let mut i: usize = 0;
    while i < groups.len()
        invariant
            i <= groups.len(),
            forall|j: int| 0 <= j < i ==> (#[trigger] groups@[j]).name@ != key@,
        decreases groups.len() - i,
    {
        if same(groups[i].name.as_str(), key) {
            return Some(i);
        }
        i += 1;
    }
    None
}

impl Group {
    /// Adds a process to the group.
    fn take_in(&mut self, e: &ProcessEntry)
        requires
            old(self).rss == total_rss(old(self).members@),
            increasing(old(self).usernames@),
        ensures
            final(self).name == old(self).name,
            final(self).members@ == old(self).members@.push(Member { pid: e.pid, rss: e.rss }),
            final(self).rss == total_rss(final(self).members@),
            increasing(final(self).usernames@),
            final(self).usernames@.to_set() == if e.username@.len() > 0 {
                old(self).usernames@.to_set().insert(e.username@)
            } else {
                old(self).usernames@.to_set()
            },
    {
        let count: usize = self.members.len();
        proof {
            lemma_total_rss_bound(self.members@);
            assert(self.members@.len() == count);
            assert(self.members@.len() * u64::MAX + u64::MAX <= u128::MAX) by (nonlinear_arith)
                requires
                    self.members@.len() <= u64::MAX,
            ;
        }
        let ghost was = self.members@;
        self.rss = self.rss + e.rss as u128;
        self.members.push(Member { pid: e.pid, rss: e.rss });
        assert(self.members@.drop_last() =~= was);
        if !e.username.as_str().is_empty() {
            self.usernames.insert(e.username.clone());
        }
    }
}

/// Groups the processes among `all` by name; threads are left out.
pub fn group_by_name(all: &Vec<ProcessEntry>) -> (groups: Vec<Group>)
    ensures
        grouped(groups@, all@),
{
    let mut groups: Vec<Group> = Vec::new();
    let mut i: usize = 0;
    while i < all.len()
        invariant
            i <= all.len(),
            grouped(groups@, all@.take(i as int)),
        decreases all.len() - i,
    {
        let ghost seen = all@.take(i as int);
        let ghost more = all@.take(i as int + 1);
        let ghost was = groups@;
        let e = &all[i];
        assert(more.drop_last() =~= seen);
        assert(more.last() == *e);
        if e.thread {
            assert(grouped(groups@, more)) by {
                assert forall|k: int| 0 <= k < groups@.len() implies group_matches(
                    #[trigger] groups@[k],
                    more,
                ) by {
                    assert(group_matches(groups@[k], seen));
                }
                assert forall|j: int|
                    0 <= j < more.len() && !(#[trigger] more[j]).thread implies has_group(
                    groups@,
                    label_of(more[j].name@),
                ) by {
                    assert(seen[j] == more[j]);
                }
            }
        } else {
            let key = display_name(e.name.as_str());
            match find_group(&groups, key.as_str()) {
                Some(g) => {
                    assert(group_matches(was[g as int], seen));
                    groups[g].take_in(e);
                },
                None => {
                    let mut fresh = Group {
                        name: key.clone(),
                        rss: 0,
                        members: Vec::new(),
                        usernames: OrderedNames::new(),
                    };
                    proof {
                        lemma_unused_name(seen, key@, was);
                        assert(fresh.usernames@.to_set() =~= Set::<Seq<char>>::empty());
                    }
                    fresh.take_in(e);
                    assert(fresh.members@ =~= members_named(more, key@));
                    groups.push(fresh);
                },
            }
            proof {
                let now = groups@;
                let at = if has_group(was, key@) {
                    choose|k: int| 0 <= k < was.len() && (#[trigger] was[k]).name@ == key@
                } else {
                    was.len() as int
                };
                assert(now[at].name@ == key@);
                assert forall|k: int| 0 <= k < now.len() implies group_matches(
                    #[trigger] now[k],
                    more,
                ) by {
                    if k != at {
                        assert(now[k] == was[k]);
                        assert(group_matches(was[k], seen));
                        assert(was[k].name@ != key@);
                    }
                }
                assert(distinct_groups(now)) by {
                    assert forall|a: int, b: int|
                        0 <= a < now.len() && 0 <= b < now.len() && a != b implies (
                    #[trigger] now[a]).name@ != (#[trigger] now[b]).name@ by {
                        if a < was.len() {
                            assert(now[a].name@ == was[a].name@);
                        }
                        if b < was.len() {
                            assert(now[b].name@ == was[b].name@);
                        }
                    }
                }
                assert forall|j: int|
                    0 <= j < more.len() && !(#[trigger] more[j]).thread implies has_group(
                    now,
                    label_of(more[j].name@),
                ) by {
                    if j < seen.len() {
                        assert(seen[j] == more[j]);
                        let k = choose|k: int|
                            0 <= k < was.len() && (#[trigger] was[k]).name@ == label_of(
                                seen[j].name@,
                            );
                        assert(now[k].name@ == was[k].name@);
                    } else {
                        assert(now[at].name@ == label_of(more[j].name@));
                    }
                }
            }
        }
        i += 1;
    }
    assert(all@.take(all.len() as int) =~= all@);
    groups
}

/// A name without a group has no processes.
proof fn lemma_unused_name(all: Seq<ProcessEntry>, key: Seq<char>, groups: Seq<Group>)
    requires
        !has_group(groups, key),
        forall|j: int|
            0 <= j < all.len() && !(#[trigger] all[j]).thread ==> has_group(
                groups,
                label_of(all[j].name@),
            ),
    ensures
        members_named(all, key) == Seq::<Member>::empty(),
        users_named(all, key) == Set::<Seq<char>>::empty(),
    decreases all.len(),
{
    if all.len() > 0 {
        let init = all.drop_last();
        assert forall|j: int| 0 <= j < init.len() && !(#[trigger] init[j]).thread implies has_group(
            groups,
            label_of(init[j].name@),
        ) by {
            assert(init[j] == all[j]);
        }
        lemma_unused_name(init, key, groups);
        assert(all.last() == all[all.len() - 1]);
    }
}

/// Whether `groups` are in order of resident size, largest first.
pub open spec fn descending(groups: Seq<Group>) -> bool {
    forall|i: int, j: int|
        0 <= i <= j < groups.len() ==> (#[trigger] groups[i]).rss >= (#[trigger] groups[j]).rss
}

/// Orders groups by resident size, largest first.
fn sort_by_rss(groups: Vec<Group>) -> (sorted: Vec<Group>)
    ensures
        sorted@.to_multiset() == groups@.to_multiset(),
        descending(sorted@),
{
    broadcast use vstd::seq_lib::group_to_multiset_ensures;

    let ghost all = groups@.to_multiset();
    let mut rest = groups;
    let mut sorted: Vec<Group> = Vec::new();
    assert(sorted@.to_multiset().add(rest@.to_multiset()) =~= all) by {
        assert(sorted@.to_multiset() =~= vstd::multiset::Multiset::empty()) by {
            assert(sorted@.to_multiset().len() == 0);
        }
    }
    while rest.len() > 0
        invariant
            sorted@.to_multiset().add(rest@.to_multiset()) == all,
            descending(sorted@),
        decreases rest.len(),
    {
        let ghost was_rest = rest@;
        let ghost was = sorted@;
        let g = rest.remove(0);
        assert(rest@ =~= was_rest.remove(0));
        let mut at: usize = sorted.len();
        while at > 0 && sorted[at - 1].rss < g.rss
            invariant
                at <= sorted.len(),
                forall|j: int| at <= j < sorted.len() ==> (#[trigger] sorted@[j]).rss < g.rss,
            decreases at,
        {
            at -= 1;
        }
        let ghost one = g;
        sorted.insert(at, g);
        let ghost now = sorted@;
        assert(now =~= was.insert(at as int, one));
        assert(descending(now)) by {
            assert forall|i: int, j: int| 0 <= i <= j < now.len() implies (#[trigger] now[i]).rss
                >= (#[trigger] now[j]).rss by {
                let x = if i < at {
                    i
                } else {
                    i - 1
                };
                let y = if j < at {
                    j
                } else {
                    j - 1
                };
                if i != at {
                    assert(now[i] == was[x]);
                }
                if j != at {
                    assert(now[j] == was[y]);
                }
                if j == at && i < at {
                    assert(was[i].rss >= was[at - 1].rss);
                }
            }
        }
        proof {
            assert(was_rest[0] == one);
            assert(was_rest.contains(one));
            vstd::seq_lib::to_multiset_contains(was_rest, one);
            vstd::seq_lib::to_multiset_remove(was_rest, 0);
            vstd::seq_lib::to_multiset_insert(was, at as int, one);
        }
        assert(sorted@.to_multiset().add(rest@.to_multiset()) =~= all);
    }
    assert(rest@.to_multiset() =~= vstd::multiset::Multiset::empty()) by {
        assert(rest@.to_multiset().len() == 0);
    }
    assert(sorted@.to_multiset() =~= all);
    sorted
}

/// Reordering the groups leaves them the groups of `all`.
proof fn lemma_grouped_reordered(a: Seq<Group>, b: Seq<Group>, all: Seq<ProcessEntry>)
    requires
        grouped(a, all),
        a.to_multiset() == b.to_multiset(),
    ensures
        grouped(b, all),
{
    broadcast use vstd::seq_lib::group_to_multiset_ensures;

    assert forall|i: int| 0 <= i < b.len() implies a.contains(#[trigger] b[i]) by {
        assert(b.contains(b[i]));
        assert(b.to_multiset().count(b[i]) > 0);
    }
    assert forall|i: int| 0 <= i < b.len() implies group_matches(#[trigger] b[i], all) by {
        let k = choose|k: int| 0 <= k < a.len() && a[k] == b[i];
        assert(group_matches(a[k], all));
    }
    assert(a.no_duplicates()) by {
        assert forall|i: int, j: int|
            0 <= i < a.len() && 0 <= j < a.len() && i != j implies a[i] != a[j] by {
            assert(a[i].name@ != a[j].name@);
        }
    }
    a.lemma_multiset_has_no_duplicates();
    assert(b.no_duplicates()) by {
        b.lemma_multiset_has_no_duplicates_conv();
    }
    assert(distinct_groups(b)) by {
        assert forall|i: int, j: int|
            0 <= i < b.len() && 0 <= j < b.len() && i != j implies (#[trigger] b[i]).name@ != (
        #[trigger] b[j]).name@ by {
            let k = choose|k: int| 0 <= k < a.len() && a[k] == b[i];
            let l = choose|l: int| 0 <= l < a.len() && a[l] == b[j];
            assert(k != l);
            assert(a[k].name@ != a[l].name@);
        }
    }
    assert forall|j: int| 0 <= j < all.len() && !(#[trigger] all[j]).thread implies has_group(
        b,
        label_of(all[j].name@),
    ) by {
        let k = choose|k: int|
            0 <= k < a.len() && (#[trigger] a[k]).name@ == label_of(all[j].name@);
        assert(a.contains(a[k]));
        assert(a.to_multiset().count(a[k]) > 0);
        assert(b.contains(a[k]));
        let i = choose|i: int| 0 <= i < b.len() && b[i] == a[k];
        assert(b[i].name@ == label_of(all[j].name@));
    }
}

/// A listed group: its position among the groups, and its weight in bytes.
#[derive(Clone, Copy)]
pub struct Slot {
    pub entry: usize,
    pub mem: u128,
}

/// Whether group `i` is listed.
pub open spec fn listed(top: Seq<Slot>, i: int) -> bool {
    exists|k: int| 0 <= k < top.len() && (#[trigger] top[k]).entry == i
}

/// Whether `top` lists the `TOP_N` heaviest of groups with these weights,
/// heaviest first, or all of them if there are fewer.
pub open spec fn is_top(top: Seq<Slot>, weight: Seq<nat>) -> bool {
    &&& top.len() == if weight.len() < TOP_N {
        weight.len()
    } else {
        TOP_N as nat
    }
    &&& forall|k: int|
        0 <= k < top.len() ==> (#[trigger] top[k]).entry < weight.len() && top[k].mem
            == weight[top[k].entry as int]
    &&& forall|k: int, l: int|
        0 <= k < l < top.len() ==> (#[trigger] top[k]).entry != (#[trigger] top[l]).entry
            && top[k].mem >= top[l].mem
    &&& forall|i: int, l: int|
        0 <= i < weight.len() && 0 <= l < top.len() && !listed(top, i) ==> #[trigger] weight[i] <= (
        #[trigger] top[l]).mem
}

/// The weight of a group by its readings of proportional size in KiB, one per
/// member; a member without a reading counts with its resident size.
pub open spec fn group_pss(members: Seq<Member>, readings: Seq<Option<u64>>) -> nat
    decreases members.len(),
{
    if members.len() == 0 {
        0
    } else {
        let bytes = match readings[members.len() - 1] {
            Some(kb) => sat_mul(kb as nat, 1024),
            None => members.last().rss as nat,
        };
        sat_add(group_pss(members.drop_last(), readings), bytes)
    }
}

/// Adds up the proportional size of a group in bytes.
pub fn group_pss_bytes(members: &Vec<Member>, readings: &Vec<Option<u64>>) -> (r: u64)
    requires
        members.len() == readings.len(),
    ensures
        r == group_pss(members@, readings@),
{
    let mut sum: u64 = 0;
    let mut i: usize = 0;
    while i < members.len()
        invariant
            i <= members.len(),
            members.len() == readings.len(),
            sum == group_pss(members@.take(i as int), readings@),
        decreases members.len() - i,
    {
        assert(members@.take(i as int + 1).drop_last() =~= members@.take(i as int));
        let bytes: u64 = match readings[i] {
            Some(kb) => saturating_product(kb, 1024),
            None => members[i].rss,
        };
        sum = sum.saturating_add(bytes);
        i += 1;
    }
    assert(members@.take(members.len() as int) =~= members@);
    sum
}

/// The ranking of groups, which may still need proportional sizes.
pub struct TopScan {
    entries: Vec<Group>,
    next: usize,
    top: Vec<Slot>,
    weights: Ghost<Seq<nat>>,
}

impl TopScan {
    /// The groups, largest resident size first.
    pub closed spec fn groups(&self) -> Seq<Group> {
        self.entries@
    }

    /// How many groups have been weighed.
    pub closed spec fn weighed(&self) -> nat {
        self.next as nat
    }

    /// The weights of the groups weighed so far.
    pub closed spec fn weights(&self) -> Seq<nat> {
        self.weights@
    }

    /// The list so far.
    pub closed spec fn top(&self) -> Seq<Slot> {
        self.top@
    }

    /// The list is the top of the groups weighed so far.
    pub open spec fn wf(&self) -> bool {
        &&& descending(self.groups())
        &&& self.weighed() <= self.groups().len()
        &&& self.weights().len() == self.weighed()
        &&& is_top(self.top(), self.weights())
    }

    /// Whether the next group has to be weighed: there is one, and the list is
    /// not full or the group is larger than the last in the list.
    pub open spec fn wants_next(&self) -> bool {
        &&& self.weighed() < self.groups().len()
        &&& (self.top().len() < TOP_N || self.groups()[self.weighed() as int].rss
            > self.top()[TOP_N - 1].mem)
    }

    /// The members of the group to weigh next, if one is needed.
    pub fn next_group(&self) -> (r: Option<&Vec<Member>>)
        requires
            self.wf(),
        ensures
            match r {
                Some(members) => self.wants_next() && *members
                    == self.groups()[self.weighed() as int].members,
                None => !self.wants_next(),
            },
    {
        if self.next >= self.entries.len() {
            return None;
        }
        if self.top.len() == TOP_N && self.entries[self.next].rss <= self.top[TOP_N - 1].mem {
            return None;
        }
        Some(&self.entries[self.next].members)
    }

    /// Weighs the next group by its readings and ranks it.
    pub fn weigh(&mut self, readings: &Vec<Option<u64>>)
        requires
            old(self).wf(),
            old(self).wants_next(),
            readings.len() == old(self).groups()[old(self).weighed() as int].members.len(),
        ensures
            final(self).wf(),
            final(self).groups() == old(self).groups(),
            final(self).weighed() == old(self).weighed() + 1,
            final(self).weights() == old(self).weights().push(
                group_pss(old(self).groups()[old(self).weighed() as int].members@, readings@),
            ),
    {
        let count: usize = self.entries.len();
        assert(self.next < count);
        let pss: u64 = group_pss_bytes(&self.entries[self.next].members, readings);
        let slot = Slot { entry: self.next, mem: pss as u128 };
        let ghost was = self.top@;
        let ghost weights = self.weights@;
        let mut at: usize = self.top.len();
        while at > 0 && self.top[at - 1].mem < slot.mem
            invariant
                at <= self.top.len(),
                self.top@ == was,
                forall|j: int| at <= j < was.len() ==> (#[trigger] was[j]).mem < slot.mem,
            decreases at,
        {
            at -= 1;
        }
        self.top.insert(at, slot);
        let ghost longer = self.top@;
        assert(longer =~= was.insert(at as int, slot));
        if self.top.len() > TOP_N {
            let _lightest = self.top.pop();
        }
        proof {
            lemma_top_grows(was, weights, at as int, slot, self.top@);
        }
        self.next = self.next + 1;
        self.weights = Ghost(weights.push(pss as nat));
    }
}

/// Ranking one more group keeps the list the top of the groups weighed.
proof fn lemma_top_grows(was: Seq<Slot>, weight: Seq<nat>, at: int, slot: Slot, now: Seq<Slot>)
    requires
        is_top(was, weight),
        slot.entry == weight.len(),
        0 <= at <= was.len(),
        at > 0 ==> was[at - 1].mem >= slot.mem,
        forall|j: int| at <= j < was.len() ==> (#[trigger] was[j]).mem < slot.mem,
        now == if was.len() + 1 > TOP_N {
            was.insert(at, slot).drop_last()
        } else {
            was.insert(at, slot)
        },
    ensures
        is_top(now, weight.push(slot.mem as nat)),
{
    let longer = was.insert(at, slot);
    let more = weight.push(slot.mem as nat);
    assert forall|k: int| 0 <= k < longer.len() implies (#[trigger] longer[k]).entry < more.len()
        && longer[k].mem == more[longer[k].entry as int] by {
        if k < at {
            assert(longer[k] == was[k]);
        } else if k > at {
            assert(longer[k] == was[k - 1]);
        }
    }
    assert forall|k: int, l: int| 0 <= k < l < longer.len() implies (#[trigger] longer[k]).entry
        != (#[trigger] longer[l]).entry && longer[k].mem >= longer[l].mem by {
        let x = if k < at {
            k
        } else {
            k - 1
        };
        let y = if l < at {
            l
        } else {
            l - 1
        };
        if k != at {
            assert(longer[k] == was[x]);
        }
        if l != at {
            assert(longer[l] == was[y]);
        }
        if l == at && k < at - 1 {
            assert(was[k].mem >= was[at - 1].mem);
        }
    }
    assert forall|i: int, l: int|
        0 <= i < more.len() && 0 <= l < now.len() && !listed(now, i) implies #[trigger] more[i] <= (
    #[trigger] now[l]).mem by {
        assert(now[l] == longer[l]);
        if listed(longer, i) {
            let k = choose|k: int| 0 <= k < longer.len() && (#[trigger] longer[k]).entry == i;
            if k < now.len() {
                assert(now[k].entry == i);
            }
            assert(longer[l].mem >= longer[k].mem);
        } else {
            assert(longer[at].entry == weight.len());
            assert(i < weight.len());
            assert(!listed(was, i)) by {
                if listed(was, i) {
                    let k = choose|k: int| 0 <= k < was.len() && (#[trigger] was[k]).entry == i;
                    if k < at {
                        assert(longer[k].entry == i);
                    } else {
                        assert(longer[k + 1].entry == i);
                    }
                }
            }
            assert(was.len() == TOP_N) by {
                if was.len() < TOP_N {
                    lemma_short_list_has_all(was, weight, i);
                }
            }
            assert(weight[i] <= was[TOP_N - 1].mem);
            if l < at {
                assert(longer[l] == was[l]);
            } else if l > at {
                assert(longer[l] == was[l - 1]);
            } else {
                assert(at < TOP_N);
                assert(was[TOP_N - 1].mem < slot.mem);
            }
        }
    }
}

/// A list of no more than `TOP_N` groups holds every group.
pub proof fn lemma_short_list_has_all(top: Seq<Slot>, weight: Seq<nat>, i: int)
    requires
        is_top(top, weight),
        weight.len() <= TOP_N,
        0 <= i < weight.len(),
    ensures
        listed(top, i),
{
    let entries = Seq::new(top.len(), |k: int| top[k].entry as int);
    assert(entries.no_duplicates()) by {
        assert forall|k: int, l: int|
            0 <= k < entries.len() && 0 <= l < entries.len() && k != l implies entries[k]
            != entries[l] by {
            if k < l {
                assert(top[k].entry != top[l].entry);
            } else {
                assert(top[l].entry != top[k].entry);
            }
        }
    }
    entries.unique_seq_to_set();
    let all = vstd::set_lib::set_int_range(0, weight.len() as int);
    vstd::set_lib::lemma_int_range(0, weight.len() as int);
    assert(entries.to_set().subset_of(all)) by {
        assert forall|e: int| entries.to_set().contains(e) implies all.contains(e) by {
            let k = choose|k: int| 0 <= k < entries.len() && entries[k] == e;
            assert(top[k].entry < weight.len());
        }
    }
    vstd::set_lib::lemma_subset_equality(entries.to_set(), all);
    assert(all.contains(i));
    let k = choose|k: int| 0 <= k < entries.len() && entries[k] == i;
    assert(top[k].entry == i);
}

/// One row of the list.
pub struct TopProcess {
    /// The first process of the group.
    pub pid: u32,
    pub name: String,
    /// The owners of the group, in order, separated by commas.
    pub username: String,
    /// The weight of the group in bytes.
    pub mem_bytes: u128,
}

/// Whether `row` presents group `g` with weight `mem`.
pub open spec fn presents(row: TopProcess, g: Group, mem: u128) -> bool {
    &&& row.pid == if g.members@.len() > 0 {
        g.members@[0].pid
    } else {
        0
    }
    &&& row.name@ == g.name@
    &&& row.username@ == joined(g.usernames@, ", "@)
    &&& row.mem_bytes == mem
}

/// The resident sizes of `groups`.
pub open spec fn sizes(groups: Seq<Group>) -> Seq<nat> {
    Seq::new(groups.len(), |i: int| groups[i].rss as nat)
}

/// Starts the ranking of the processes among `all`. Without `pss` it is
/// complete at once, by resident size; with `pss` no group is weighed yet.
pub fn collect_top(all: &Vec<ProcessEntry>, pss: bool) -> (r: TopScan)
    ensures
        r.wf(),
        grouped(r.groups(), all@),
        pss ==> r.weighed() == 0,
        !pss ==> r.weighed() == r.groups().len() && r.weights() == sizes(r.groups()),
{
    let groups = group_by_name(all);
    let ghost unsorted = groups@;
    let entries = sort_by_rss(groups);
    proof {
        lemma_grouped_reordered(unsorted, entries@, all@);
    }
    if pss {
        return TopScan {
            entries,
            next: 0,
            top: Vec::new(),
            weights: Ghost(Seq::empty()),
        };
    }
    let count: usize = if entries.len() < TOP_N {
        entries.len()
    } else {
        TOP_N
    };
    let mut top: Vec<Slot> = Vec::new();
    let mut i: usize = 0;
    while i < count
        invariant
            i <= count <= entries.len(),
            top.len() == i,
            forall|k: int|
                0 <= k < i ==> (#[trigger] top@[k]).entry == k && top@[k].mem == entries@[k].rss,
        decreases count - i,
    {
        top.push(Slot { entry: i, mem: entries[i].rss });
        i += 1;
    }
    let ghost weight = sizes(entries@);
    proof {
        assert forall|i: int, l: int|
            0 <= i < weight.len() && 0 <= l < top@.len() && !listed(
                top@,
                i,
            ) implies #[trigger] weight[i] <= (#[trigger] top@[l]).mem by {
            if i < count {
                assert(top@[i].entry == i);
            }
            assert(entries@[l].rss >= entries@[i].rss);
        }
        assert forall|k: int, l: int| 0 <= k < l < top@.len() implies (#[trigger] top@[k]).entry
            != (#[trigger] top@[l]).entry && top@[k].mem >= top@[l].mem by {
            assert(entries@[k].rss >= entries@[l].rss);
        }
    }
    let next: usize = entries.len();
    TopScan { entries, next, top, weights: Ghost(weight) }
}

impl TopScan {
    /// The rows of the finished list, heaviest first.
    pub fn finish(&self) -> (rows: Vec<TopProcess>)
        requires
            self.wf(),
            !self.wants_next(),
        ensures
            rows.len() == self.top().len(),
            forall|k: int|
                0 <= k < rows.len() ==> presents(
                    #[trigger] rows@[k],
                    self.groups()[self.top()[k].entry as int],
                    self.top()[k].mem,
                ),
    {
        let mut rows: Vec<TopProcess> = Vec::new();
        let mut i: usize = 0;
        while i < self.top.len()
            invariant
                i <= self.top.len(),
                self.wf(),
                rows.len() == i,
                forall|k: int|
                    0 <= k < i ==> presents(
                        #[trigger] rows@[k],
                        self.groups()[self.top()[k].entry as int],
                        self.top()[k].mem,
                    ),
            decreases self.top.len() - i,
        {
            assert(self.top()[i as int].entry < self.weights().len());
            let g = &self.entries[self.top[i].entry];
            let pid: u32 = if g.members.len() > 0 {
                g.members[0].pid
            } else {
                0
            };
            rows.push(
                TopProcess {
                    pid,
                    name: g.name.clone(),
                    username: g.usernames.join(", "),
                    mem_bytes: self.top[i].mem,
                },
            );
            i += 1;
        }
        rows
    }
}

/// The list is exact: once no group wants weighing, it is the top of all
/// groups by their true weights, although the later ones were never weighed,
/// provided that no group weighs more than its resident size.
pub proof fn law_top_is_exact(scan: TopScan, truth: Seq<nat>)
    requires
        scan.wf(),
        !scan.wants_next(),
        truth.len() == scan.groups().len(),
        scan.weights() == truth.take(scan.weighed() as int),
        forall|i: int|
            0 <= i < truth.len() ==> #[trigger] truth[i] <= scan.groups()[i].rss,
    ensures
        is_top(scan.top(), truth),
{
    let top = scan.top();
    let seen = scan.weights();
    assert forall|k: int| 0 <= k < top.len() implies (#[trigger] top[k]).entry < truth.len()
        && top[k].mem == truth[top[k].entry as int] by {
        assert(seen[top[k].entry as int] == truth[top[k].entry as int]);
    }
    assert forall|i: int, l: int|
        0 <= i < truth.len() && 0 <= l < top.len() && !listed(top, i) implies #[trigger] truth[i]
        <= (#[trigger] top[l]).mem by {
        if i < seen.len() {
            assert(seen[i] == truth[i]);
        } else {
            let n = scan.weighed() as int;
            assert(scan.groups()[n].rss >= scan.groups()[i].rss);
            assert(top[l].mem >= top[TOP_N - 1].mem);
        }
    }
}

/// A group never weighs more than its resident size, if no reading of a
/// member exceeds that member's resident size.
pub proof fn law_group_pss_bounded(members: Seq<Member>, readings: Seq<Option<u64>>)
    requires
        members.len() == readings.len(),
        forall|i: int|
            0 <= i < members.len() && (#[trigger] readings[i]) is Some ==> readings[i]->0 * 1024
                <= members[i].rss,
    ensures
        group_pss(members, readings) <= total_rss(members),
{
    lemma_group_pss_prefix(members, readings, members.len() as int);
    assert(members.take(members.len() as int) =~= members);
}

proof fn lemma_group_pss_prefix(members: Seq<Member>, readings: Seq<Option<u64>>, n: int)
    requires
        members.len() == readings.len(),
        0 <= n <= members.len(),
        forall|i: int|
            0 <= i < members.len() && (#[trigger] readings[i]) is Some ==> readings[i]->0 * 1024
                <= members[i].rss,
    ensures
        group_pss(members.take(n), readings) <= total_rss(members.take(n)),
    decreases n,
{
    if n > 0 {
        lemma_group_pss_prefix(members, readings, n - 1);
        assert(members.take(n).drop_last() =~= members.take(n - 1));
        assert(members.take(n).last() == members[n - 1]);
        let r = readings[n - 1];
        if r is Some {
            assert(r->0 * 1024 <= members[n - 1].rss);
        }
    }
}

/// The sum of `sizes`.
pub open spec fn sum(sizes: Seq<nat>) -> nat
    decreases sizes.len(),
{
    if sizes.len() == 0 {
        0
    } else {
        sum(sizes.drop_last()) + sizes.last()
    }
}

/// The resident bytes of all processes among `all`, threads left out.
pub open spec fn process_rss(all: Seq<ProcessEntry>) -> nat
    decreases all.len(),
{
    if all.len() == 0 {
        0
    } else {
        process_rss(all.drop_last()) + if all.last().thread {
            0
        } else {
            all.last().rss as nat
        }
    }
}

/// Every process counts once: the groups together hold the resident bytes of
/// all processes.
pub proof fn law_every_process_counts_once(groups: Seq<Group>, all: Seq<ProcessEntry>)
    requires
        grouped(groups, all),
    ensures
        sum(sizes(groups)) == process_rss(all),
{
    let names = Seq::new(groups.len(), |i: int| groups[i].name@);
    assert(names.no_duplicates()) by {
        assert forall|i: int, j: int|
            0 <= i < names.len() && 0 <= j < names.len() && i != j implies names[i] != names[j] by {
            assert(groups[i].name@ != groups[j].name@);
        }
    }
    assert forall|j: int| 0 <= j < all.len() && !(#[trigger] all[j]).thread implies names.contains(
        label_of(all[j].name@),
    ) by {
        let k = choose|k: int|
            0 <= k < groups.len() && (#[trigger] groups[k]).name@ == label_of(all[j].name@);
        assert(names[k] == label_of(all[j].name@));
    }
    lemma_named_sizes(names, all);
    assert(sizes(groups) =~= named_sizes(names, all)) by {
        assert forall|i: int| 0 <= i < groups.len() implies sizes(groups)[i] == named_sizes(
            names,
            all,
        )[i] by {
            assert(group_matches(groups[i], all));
        }
    }
}

spec fn named_sizes(names: Seq<Seq<char>>, all: Seq<ProcessEntry>) -> Seq<nat> {
    Seq::new(names.len(), |i: int| total_rss(members_named(all, names[i])))
}

proof fn lemma_named_sizes(names: Seq<Seq<char>>, all: Seq<ProcessEntry>)
    requires
        names.no_duplicates(),
        forall|j: int|
            0 <= j < all.len() && !(#[trigger] all[j]).thread ==> names.contains(
                label_of(all[j].name@),
            ),
    ensures
        sum(named_sizes(names, all)) == process_rss(all),
    decreases all.len(),
{
    if all.len() == 0 {
        lemma_sum_zero(named_sizes(names, all));
    } else {
        let init = all.drop_last();
        let e = all.last();
        assert forall|j: int|
            0 <= j < init.len() && !(#[trigger] init[j]).thread implies names.contains(
            label_of(init[j].name@),
        ) by {
            assert(init[j] == all[j]);
        }
        lemma_named_sizes(names, init);
        let a = named_sizes(names, init);
        let b = named_sizes(names, all);
        if e.thread {
            assert(a =~= b);
        } else {
            assert(all[all.len() - 1] == e);
            let k = choose|k: int| 0 <= k < names.len() && names[k] == label_of(e.name@);
            assert forall|i: int| 0 <= i < names.len() implies b[i] == if i == k {
                a[i] + e.rss as nat
            } else {
                a[i]
            } by {
                let m = members_named(init, names[i]);
                if i == k {
                    assert(m.push(Member { pid: e.pid, rss: e.rss }).drop_last() =~= m);
                } else {
                    assert(names[i] != names[k]);
                }
            }
            assert(b =~= a.update(k, a[k] + e.rss as nat));
            lemma_sum_update(a, k, a[k] + e.rss as nat);
        }
    }
}

proof fn lemma_sum_zero(s: Seq<nat>)
    requires
        forall|i: int| 0 <= i < s.len() ==> #[trigger] s[i] == 0,
    ensures
        sum(s) == 0,
    decreases s.len(),
{
    if s.len() > 0 {
        lemma_sum_zero(s.drop_last());
    }
}

proof fn lemma_sum_update(s: Seq<nat>, k: int, v: nat)
    requires
        0 <= k < s.len(),
    ensures
        sum(s.update(k, v)) == sum(s) - s[k] + v,
    decreases s.len(),
{
    let t = s.update(k, v);
    if k == s.len() - 1 {
        assert(t.drop_last() =~= s.drop_last());
    } else {
        lemma_sum_update(s.drop_last(), k, v);
        assert(t.drop_last() =~= s.drop_last().update(k, v));
    }
}

/// A process is listed under exactly its own name, and under `unknown` if it
/// has none: its group bears that name and has it as a member.
pub proof fn law_processes_keep_their_names(
    groups: Seq<Group>,
    all: Seq<ProcessEntry>,
    j: int,
) -> (i: int)
    requires
        grouped(groups, all),
        0 <= j < all.len(),
        !all[j].thread,
    ensures
        0 <= i < groups.len(),
        all[j].name@.len() > 0 ==> groups[i].name@ == all[j].name@,
        all[j].name@.len() == 0 ==> groups[i].name@ == "unknown"@,
        groups[i].members@.contains(Member { pid: all[j].pid, rss: all[j].rss }),
{
    let key = label_of(all[j].name@);
    assert(has_group(groups, key));
    let i = choose|i: int| 0 <= i < groups.len() && (#[trigger] groups[i]).name@ == key;
    assert(group_matches(groups[i], all));
    lemma_is_member(all, j);
    i
}

proof fn lemma_is_member(all: Seq<ProcessEntry>, j: int)
    requires
        0 <= j < all.len(),
        !all[j].thread,
    ensures
        members_named(all, label_of(all[j].name@)).contains(
            Member { pid: all[j].pid, rss: all[j].rss },
        ),
    decreases all.len(),
{
    let key = label_of(all[j].name@);
    let m = Member { pid: all[j].pid, rss: all[j].rss };
    let before = members_named(all.drop_last(), key);
    if j < all.len() - 1 {
        lemma_is_member(all.drop_last(), j);
        let k = choose|k: int| 0 <= k < before.len() && before[k] == m;
        assert(members_named(all, key)[k] == m);
    } else {
        assert(members_named(all, key)[before.len() as int] == m);
    }
}

/// A member of a group is a process that bears the name of the group, or none
/// where that is `unknown`.
pub proof fn law_members_bear_the_name(
    groups: Seq<Group>,
    all: Seq<ProcessEntry>,
    i: int,
    k: int,
) -> (j: int)
    requires
        grouped(groups, all),
        0 <= i < groups.len(),
        0 <= k < groups[i].members@.len(),
    ensures
        0 <= j < all.len(),
        !all[j].thread,
        groups[i].members@[k].pid == all[j].pid,
        groups[i].members@[k].rss == all[j].rss,
        groups[i].name@ == all[j].name@ || (all[j].name@.len() == 0 && groups[i].name@
            == "unknown"@),
{
    assert(group_matches(groups[i], all));
    lemma_member_source(all, groups[i].name@, k)
}

proof fn lemma_member_source(all: Seq<ProcessEntry>, key: Seq<char>, k: int) -> (j: int)
    requires
        0 <= k < members_named(all, key).len(),
    ensures
        0 <= j < all.len(),
        counts(all[j], key),
        members_named(all, key)[k] == (Member { pid: all[j].pid, rss: all[j].rss }),
    decreases all.len(),
{
    if k < members_named(all.drop_last(), key).len() {
        lemma_member_source(all.drop_last(), key, k)
    } else {
        all.len() - 1
    }
}

/// Two processes are listed under one name if and only if their names are
/// equal, no name standing for `unknown`: the groups `i` and `l` that hold them
/// are one group exactly then.
pub proof fn law_one_group_per_name(
    groups: Seq<Group>,
    all: Seq<ProcessEntry>,
    a: int,
    b: int,
) -> (r: (int, int))
    requires
        grouped(groups, all),
        0 <= a < all.len(),
        0 <= b < all.len(),
        !all[a].thread,
        !all[b].thread,
    ensures
        0 <= r.0 < groups.len(),
        0 <= r.1 < groups.len(),
        groups[r.0].members@.contains(Member { pid: all[a].pid, rss: all[a].rss }),
        groups[r.1].members@.contains(Member { pid: all[b].pid, rss: all[b].rss }),
        all[a].name@.len() > 0 && all[b].name@.len() > 0 ==> (r.0 == r.1 <==> all[a].name@
            == all[b].name@),
        all[a].name@.len() == 0 && all[b].name@.len() > 0 ==> (r.0 == r.1 <==> all[b].name@
            == "unknown"@),
        all[a].name@.len() == 0 && all[b].name@.len() == 0 ==> r.0 == r.1,
{
    let i = law_processes_keep_their_names(groups, all, a);
    let l = law_processes_keep_their_names(groups, all, b);
    if i != l {
        assert(groups[i].name@ != groups[l].name@);
    }
    (i, l)
}

/// The resident size of a group is that of its members together, and the
/// members of groups of different names are apart: a process that is added
/// raises the size of the group of its name by its own, and of no other.
pub proof fn law_a_process_raises_its_group(
    all: Seq<ProcessEntry>,
    e: ProcessEntry,
    key: Seq<char>,
)
    ensures
        total_rss(members_named(all.push(e), key)) == total_rss(members_named(all, key)) + (
        if !e.thread && ((e.name@.len() > 0 && e.name@ == key) || (e.name@.len() == 0 && key
            == "unknown"@)) {
            e.rss as nat
        } else {
            0
        }),
        members_named(Seq::empty(), key).len() == 0,
{
    let m = members_named(all, key);
    assert(all.push(e).drop_last() =~= all);
    assert(m.push(Member { pid: e.pid, rss: e.rss }).drop_last() =~= m);
}

/// Whose processes a group holds: its owners are the known owners of the
/// processes of its name, those without a name being `unknown`.
pub proof fn law_owners_of_a_group(
    groups: Seq<Group>,
    all: Seq<ProcessEntry>,
    i: int,
    owner: Seq<char>,
)
    requires
        grouped(groups, all),
        0 <= i < groups.len(),
    ensures
        groups[i].usernames@.contains(owner) <==> owner.len() > 0 && exists|j: int|
            0 <= j < all.len() && owns(#[trigger] all[j], groups[i].name@, owner),
{
    let key = groups[i].name@;
    assert(group_matches(groups[i], all));
    lemma_owner(all, key, owner);
    assert(groups[i].usernames@.to_set().contains(owner) <==> groups[i].usernames@.contains(owner));
}

/// Whether `e` is a process of `owner` and is called `name`, or `unknown` where
/// it has no name.
pub open spec fn owns(e: ProcessEntry, name: Seq<char>, owner: Seq<char>) -> bool {
    &&& !e.thread
    &&& e.username@ == owner
    &&& (e.name@.len() > 0 && e.name@ == name) || (e.name@.len() == 0 && name == "unknown"@)
}

proof fn lemma_owner(all: Seq<ProcessEntry>, key: Seq<char>, owner: Seq<char>)
    ensures
        users_named(all, key).contains(owner) <==> owner.len() > 0 && exists|j: int|
            0 <= j < all.len() && owns(#[trigger] all[j], key, owner),
    decreases all.len(),
{
    if all.len() > 0 {
        let init = all.drop_last();
        lemma_owner(init, key, owner);
        if users_named(init, key).contains(owner) {
            let j = choose|j: int| 0 <= j < init.len() && owns(#[trigger] init[j], key, owner);
            assert(all[j] == init[j]);
        }
        assert(all[all.len() - 1] == all.last());
        assert forall|j: int| 0 <= j < init.len() && owns(#[trigger] all[j], key, owner) implies owns(
            init[j],
            key,
            owner,
        ) by {
            assert(all[j] == init[j]);
        }
    }
}

/// A finished list shows the ten heaviest groups, or all if there are fewer:
/// no group that is left out weighs more than one that is shown.
pub proof fn law_ten_heaviest(top: Seq<Slot>, weight: Seq<nat>)
    requires
        is_top(top, weight),
    ensures
        weight.len() <= 10 ==> top.len() == weight.len(),
        weight.len() >= 10 ==> top.len() == 10,
        forall|k: int, l: int|
            0 <= k < l < top.len() ==> weight[(#[trigger] top[k]).entry as int]
                >= weight[(#[trigger] top[l]).entry as int] && top[k].entry != top[l].entry,
        forall|i: int, l: int|
            0 <= i < weight.len() && 0 <= l < top.len() && #[trigger] weight[i] > weight[(
            #[trigger] top[l]).entry as int] ==> exists|k: int|
                0 <= k < top.len() && (#[trigger] top[k]).entry == i,
{
    assert forall|i: int, l: int|
        0 <= i < weight.len() && 0 <= l < top.len() && #[trigger] weight[i] > weight[(
        #[trigger] top[l]).entry as int] implies exists|k: int|
        0 <= k < top.len() && (#[trigger] top[k]).entry == i by {
        if !listed(top, i) {
            assert(weight[i] <= top[l].mem);
        }
    }
}

/// Without readings a group weighs what its members hold resident, and a
/// reading of `kb` counts as so many times 1024 bytes: a further member adds
/// just that, up to the largest number.
pub proof fn law_a_member_adds_its_size(
    members: Seq<Member>,
    readings: Seq<Option<u64>>,
    m: Member,
)
    requires
        readings.len() == members.len() + 1,
    ensures
        ({
            let before = group_pss(members, readings);
            let after = group_pss(members.push(m), readings);
            let own = match readings[members.len() as int] {
                Some(kb) => kb * 1024,
                None => m.rss as int,
            };
            &&& before + own <= u64::MAX ==> after == before + own
            &&& before + own > u64::MAX ==> after == u64::MAX
        }),
        group_pss(Seq::empty(), readings) == 0,
{
    assert(members.push(m).drop_last() =~= members);
    lemma_group_pss_fits(members, readings);
}

proof fn lemma_group_pss_fits(members: Seq<Member>, readings: Seq<Option<u64>>)
    ensures
        group_pss(members, readings) <= u64::MAX,
{
}

/// The proportional size in KiB that the text of `smaps_rollup` reports: the
/// first word of the first line `Pss:`, if it is a number.
pub open spec fn pss_reported(raw: Seq<char>) -> Option<u64> {
    match first_after(lines_of(raw), "Pss:"@) {
        Some(rest) => {
            let fields = words_of(strip_both(rest, Class::Space));
            if fields.len() > 0 {
                u64_written(fields[0])
            } else {
                None
            }
        },
        None => None,
    }
}

/// Reads the proportional size in KiB from the text of `smaps_rollup`.
pub fn read_pss_kb(raw: &str) -> (r: Option<u64>)
    ensures
        r == pss_reported(raw@),
{
    match find_first(&lines(raw), "Pss:") {
        Some(rest) => {
            let fields = words(trim(rest.as_str()).as_str());
            if fields.len() > 0 {
                assert(words_of(strip_both(rest@, Class::Space))[0] == fields@[0]@);
                parse_u64(fields[0].as_str())
            } else {
                None
            }
        },
        None => None,
    }
}

/// What was found when the proportional size of a process was tried.
#[derive(Clone, Copy, PartialEq, Eq, Structural)]
pub enum PssProbe {
    Readable,
    /// The process is there, but its size cannot be read.
    Denied,
    /// The process has gone.
    Gone,
}

/// Classifies a trial: what was read, and whether the process is still there.
pub fn probe_outcome(reading: Option<u64>, present: bool) -> (r: PssProbe)
    ensures
        r == if reading is Some {
            PssProbe::Readable
        } else if present {
            PssProbe::Denied
        } else {
            PssProbe::Gone
        },
{
    match reading {
        Some(_) => PssProbe::Readable,
        None => if present {
            PssProbe::Denied
        } else {
            PssProbe::Gone
        },
    }
}

/// Whether the first trial that did not find its process gone was readable.
pub open spec fn first_present_readable(probes: Seq<PssProbe>) -> bool
    decreases probes.len(),
{
    if probes.len() == 0 {
        false
    } else if probes[0] == PssProbe::Gone {
        first_present_readable(probes.skip(1))
    } else {
        probes[0] == PssProbe::Readable
    }
}

/// Whether a trial settles the question, so that no further process has to be
/// tried: its process is still there.
pub fn settles_pss(probe: PssProbe) -> (r: bool)
    ensures
        r == (probe != PssProbe::Gone),
{
    match probe {
        PssProbe::Gone => false,
        _ => true,
    }
}

/// Trials after one that settles the question do not change the answer.
pub proof fn law_later_probes_change_nothing(
    probes: Seq<PssProbe>,
    settled: int,
    later: Seq<PssProbe>,
)
    requires
        0 <= settled < probes.len(),
        probes[settled] != PssProbe::Gone,
    ensures
        first_present_readable(probes + later) == first_present_readable(probes),
    decreases settled,
{
    assert((probes + later)[0] == probes[0]);
    if settled > 0 {
        assert(probes.skip(1)[settled - 1] == probes[settled]);
        law_later_probes_change_nothing(probes.skip(1), settled - 1, later);
        assert((probes + later).skip(1) =~= probes.skip(1) + later);
    }
}

/// Decides from trials in order whether proportional sizes can be had.
pub fn detect_pss(probes: &Vec<PssProbe>) -> (r: bool)
    ensures
        r == first_present_readable(probes@),
{
    let mut i: usize = 0;
    assert(probes@.skip(0) =~= probes@);
    while i < probes.len()
        invariant
            i <= probes.len(),
            first_present_readable(probes@.skip(i as int)) == first_present_readable(probes@),
        decreases probes.len() - i,
    {
        assert(probes@.skip(i as int)[0] == probes@[i as int]);
        match probes[i] {
            PssProbe::Readable => {
                return true;
            },
            PssProbe::Denied => {
                return false;
            },
            PssProbe::Gone => {},
        }
        assert(probes@.skip(i as int).skip(1) =~= probes@.skip(i as int + 1));
        i += 1;
    }
    false
}

/// Whether `v` is in ascending order.
pub open spec fn ascending(v: Seq<u32>) -> bool {
    forall|i: int, j: int| 0 <= i <= j < v.len() ==> #[trigger] v[i] <= #[trigger] v[j]
}

/// The process ids to try, in ascending order: all of `pids` but `own`.
pub fn foreign_pids(pids: &Vec<u32>, own: u32) -> (r: Vec<u32>)
    ensures
        ascending(r@),
        r@.to_multiset() == pids@.filter(|p: u32| p != own).to_multiset(),
{
    let ghost other = |p: u32| p != own;
    let mut out: Vec<u32> = Vec::new();
    let mut i: usize = 0;
    assert(pids@.take(0).filter(other) =~= out@) by {
        reveal(Seq::filter);
    }
    while i < pids.len()
        invariant
            i <= pids.len(),
            other == (|p: u32| p != own),
            ascending(out@),
            out@.to_multiset() == pids@.take(i as int).filter(other).to_multiset(),
        decreases pids.len() - i,
    {
        let p: u32 = pids[i];
        let ghost was = out@;
        let ghost kept = pids@.take(i as int).filter(other);
        assert(pids@.take(i as int + 1) =~= pids@.take(i as int).push(p));
        proof {
            crate::text::lemma_filter_push(pids@.take(i as int), p, other);
        }
        if p != own {
            let mut at: usize = out.len();
            while at > 0 && out[at - 1] > p
                invariant
                    at <= out.len(),
                    out@ == was,
                    forall|j: int| at <= j < was.len() ==> #[trigger] was[j] > p,
                decreases at,
            {
                at -= 1;
            }
            out.insert(at, p);
            let ghost now = out@;
            assert(now =~= was.insert(at as int, p));
            assert(ascending(now)) by {
                assert forall|a: int, b: int| 0 <= a <= b < now.len() implies #[trigger] now[a]
                    <= #[trigger] now[b] by {
                    let x = if a < at {
                        a
                    } else {
                        a - 1
                    };
                    let y = if b < at {
                        b
                    } else {
                        b - 1
                    };
                    if a != at {
                        assert(now[a] == was[x]);
                    }
                    if b != at {
                        assert(now[b] == was[y]);
                    }
                    if b == at && a < at {
                        assert(was[a] <= was[at - 1]);
                    }
                }
            }
            proof {
                vstd::seq_lib::to_multiset_insert(was, at as int, p);
                vstd::seq_lib::to_multiset_build(kept, p);
            }
        }
        i += 1;
    }
    assert(pids@.take(pids.len() as int) =~= pids@);
    out
}

/// The name of the accounting in use.
pub open spec fn metric_name(pss: bool) -> Seq<char> {
    if pss {
        "pss"@
    } else {
        "rss"@
    }
}

/// The name of the accounting in use.
pub fn process_metric_label(pss: bool) -> (r: &'static str)
    ensures
        r@ == metric_name(pss),
{
    if pss {
        "pss"
    } else {
        "rss"
    }
}

/// The proportional size is the first word after `Pss:` in the first line that
/// begins so.
pub proof fn law_first_pss_line(raw: Seq<char>, j: int, word: Seq<char>, rest: Seq<char>)
    requires
        0 <= j < lines_of(raw).len(),
        word.len() > 0,
        forall|i: int| 0 <= i < word.len() ==> !crate::text::is_space(#[trigger] word[i]),
        lines_of(raw)[j] == "Pss: "@ + word + " "@ + rest || lines_of(raw)[j] == "Pss: "@ + word,
        forall|i: int|
            0 <= i < j ==> !"Pss:"@.is_prefix_of(#[trigger] lines_of(raw)[i]),
    ensures
        pss_reported(raw) == u64_written(word),
{
    let rows = lines_of(raw);
    let row = rows[j];
    reveal_strlit("Pss:");
    reveal_strlit("Pss: ");
    reveal_strlit(" ");
    assert(row.subrange(0, 4) =~= "Pss:"@);
    crate::text::law_first_line_counts(rows, "Pss:"@, j);
    let after = first_after(rows, "Pss:"@)->0;
    assert(after =~= row.skip(4));
    let tail = if row == "Pss: "@ + word {
        Seq::empty()
    } else {
        seq![' '] + rest
    };
    assert(after =~= seq![' '] + (word + tail));
    lemma_first_word(word, tail);
}

/// Trimming takes nothing away from the first word.
proof fn lemma_first_word(word: Seq<char>, tail: Seq<char>)
    requires
        word.len() > 0,
        forall|i: int| 0 <= i < word.len() ==> !crate::text::is_space(#[trigger] word[i]),
        tail.len() > 0 ==> tail[0] == ' ',
    ensures
        ({
            let fields = words_of(strip_both(seq![' '] + (word + tail), Class::Space));
            fields.len() > 0 && fields[0] == word
        }),
{
    let space = Class::Space;
    let text = word + tail;
    assert((seq![' '] + text).skip(1) =~= text);
    assert(text[0] == word[0]);
    assert((seq![' '] + text)[0] == ' ');
    assert(crate::text::strip_start(text, space) == text);
    assert(crate::text::strip_start(seq![' '] + text, space) == crate::text::strip_start(
        text,
        space,
    ));
    let cut = lemma_cut_tail(word, tail);
    let kept = word + cut;
    if cut.len() == 0 {
        assert(kept =~= word);
        crate::text::law_one_word(word);
    } else {
        let more = cut.skip(1);
        assert(kept =~= word.push(' ') + more);
        crate::text::law_words_at_space(word, ' ', more);
        crate::text::law_one_word(word);
    }
}

proof fn lemma_cut_tail(word: Seq<char>, tail: Seq<char>) -> (cut: Seq<char>)
    requires
        word.len() > 0,
        !crate::text::is_space(word[word.len() - 1]),
        tail.len() > 0 ==> tail[0] == ' ',
    ensures
        crate::text::strip_end(word + tail, Class::Space) == word + cut,
        cut.len() > 0 ==> cut[0] == ' ',
    decreases tail.len(),
{
    if tail.len() == 0 {
        assert(word + tail =~= word);
        tail
    } else if crate::text::is_space(tail[tail.len() - 1]) {
        assert((word + tail).drop_last() =~= word + tail.drop_last());
        assert((word + tail).last() == tail[tail.len() - 1]);
        lemma_cut_tail(word, tail.drop_last())
    } else {
        assert((word + tail).last() == tail[tail.len() - 1]);
        tail
    }
}

/// No line `Pss:` means no proportional size.
pub proof fn law_no_pss_line(raw: Seq<char>)
    requires
        forall|i: int|
            0 <= i < lines_of(raw).len() ==> !"Pss:"@.is_prefix_of(#[trigger] lines_of(raw)[i]),
    ensures
        pss_reported(raw) is None,
{
    crate::text::law_first_line_counts(lines_of(raw), "Pss:"@, lines_of(raw).len() as int);
}

/// The first process that is still there decides: proportional sizes can be had
/// if its own could be read, and not otherwise; nor if every one has gone.
pub proof fn law_first_present_decides(probes: Seq<PssProbe>, j: int)
    requires
        0 <= j <= probes.len(),
        forall|i: int| 0 <= i < j ==> #[trigger] probes[i] == PssProbe::Gone,
        j < probes.len() ==> probes[j] != PssProbe::Gone,
    ensures
        first_present_readable(probes) <==> j < probes.len() && probes[j] == PssProbe::Readable,
    decreases j,
{
    if j > 0 {
        assert(probes[0] == PssProbe::Gone);
        assert forall|i: int| 0 <= i < j - 1 implies #[trigger] probes.skip(1)[i]
            == PssProbe::Gone by {
            assert(probes.skip(1)[i] == probes[i + 1]);
        }
        law_first_present_decides(probes.skip(1), j - 1);
    }
}

/// The accounting is called `pss` or `rss`.
pub proof fn law_metric_names()
    ensures
        metric_name(true) == "pss"@,
        metric_name(false) == "rss"@,
{
}

/// A row shows the first member, the name and all owners of its group, with a
/// comma and a blank between owners, and the weight.
pub proof fn law_rows_show_their_groups(row: TopProcess, g: Group, mem: u128)
    requires
        presents(row, g, mem),
        g.members@.len() > 0,
    ensures
        row.pid == g.members@[0].pid,
        row.name@ == g.name@,
        row.mem_bytes == mem,
        g.usernames@.len() == 0 ==> row.username@.len() == 0,
        g.usernames@.len() == 1 ==> row.username@ == g.usernames@[0],
        g.usernames@.len() == 2 ==> row.username@ == g.usernames@[0] + ", "@ + g.usernames@[1],
{
    reveal_with_fuel(joined, 3);
    if g.usernames@.len() == 2 {
        assert(g.usernames@.drop_last()[0] == g.usernames@[0]);
    }
}

} // verus!
