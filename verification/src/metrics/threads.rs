//! Threads do not count: what the list of processes shows depends on the
//! processes alone.

use crate::metrics::process::{counts, distinct_groups, grouped, group_matches, group_pss, has_group, is_top, label_of, law_top_is_exact, lemma_short_list_has_all, listed, members_named, total_rss, Group, Member, ProcessEntry, Slot, TopScan, TOP_N};
use crate::metrics::{sat_add, sat_mul};
use vstd::prelude::*;

verus! {

/// The processes among `all`, each with the name it is listed under: threads
/// left out.
pub open spec fn processes(all: Seq<ProcessEntry>) -> Seq<(Seq<char>, Member)>
    decreases all.len(),
{
    if all.len() == 0 {
        Seq::empty()
    } else {
        let before = processes(all.drop_last());
        let e = all.last();
        if e.thread {
            before
        } else {
            before.push((label_of(e.name@), Member { pid: e.pid, rss: e.rss }))
        }
    }
}

/// Whether `a` and `b` hold the same processes, in any order and among any
/// threads.
pub open spec fn same_processes(a: Seq<ProcessEntry>, b: Seq<ProcessEntry>) -> bool {
    processes(a).to_multiset() == processes(b).to_multiset()
}

/// A thread among the tasks leaves the processes as they are.
pub proof fn law_a_thread_is_no_process(all: Seq<ProcessEntry>, at: int, t: ProcessEntry)
    requires
        0 <= at <= all.len(),
        t.thread,
    ensures
        processes(all.insert(at, t)) == processes(all),
        same_processes(all.insert(at, t), all),
    decreases all.len(),
{
    let more = all.insert(at, t);
    if at == all.len() {
        assert(more.drop_last() =~= all);
    } else {
        law_a_thread_is_no_process(all.drop_last(), at, t);
        assert(more.drop_last() =~= all.drop_last().insert(at, t));
        assert(more.last() == all.last());
    }
}

/// The readings of proportional size in KiB of `members`.
pub open spec fn readings_of(
    members: Seq<Member>,
    reading: spec_fn(u32) -> Option<u64>,
) -> Seq<Option<u64>> {
    Seq::new(members.len(), |i: int| reading(members[i].pid))
}

/// The weight of `members`: by proportional size, or by resident size without
/// `pss`.
pub open spec fn weight_of(
    members: Seq<Member>,
    pss: bool,
    reading: spec_fn(u32) -> Option<u64>,
) -> nat {
    if pss {
        group_pss(members, readings_of(members, reading))
    } else {
        total_rss(members)
    }
}

/// Whether every group that `scan` has weighed has its own weight.
pub open spec fn weighed_by(
    scan: TopScan,
    pss: bool,
    reading: spec_fn(u32) -> Option<u64>,
) -> bool {
    forall|i: int|
        0 <= i < scan.weighed() ==> #[trigger] scan.weights()[i] == weight_of(
            scan.groups()[i].members@,
            pss,
            reading,
        )
}

/// Whether the list of `scan` holds a group of that name and weight.
pub open spec fn lists(scan: TopScan, name: Seq<char>, mem: nat) -> bool {
    exists|k: int|
        0 <= k < scan.top().len() && (#[trigger] scan.top()[k]).mem == mem
            && scan.groups()[scan.top()[k].entry as int].name@ == name
}

/// What a member weighs by itself.
spec fn member_weight(m: Member, pss: bool, reading: spec_fn(u32) -> Option<u64>) -> nat {
    if pss && reading(m.pid) is Some {
        sat_mul(reading(m.pid)->0 as nat, 1024)
    } else {
        m.rss as nat
    }
}

/// The weights of `members` together.
spec fn plain_sum(
    members: Seq<Member>,
    pss: bool,
    reading: spec_fn(u32) -> Option<u64>,
) -> nat
    decreases members.len(),
{
    if members.len() == 0 {
        0
    } else {
        plain_sum(members.drop_last(), pss, reading) + member_weight(members.last(), pss, reading)
    }
}

proof fn lemma_weight_is_sum(
    members: Seq<Member>,
    pss: bool,
    reading: spec_fn(u32) -> Option<u64>,
)
    ensures
        weight_of(members, pss, reading) == if pss {
            sat_add(plain_sum(members, pss, reading), 0)
        } else {
            plain_sum(members, pss, reading)
        },
{
    if pss {
        lemma_pss_is_sum(members, reading, members.len() as int);
        assert(members.take(members.len() as int) =~= members);
    } else {
        lemma_rss_is_sum(members, reading);
    }
}

proof fn lemma_rss_is_sum(members: Seq<Member>, reading: spec_fn(u32) -> Option<u64>)
    ensures
        total_rss(members) == plain_sum(members, false, reading),
    decreases members.len(),
{
    if members.len() > 0 {
        lemma_rss_is_sum(members.drop_last(), reading);
    }
}

proof fn lemma_pss_is_sum(members: Seq<Member>, reading: spec_fn(u32) -> Option<u64>, n: int)
    requires
        0 <= n <= members.len(),
    ensures
        group_pss(members.take(n), readings_of(members, reading)) == sat_add(
            plain_sum(members.take(n), true, reading),
            0,
        ),
    decreases n,
{
    if n > 0 {
        lemma_pss_is_sum(members, reading, n - 1);
        assert(members.take(n).drop_last() =~= members.take(n - 1));
        assert(members.take(n).last() == members[n - 1]);
    }
}

/// What the processes called `key` weigh together.
spec fn share(
    all: Seq<(Seq<char>, Member)>,
    key: Seq<char>,
    pss: bool,
    reading: spec_fn(u32) -> Option<u64>,
) -> nat
    decreases all.len(),
{
    if all.len() == 0 {
        0
    } else {
        share(all.drop_last(), key, pss, reading) + own_share(all.last(), key, pss, reading)
    }
}

spec fn own_share(
    p: (Seq<char>, Member),
    key: Seq<char>,
    pss: bool,
    reading: spec_fn(u32) -> Option<u64>,
) -> nat {
    if p.0 == key {
        member_weight(p.1, pss, reading)
    } else {
        0
    }
}

proof fn lemma_share(
    all: Seq<ProcessEntry>,
    key: Seq<char>,
    pss: bool,
    reading: spec_fn(u32) -> Option<u64>,
)
    ensures
        plain_sum(members_named(all, key), pss, reading) == share(
            processes(all),
            key,
            pss,
            reading,
        ),
    decreases all.len(),
{
    if all.len() > 0 {
        let init = all.drop_last();
        lemma_share(init, key, pss, reading);
        assert(processes(all).len() > processes(init).len() ==> processes(all).drop_last()
            =~= processes(init));
        assert(members_named(all, key).len() > members_named(init, key).len() ==> members_named(
            all,
            key,
        ).drop_last() =~= members_named(init, key));
    }
}

/// A process may be taken out of the sum at any place.
proof fn lemma_share_remove(
    all: Seq<(Seq<char>, Member)>,
    j: int,
    key: Seq<char>,
    pss: bool,
    reading: spec_fn(u32) -> Option<u64>,
)
    requires
        0 <= j < all.len(),
    ensures
        share(all, key, pss, reading) == share(all.remove(j), key, pss, reading) + own_share(
            all[j],
            key,
            pss,
            reading,
        ),
    decreases all.len(),
{
    if j == all.len() - 1 {
        assert(all.remove(j) =~= all.drop_last());
    } else {
        lemma_share_remove(all.drop_last(), j, key, pss, reading);
        assert(all.remove(j).drop_last() =~= all.drop_last().remove(j));
        assert(all.remove(j).last() == all.last());
    }
}

/// The sum does not depend on the order.
proof fn lemma_share_same(
    a: Seq<(Seq<char>, Member)>,
    b: Seq<(Seq<char>, Member)>,
    key: Seq<char>,
    pss: bool,
    reading: spec_fn(u32) -> Option<u64>,
)
    requires
        a.to_multiset() == b.to_multiset(),
    ensures
        share(a, key, pss, reading) == share(b, key, pss, reading),
    decreases a.len(),
{
    a.to_multiset_ensures();
    b.to_multiset_ensures();
    if a.len() > 0 {
        let last = a.len() - 1;
        let e = a[last];
        assert(a.contains(e));
        assert(b.to_multiset().count(e) > 0);
        let j = choose|j: int| 0 <= j < b.len() && b[j] == e;
        lemma_share_same(a.remove(last), b.remove(j), key, pss, reading);
        lemma_share_remove(a, last, key, pss, reading);
        lemma_share_remove(b, j, key, pss, reading);
    }
}

/// Groups of one name weigh the same wherever the processes are the same.
proof fn lemma_same_weight(
    a: Seq<ProcessEntry>,
    b: Seq<ProcessEntry>,
    key: Seq<char>,
    pss: bool,
    reading: spec_fn(u32) -> Option<u64>,
)
    requires
        same_processes(a, b),
    ensures
        weight_of(members_named(a, key), pss, reading) == weight_of(
            members_named(b, key),
            pss,
            reading,
        ),
{
    lemma_weight_is_sum(members_named(a, key), pss, reading);
    lemma_weight_is_sum(members_named(b, key), pss, reading);
    lemma_share(a, key, pss, reading);
    lemma_share(b, key, pss, reading);
    lemma_share_same(processes(a), processes(b), key, pss, reading);
}

/// A name in use is that of some process.
proof fn lemma_name_in_use(all: Seq<ProcessEntry>, key: Seq<char>) -> (j: int)
    requires
        members_named(all, key).len() > 0,
    ensures
        0 <= j < processes(all).len(),
        processes(all)[j].0 == key,
    decreases all.len(),
{
    if counts(all.last(), key) {
        processes(all).len() - 1
    } else {
        lemma_name_in_use(all.drop_last(), key)
    }
}

/// The name of a process has its group.
proof fn lemma_process_has_group(groups: Seq<Group>, all: Seq<ProcessEntry>, n: int, j: int)
    requires
        grouped(groups, all),
        0 <= n <= all.len(),
        0 <= j < processes(all.take(n)).len(),
    ensures
        has_group(groups, processes(all.take(n))[j].0),
    decreases n,
{
    let part = all.take(n);
    assert(part.drop_last() =~= all.take(n - 1));
    assert(part.last() == all[n - 1]);
    if j < processes(all.take(n - 1)).len() {
        lemma_process_has_group(groups, all, n - 1, j);
    }
}

/// Whether every group of `one` has one of its name in `two`.
spec fn covers(one: Seq<Group>, two: Seq<Group>) -> bool {
    forall|i: int| 0 <= i < one.len() ==> has_group(two, (#[trigger] one[i]).name@)
}

/// The same processes have the same names.
proof fn lemma_covers(
    a: Seq<ProcessEntry>,
    b: Seq<ProcessEntry>,
    one: Seq<Group>,
    two: Seq<Group>,
)
    requires
        same_processes(a, b),
        grouped(one, a),
        grouped(two, b),
    ensures
        covers(one, two),
{
    assert forall|i: int| 0 <= i < one.len() implies has_group(two, (#[trigger] one[i]).name@) by {
        assert(group_matches(one[i], a));
        let j = lemma_name_in_use(a, one[i].name@);
        let p = processes(a)[j];
        processes(a).to_multiset_ensures();
        processes(b).to_multiset_ensures();
        assert(processes(a).contains(p));
        assert(processes(b).to_multiset().count(p) > 0);
        let l = choose|l: int| 0 <= l < processes(b).len() && processes(b)[l] == p;
        assert(b.take(b.len() as int) =~= b);
        lemma_process_has_group(two, b, b.len() as int, l);
    }
}

/// There are at most `n` different numbers below `n`.
proof fn lemma_distinct_below(s: Seq<int>, n: int)
    requires
        n >= 0,
        s.no_duplicates(),
        forall|i: int| 0 <= i < s.len() ==> 0 <= #[trigger] s[i] < n,
    ensures
        s.len() <= n,
{
    s.unique_seq_to_set();
    let below = vstd::set_lib::set_int_range(0, n);
    vstd::set_lib::lemma_int_range(0, n);
    assert(s.to_set().subset_of(below)) by {
        assert forall|e: int| s.to_set().contains(e) implies below.contains(e) by {
            let i = choose|i: int| 0 <= i < s.len() && s[i] == e;
            assert(0 <= s[i] < n);
        }
    }
    vstd::set_lib::lemma_len_subset(s.to_set(), below);
}

/// Where the group called `name` stands among `groups`.
spec fn place(groups: Seq<Group>, name: Seq<char>) -> int {
    choose|j: int| 0 <= j < groups.len() && (#[trigger] groups[j]).name@ == name
}

/// Groups of different names are no more than the groups that cover them.
proof fn lemma_fewer_groups(one: Seq<Group>, two: Seq<Group>)
    requires
        distinct_groups(one),
        covers(one, two),
    ensures
        one.len() <= two.len(),
{
    let places = Seq::new(one.len(), |i: int| place(two, one[i].name@));
    assert forall|i: int| 0 <= i < places.len() implies 0 <= #[trigger] places[i] < two.len()
        && two[places[i]].name@ == one[i].name@ by {
        assert(has_group(two, one[i].name@));
    }
    assert forall|i: int, l: int|
        0 <= i < places.len() && 0 <= l < places.len() && i != l implies places[i]
        != places[l] by {
        assert(one[i].name@ != one[l].name@);
    }
    lemma_distinct_below(places, two.len() as int);
}

/// The weights of `groups`.
spec fn truth(
    groups: Seq<Group>,
    pss: bool,
    reading: spec_fn(u32) -> Option<u64>,
) -> Seq<nat> {
    Seq::new(groups.len(), |i: int| weight_of(groups[i].members@, pss, reading))
}

/// Whether groups of one name weigh the same.
spec fn agree(one: Seq<Group>, first: Seq<nat>, two: Seq<Group>, second: Seq<nat>) -> bool {
    &&& first.len() == one.len()
    &&& second.len() == two.len()
    &&& forall|i: int, j: int|
        0 <= i < one.len() && 0 <= j < two.len() && (#[trigger] one[i]).name@ == (
        #[trigger] two[j]).name@ ==> first[i] == second[j]
}

/// Where the group called `name` stands in the list `top`.
spec fn rank(top: Seq<Slot>, groups: Seq<Group>, name: Seq<char>) -> int {
    choose|k: int| 0 <= k < top.len() && groups[(#[trigger] top[k]).entry as int].name@ == name
}

/// No place of a list is heavier than the same place of the list of groups
/// that weigh the same.
proof fn lemma_not_heavier(
    one: Seq<Group>,
    first: Seq<nat>,
    top: Seq<Slot>,
    two: Seq<Group>,
    second: Seq<nat>,
    other: Seq<Slot>,
    k: int,
)
    requires
        distinct_groups(one),
        covers(one, two),
        agree(one, first, two, second),
        is_top(top, first),
        is_top(other, second),
        0 <= k < top.len(),
        k < other.len(),
    ensures
        top[k].mem <= other[k].mem,
{
    if top[k].mem > other[k].mem {
        let ranks = Seq::new((k + 1) as nat, |i: int| rank(other, two, one[top[i].entry as int].name@));
        assert forall|i: int| 0 <= i < ranks.len() implies 0 <= #[trigger] ranks[i] < k
            && two[other[ranks[i]].entry as int].name@ == one[top[i].entry as int].name@ by {
            let e = top[i].entry as int;
            assert(top[i].mem >= top[k].mem) by {
                if i < k {
                    assert(top[i].entry != top[k].entry);
                }
            }
            assert(first[e] == top[i].mem);
            assert(has_group(two, one[e].name@));
            let j = place(two, one[e].name@);
            assert(two[j].name@ == one[e].name@);
            assert(second[j] == first[e]);
            assert(listed(other, j)) by {
                if !listed(other, j) {
                    assert(second[j] <= other[k].mem);
                }
            }
            let l = choose|l: int| 0 <= l < other.len() && (#[trigger] other[l]).entry == j;
            assert(two[other[l].entry as int].name@ == one[e].name@);
            let r = ranks[i];
            assert(two[other[r].entry as int].name@ == one[e].name@);
            assert(other[r].mem == second[other[r].entry as int]);
            assert(other[r].mem == first[e]);
            if r >= k {
                if r > k {
                    assert(other[k].entry != other[r].entry);
                }
                assert(other[r].mem <= other[k].mem);
            }
        }
        assert forall|i: int, l: int|
            0 <= i < ranks.len() && 0 <= l < ranks.len() && i != l implies ranks[i]
            != ranks[l] by {
            if i < l {
                assert(top[i].entry != top[l].entry);
            } else {
                assert(top[l].entry != top[i].entry);
            }
            assert(one[top[i].entry as int].name@ != one[top[l].entry as int].name@);
        }
        lemma_distinct_below(ranks, k);
    }
}

/// Threads do not count. Take two lists of tasks with the same processes, in
/// any order and among any threads, rank both to the end, and let no group
/// weigh more than its resident size. The lists then show the same weights,
/// place by place. They also show the same groups, but for the choice among
/// groups as light as the last one shown.
pub proof fn law_threads_do_not_count(
    a: Seq<ProcessEntry>,
    b: Seq<ProcessEntry>,
    one: TopScan,
    two: TopScan,
    pss: bool,
    reading: spec_fn(u32) -> Option<u64>,
)
    requires
        same_processes(a, b),
        one.wf(),
        two.wf(),
        grouped(one.groups(), a),
        grouped(two.groups(), b),
        !one.wants_next(),
        !two.wants_next(),
        weighed_by(one, pss, reading),
        weighed_by(two, pss, reading),
        forall|i: int|
            0 <= i < one.groups().len() ==> weight_of(
                (#[trigger] one.groups()[i]).members@,
                pss,
                reading,
            ) <= one.groups()[i].rss,
    ensures
        one.groups().len() == two.groups().len(),
        one.top().len() == two.top().len(),
        forall|k: int|
            0 <= k < one.top().len() ==> (#[trigger] one.top()[k]).mem == two.top()[k].mem,
        forall|i: int|
            0 <= i < one.groups().len() && (one.groups().len() <= TOP_N || weight_of(
                one.groups()[i].members@,
                pss,
                reading,
            ) > one.top().last().mem) ==> lists(
                one,
                (#[trigger] one.groups()[i]).name@,
                weight_of(one.groups()[i].members@, pss, reading),
            ) && lists(
                two,
                one.groups()[i].name@,
                weight_of(one.groups()[i].members@, pss, reading),
            ),
{
    let first = truth(one.groups(), pss, reading);
    let second = truth(two.groups(), pss, reading);
    lemma_covers(a, b, one.groups(), two.groups());
    lemma_covers(b, a, two.groups(), one.groups());
    lemma_fewer_groups(one.groups(), two.groups());
    lemma_fewer_groups(two.groups(), one.groups());
    assert forall|i: int, j: int|
        0 <= i < one.groups().len() && 0 <= j < two.groups().len() && (
        #[trigger] one.groups()[i]).name@ == (#[trigger] two.groups()[j]).name@ implies first[i]
        == second[j] && one.groups()[i].rss == two.groups()[j].rss by {
        assert(group_matches(one.groups()[i], a));
        assert(group_matches(two.groups()[j], b));
        lemma_same_weight(a, b, one.groups()[i].name@, pss, reading);
        lemma_same_weight(a, b, one.groups()[i].name@, false, reading);
    }
    assert forall|j: int| 0 <= j < second.len() implies #[trigger] second[j]
        <= two.groups()[j].rss by {
        assert(has_group(one.groups(), two.groups()[j].name@));
        let i = place(one.groups(), two.groups()[j].name@);
        assert(one.groups()[i].name@ == two.groups()[j].name@);
        assert(first[i] == second[j]);
    }
    assert(one.weights() =~= first.take(one.weighed() as int));
    assert(two.weights() =~= second.take(two.weighed() as int));
    law_top_is_exact(one, first);
    law_top_is_exact(two, second);
    assert forall|k: int| 0 <= k < one.top().len() implies (#[trigger] one.top()[k]).mem
        == two.top()[k].mem by {
        lemma_not_heavier(one.groups(), first, one.top(), two.groups(), second, two.top(), k);
        lemma_not_heavier(two.groups(), second, two.top(), one.groups(), first, one.top(), k);
    }
    assert forall|i: int|
        0 <= i < one.groups().len() && (one.groups().len() <= TOP_N || weight_of(
            one.groups()[i].members@,
            pss,
            reading,
        ) > one.top().last().mem) implies lists(
        one,
        (#[trigger] one.groups()[i]).name@,
        weight_of(one.groups()[i].members@, pss, reading),
    ) && lists(
        two,
        one.groups()[i].name@,
        weight_of(one.groups()[i].members@, pss, reading),
    ) by {
        let name = one.groups()[i].name@;
        assert(has_group(two.groups(), name));
        let j = place(two.groups(), name);
        assert(two.groups()[j].name@ == name);
        assert(first[i] == second[j]);
        lemma_heavy_is_listed(one, first, i);
        lemma_heavy_is_listed(two, second, j);
    }
}

/// A group heavier than the last one shown is shown.
proof fn lemma_heavy_is_listed(scan: TopScan, weight: Seq<nat>, i: int)
    requires
        is_top(scan.top(), weight),
        weight.len() == scan.groups().len(),
        0 <= i < weight.len(),
        weight.len() <= TOP_N || weight[i] > scan.top().last().mem,
    ensures
        lists(scan, scan.groups()[i].name@, weight[i]),
{
    let top = scan.top();
    if weight.len() <= TOP_N {
        lemma_short_list_has_all(top, weight, i);
    } else if !listed(top, i) {
        assert(weight[i] <= top[top.len() - 1].mem);
    }
    let k = choose|k: int| 0 <= k < top.len() && (#[trigger] top[k]).entry == i;
    assert(scan.top()[k].mem == weight[i]);
}

} // verus!
