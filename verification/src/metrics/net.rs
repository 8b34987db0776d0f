//! Network traffic and per-interface counters.

use crate::metrics::disk::growth;
use crate::metrics::{cell, law_nearest_rate, law_no_growth_no_rate, nearest, per_second, read_cell, sat_add};
use crate::names::NameMap;
use crate::snapshot::{NetIfaceStats, Throughput};
use crate::text::{cut_at, lines, lines_of, same, slice_text, split_once, strip_both, texts, trim, words, words_of, Class};
use vstd::prelude::*;

verus! {

/// A network interface and its counters since boot.
pub struct Interface {
    pub name: String,
    pub received: u64,
    pub transmitted: u64,
    pub packets_received: u64,
    pub packets_transmitted: u64,
    pub errors_on_received: u64,
    pub errors_on_transmitted: u64,
}

/// The saturated sum of the bytes received, loopback left out.
pub open spec fn received_total(all: Seq<Interface>) -> nat
    decreases all.len(),
{
    if all.len() == 0 {
        0
    } else if all.last().name@ == "lo"@ {
        received_total(all.drop_last())
    } else {
        sat_add(received_total(all.drop_last()), all.last().received as nat)
    }
}

/// The saturated sum of the bytes sent, loopback left out.
pub open spec fn sent_total(all: Seq<Interface>) -> nat
    decreases all.len(),
{
    if all.len() == 0 {
        0
    } else if all.last().name@ == "lo"@ {
        sent_total(all.drop_last())
    } else {
        sat_add(sent_total(all.drop_last()), all.last().transmitted as nat)
    }
}

/// The byte counters of one interface.
#[derive(Clone, Copy, Debug)]
pub struct Counters {
    pub received: u64,
    pub transmitted: u64,
}

/// The byte counters of every interface but loopback, by name; a later
/// interface of the same name overrides.
pub open spec fn counters_map(all: Seq<Interface>) -> Map<Seq<char>, Counters>
    decreases all.len(),
{
    if all.len() == 0 {
        Map::empty()
    } else {
        let before = counters_map(all.drop_last());
        let x = all.last();
        if x.name@ == "lo"@ {
            before
        } else {
            before.insert(
                x.name@,
                Counters { received: x.received, transmitted: x.transmitted },
            )
        }
    }
}

/// A reading of the byte counters, in total and by interface, and the monotonic
/// time, in nanoseconds, at which it was taken.
pub struct NetIoPrev {
    pub at: u64,
    pub recv: u64,
    pub sent: u64,
    pub by_name: NameMap<Counters>,
}

/// Whether `reading` is that of these interfaces at `now`.
pub open spec fn reads(reading: NetIoPrev, all: Seq<Interface>, now: u64) -> bool {
    &&& reading.at == now
    &&& reading.recv == received_total(all)
    &&& reading.sent == sent_total(all)
    &&& reading.by_name@ == counters_map(all)
}

/// No traffic.
pub open spec fn quiet() -> Throughput {
    Throughput { rx_bytes_per_sec: 0, tx_bytes_per_sec: 0 }
}

/// The traffic between reading `before` and totals `recv`, `sent` at `now`.
pub open spec fn throughput(before: Option<NetIoPrev>, recv: u64, sent: u64, now: u64) -> Throughput {
    match before {
        Some(p) => if now <= p.at {
            quiet()
        } else {
            Throughput {
                rx_bytes_per_sec: growth(recv, p.recv, (now - p.at) as nat),
                tx_bytes_per_sec: growth(sent, p.sent, (now - p.at) as nat),
            }
        },
        None => quiet(),
    }
}

/// The traffic of interface `x` between reading `before` and `now`; none where
/// the reading does not know the interface.
pub open spec fn interface_rate(before: Option<NetIoPrev>, x: Interface, now: u64) -> Throughput {
    match before {
        Some(p) => if now <= p.at || !p.by_name@.contains_key(x.name@) {
            quiet()
        } else {
            let c = p.by_name@[x.name@];
            Throughput {
                rx_bytes_per_sec: growth(x.received, c.received, (now - p.at) as nat),
                tx_bytes_per_sec: growth(x.transmitted, c.transmitted, (now - p.at) as nat),
            }
        },
        None => quiet(),
    }
}

/// The traffic of every interface but loopback, by name.
pub open spec fn rates_map(before: Option<NetIoPrev>, all: Seq<Interface>, now: u64) -> Map<
    Seq<char>,
    Throughput,
>
    decreases all.len(),
{
    if all.len() == 0 {
        Map::empty()
    } else {
        let earlier = rates_map(before, all.drop_last(), now);
        let x = all.last();
        if x.name@ == "lo"@ {
            earlier
        } else {
            earlier.insert(x.name@, interface_rate(before, x, now))
        }
    }
}

fn rate_since(before: &Option<NetIoPrev>, x: &Interface, now: u64) -> (r: Throughput)
    ensures
        r == interface_rate(*before, *x, now),
{
    match before {
        Some(p) => {
            if now > p.at {
                match p.by_name.get(x.name.as_str()) {
                    Some(c) => {
                        let elapsed: u64 = now - p.at;
                        return Throughput {
                            rx_bytes_per_sec: per_second(
                                x.received.saturating_sub(c.received),
                                elapsed,
                            ),
                            tx_bytes_per_sec: per_second(
                                x.transmitted.saturating_sub(c.transmitted),
                                elapsed,
                            ),
                        };
                    },
                    None => {},
                }
            }
        },
        None => {},
    }
    Throughput { rx_bytes_per_sec: 0, tx_bytes_per_sec: 0 }
}

/// The traffic per second of each interface but loopback since the previous
/// reading. An interface that the reading does not know gives zeros.
pub fn throughput_by_interface(
    all: &Vec<Interface>,
    prev: &Option<NetIoPrev>,
    now: u64,
) -> (r: NameMap<Throughput>)
    ensures
        r.wf(),
        r@ == rates_map(*prev, all@, now),
{
    let mut out: NameMap<Throughput> = NameMap::new();
    let mut i: usize = 0;
    assert(all@.take(0) =~= Seq::<Interface>::empty());
    while i < all.len()
        invariant
            i <= all.len(),
            out.wf(),
            out@ == rates_map(*prev, all@.take(i as int), now),
        decreases all.len() - i,
    {
        assert(all@.take(i as int + 1).drop_last() =~= all@.take(i as int));
        if !same(all[i].name.as_str(), "lo") {
            out.insert(all[i].name.clone(), rate_since(prev, &all[i], now));
        }
        i += 1;
    }
    assert(all@.take(all.len() as int) =~= all@);
    out
}

/// The traffic per second since the previous reading, over all interfaces but
/// loopback. The new reading replaces the previous one; the first gives zeros.
pub fn collect_throughput(all: &Vec<Interface>, prev: &mut Option<NetIoPrev>, now: u64) -> (r:
    Throughput)
    ensures
        *final(prev) matches Some(p) && reads(p, all@, now),
        r == throughput(
            *old(prev),
            received_total(all@) as u64,
            sent_total(all@) as u64,
            now,
        ),
{
    let mut recv: u64 = 0;
    let mut sent: u64 = 0;
    let mut by_name: NameMap<Counters> = NameMap::new();
    let mut i: usize = 0;
    assert(all@.take(0) =~= Seq::<Interface>::empty());
    while i < all.len()
        invariant
            i <= all.len(),
            recv == received_total(all@.take(i as int)),
            sent == sent_total(all@.take(i as int)),
            by_name.wf(),
            by_name@ == counters_map(all@.take(i as int)),
        decreases all.len() - i,
    {
        assert(all@.take(i as int + 1).drop_last() =~= all@.take(i as int));
        let x = &all[i];
        if !same(x.name.as_str(), "lo") {
            recv = recv.saturating_add(x.received);
            sent = sent.saturating_add(x.transmitted);
            by_name.insert(
                x.name.clone(),
                Counters { received: x.received, transmitted: x.transmitted },
            );
        }
        i += 1;
    }
    assert(all@.take(all.len() as int) =~= all@);
    let last = prev.take();
    *prev = Some(NetIoPrev { at: now, recv, sent, by_name });
    match last {
        None => Throughput { rx_bytes_per_sec: 0, tx_bytes_per_sec: 0 },
        Some(p) => {
            let elapsed: u64 = now.saturating_sub(p.at);
            if elapsed == 0 {
                Throughput { rx_bytes_per_sec: 0, tx_bytes_per_sec: 0 }
            } else {
                Throughput {
                    rx_bytes_per_sec: per_second(recv.saturating_sub(p.recv), elapsed),
                    tx_bytes_per_sec: per_second(sent.saturating_sub(p.sent), elapsed),
                }
            }
        },
    }
}

/// Whether no two interfaces share a name.
pub open spec fn distinct_names(all: Seq<Interface>) -> bool {
    forall|i: int, j: int|
        0 <= i < j < all.len() ==> (#[trigger] all[i]).name@ != (#[trigger] all[j]).name@
}

proof fn lemma_rate_of_last(before: Option<NetIoPrev>, all: Seq<Interface>, now: u64, k: int)
    requires
        0 <= k < all.len(),
        all[k].name@ != "lo"@,
        forall|j: int| k < j < all.len() ==> (#[trigger] all[j]).name@ != all[k].name@,
    ensures
        rates_map(before, all, now).contains_key(all[k].name@),
        rates_map(before, all, now)[all[k].name@] == interface_rate(before, all[k], now),
    decreases all.len(),
{
    if k < all.len() - 1 {
        let init = all.drop_last();
        assert(all[all.len() - 1] == all.last());
        assert forall|j: int| k < j < init.len() implies (#[trigger] init[j]).name@
            != init[k].name@ by {
            assert(init[j] == all[j]);
        }
        lemma_rate_of_last(before, init, now, k);
    }
}

/// Of interfaces with different names each has its own rate, but for loopback,
/// which has none.
pub proof fn law_each_interface_has_its_rate(
    before: Option<NetIoPrev>,
    all: Seq<Interface>,
    now: u64,
    k: int,
)
    requires
        distinct_names(all),
        0 <= k < all.len(),
    ensures
        all[k].name@ != "lo"@ ==> {
            &&& rates_map(before, all, now).contains_key(all[k].name@)
            &&& rates_map(before, all, now)[all[k].name@] == interface_rate(before, all[k], now)
        },
        !rates_map(before, all, now).contains_key("lo"@),
    decreases all.len(),
{
    if all[k].name@ != "lo"@ {
        lemma_rate_of_last(before, all, now, k);
    }
    lemma_no_loopback_rate(before, all, now);
}

proof fn lemma_no_loopback_rate(before: Option<NetIoPrev>, all: Seq<Interface>, now: u64)
    ensures
        !rates_map(before, all, now).contains_key("lo"@),
    decreases all.len(),
{
    if all.len() > 0 {
        lemma_no_loopback_rate(before, all.drop_last(), now);
    }
}

/// Whether `b` is `a` without the loopback interface at position `k`.
pub open spec fn without_loopback(a: Seq<Interface>, b: Seq<Interface>, k: int) -> bool {
    &&& 0 <= k < a.len()
    &&& a[k].name@ == "lo"@
    &&& b == a.remove(k)
}

/// What loopback carries does not count as traffic.
pub proof fn law_loopback_is_left_out(a: Seq<Interface>, b: Seq<Interface>, k: int)
    requires
        without_loopback(a, b, k),
    ensures
        received_total(a) == received_total(b),
        sent_total(a) == sent_total(b),
        counters_map(a) == counters_map(b),
    decreases a.len(),
{
    if k == a.len() - 1 {
        assert(b =~= a.drop_last());
    } else {
        assert(a.remove(k).drop_last() =~= a.drop_last().remove(k));
        assert(b.last() == a.last());
        law_loopback_is_left_out(a.drop_last(), b.drop_last(), k);
    }
}

/// The names of the interfaces, in order.
pub fn interface_names(all: &Vec<Interface>) -> (r: Vec<String>)
    ensures
        texts(r@) == Seq::new(all@.len(), |i: int| all@[i].name@),
{
    let mut out: Vec<String> = Vec::new();
    let mut i: usize = 0;
    while i < all.len()
        invariant
            i <= all.len(),
            out.len() == i,
            forall|k: int| 0 <= k < i ==> (#[trigger] out@[k])@ == all@[k].name@,
        decreases all.len() - i,
    {
        out.push(all[i].name.clone());
        i += 1;
    }
    assert(texts(out@) =~= Seq::new(all@.len(), |i: int| all@[i].name@));
    out
}

/// Packets dropped on receipt and on sending.
#[derive(Clone, Copy)]
pub struct Drops {
    pub received: u64,
    pub sent: u64,
}

/// The dropped packets that the rows of `/proc/net/dev` report: columns 3 and
/// 11 after the name and its colon; a later row of the same name overrides.
pub open spec fn drops_reported(rows: Seq<Seq<char>>) -> Map<Seq<char>, Drops>
    decreases rows.len(),
{
    if rows.len() == 0 {
        Map::empty()
    } else {
        let before = drops_reported(rows.drop_last());
        match cut_at(rows.last(), ':') {
            Some(parts) => {
                let fields = words_of(parts.1);
                if fields.len() >= 12 {
                    before.insert(
                        strip_both(parts.0, Class::Space),
                        Drops { received: cell(fields, 3), sent: cell(fields, 11) },
                    )
                } else {
                    before
                }
            },
            None => before,
        }
    }
}

/// The rows of `/proc/net/dev` without its two header lines.
pub open spec fn body(rows: Seq<Seq<char>>) -> Seq<Seq<char>> {
    if rows.len() <= 2 {
        Seq::empty()
    } else {
        rows.skip(2)
    }
}

/// Reads the dropped packets from the text of `/proc/net/dev`.
pub fn read_proc_net_drops(raw: &str) -> (r: NameMap<Drops>)
    ensures
        r.wf(),
        r@ == drops_reported(body(lines_of(raw@))),
{
    let rows = lines(raw);
    let ghost all = body(texts(rows@));
    let mut out: NameMap<Drops> = NameMap::new();
    let mut i: usize = 2;
    assert(all.take(0) =~= Seq::<Seq<char>>::empty());
    while i < rows.len()
        invariant
            2 <= i,
            rows.len() >= 2 ==> i <= rows.len(),
            rows.len() < 2 ==> i == 2,
            all == body(texts(rows@)),
            out.wf(),
            out@ == drops_reported(all.take(i - 2)),
        decreases rows.len() - i,
    {
        assert(all.take(i - 2 + 1).drop_last() =~= all.take(i - 2));
        assert(all.take(i - 2 + 1).last() == rows@[i as int]@);
        match split_once(rows[i].as_str(), ':') {
            Some(parts) => {
                let fields = words(parts.1.as_str());
                assert(words_of(parts.1@).len() == fields.len());
                if fields.len() >= 12 {
                    let drops = Drops {
                        received: read_cell(&fields, 3),
                        sent: read_cell(&fields, 11),
                    };
                    out.insert(trim(parts.0.as_str()), drops);
                }
            },
            None => {},
        }
        i += 1;
    }
    assert(all.take(i - 2) =~= all);
    out
}

/// The counters of interface `x`, with the drops reported for its name.
pub open spec fn stats_of(x: Interface, drops: Map<Seq<char>, Drops>) -> NetIfaceStats {
    NetIfaceStats {
        bytes_sent: x.transmitted,
        bytes_received: x.received,
        pk_sent: x.packets_transmitted,
        pk_received: x.packets_received,
        error_in: x.errors_on_received,
        error_out: x.errors_on_transmitted,
        dropin: if drops.contains_key(x.name@) {
            drops[x.name@].received
        } else {
            0
        },
        dropout: if drops.contains_key(x.name@) {
            drops[x.name@].sent
        } else {
            0
        },
    }
}

/// The counters of all interfaces by name; a later interface of the same name
/// overrides.
pub open spec fn stats_map(all: Seq<Interface>, drops: Map<Seq<char>, Drops>) -> Map<
    Seq<char>,
    NetIfaceStats,
>
    decreases all.len(),
{
    if all.len() == 0 {
        Map::empty()
    } else {
        stats_map(all.drop_last(), drops).insert(all.last().name@, stats_of(all.last(), drops))
    }
}

/// The names of the statistics are those of the interfaces.
pub proof fn lemma_stats_names(all: Seq<Interface>, drops: Map<Seq<char>, Drops>)
    ensures
        stats_map(all, drops).dom() == Seq::new(all.len(), |i: int| all[i].name@).to_set(),
    decreases all.len(),
{
    let names = Seq::new(all.len(), |i: int| all[i].name@);
    if all.len() == 0 {
        assert(stats_map(all, drops).dom() =~= names.to_set());
    } else {
        let init = all.drop_last();
        let before = Seq::new(init.len(), |i: int| init[i].name@);
        lemma_stats_names(init, drops);
        assert(names =~= before.push(all.last().name@));
        assert forall|k: Seq<char>| stats_map(all, drops).dom().contains(k)
            <==> names.to_set().contains(k) by {
            if before.to_set().contains(k) {
                let j = choose|j: int| 0 <= j < before.len() && before[j] == k;
                assert(names[j] == k);
            }
            if names.contains(k) {
                let j = choose|j: int| 0 <= j < names.len() && names[j] == k;
                if j < before.len() {
                    assert(before[j] == k);
                }
            }
            assert(names[before.len() as int] == all.last().name@);
        }
        assert(stats_map(all, drops).dom() =~= names.to_set());
    }
}

/// The dropped packets in the text of `/proc/net/dev`; none without it.
pub open spec fn drops_in(net_dev: Option<Seq<char>>) -> Map<Seq<char>, Drops> {
    match net_dev {
        Some(raw) => drops_reported(body(lines_of(raw))),
        None => Map::empty(),
    }
}

/// Lists the counters of every interface. Dropped packets are taken from the
/// text of `/proc/net/dev`, and are 0 without it.
pub fn statistics(all: &Vec<Interface>, net_dev: Option<&str>) -> (r: NameMap<NetIfaceStats>)
    ensures
        r.wf(),
        r@ == stats_map(all@, drops_in(slice_text(net_dev))),
{
    let drops = match net_dev {
        Some(raw) => read_proc_net_drops(raw),
        None => NameMap::new(),
    };
    let mut out: NameMap<NetIfaceStats> = NameMap::new();
    let mut i: usize = 0;
    assert(all@.take(0) =~= Seq::<Interface>::empty());
    while i < all.len()
        invariant
            i <= all.len(),
            drops.wf(),
            out.wf(),
            out@ == stats_map(all@.take(i as int), drops@),
        decreases all.len() - i,
    {
        let x = &all[i];
        assert(all@.take(i as int + 1).drop_last() =~= all@.take(i as int));
        let lost = match drops.get(x.name.as_str()) {
            Some(d) => *d,
            None => Drops { received: 0, sent: 0 },
        };
        out.insert(
            x.name.clone(),
            NetIfaceStats {
                bytes_sent: x.transmitted,
                bytes_received: x.received,
                pk_sent: x.packets_transmitted,
                pk_received: x.packets_received,
                error_in: x.errors_on_received,
                error_out: x.errors_on_transmitted,
                dropin: lost.received,
                dropout: lost.sent,
            },
        );
        i += 1;
    }
    assert(all@.take(all.len() as int) =~= all@);
    out
}

/// A further interface adds what it received and sent to the totals, up to the
/// largest number, unless it is `lo`, and is counted under its own name.
pub proof fn law_an_interface_adds_its_traffic(all: Seq<Interface>, x: Interface)
    ensures
        received_total(Seq::empty()) == 0,
        sent_total(Seq::empty()) == 0,
        x.name@ == "lo"@ ==> {
            &&& received_total(all.push(x)) == received_total(all)
            &&& sent_total(all.push(x)) == sent_total(all)
            &&& counters_map(all.push(x)) == counters_map(all)
        },
        x.name@ != "lo"@ ==> {
            &&& received_total(all.push(x)) == least(received_total(all) + x.received)
            &&& sent_total(all.push(x)) == least(sent_total(all) + x.transmitted)
            &&& counters_map(all.push(x)).contains_key(x.name@)
            &&& counters_map(all.push(x))[x.name@].received == x.received
            &&& counters_map(all.push(x))[x.name@].transmitted == x.transmitted
            &&& forall|n: Seq<char>|
                n != x.name@ ==> (#[trigger] counters_map(all.push(x)).contains_key(n)
                    <==> counters_map(all).contains_key(n)) && counters_map(all.push(x))[n]
                    == counters_map(all)[n]
        },
{
    assert(all.push(x).drop_last() =~= all);
}

/// `n`, but no more than the largest `u64`.
pub open spec fn least(n: int) -> int {
    if n <= u64::MAX {
        n
    } else {
        u64::MAX as int
    }
}

/// Rates over all interfaces are what the totals grew by per second, rounded to
/// the nearest: what was received and what was sent, each its own.
pub proof fn law_network_rates(p: NetIoPrev, recv: u64, sent: u64, now: u64)
    ensures
        now > p.at && recv >= p.recv ==> nearest(
            throughput(Some(p), recv, sent, now).rx_bytes_per_sec,
            recv - p.recv,
            now - p.at,
        ),
        now > p.at && sent >= p.sent ==> nearest(
            throughput(Some(p), recv, sent, now).tx_bytes_per_sec,
            sent - p.sent,
            now - p.at,
        ),
        recv <= p.recv || now <= p.at ==> throughput(
            Some(p),
            recv,
            sent,
            now,
        ).rx_bytes_per_sec == 0,
        sent <= p.sent || now <= p.at ==> throughput(
            Some(p),
            recv,
            sent,
            now,
        ).tx_bytes_per_sec == 0,
        throughput(None, recv, sent, now).rx_bytes_per_sec == 0,
        throughput(None, recv, sent, now).tx_bytes_per_sec == 0,
{
    if now > p.at {
        let n = (now - p.at) as nat;
        law_no_growth_no_rate(n);
        if recv >= p.recv {
            law_nearest_rate((recv - p.recv) as nat, n);
        }
        if sent >= p.sent {
            law_nearest_rate((sent - p.sent) as nat, n);
        }
    }
}

/// The rates of an interface are those of its own counters, and zeros where the
/// reading before does not know it.
pub proof fn law_interface_rates(p: NetIoPrev, x: Interface, now: u64)
    ensures
        ({
            let t = interface_rate(Some(p), x, now);
            let c = p.by_name@[x.name@];
            let known = p.by_name@.contains_key(x.name@) && now > p.at;
            &&& known && x.received >= c.received ==> nearest(
                t.rx_bytes_per_sec,
                x.received - c.received,
                now - p.at,
            )
            &&& known && x.transmitted >= c.transmitted ==> nearest(
                t.tx_bytes_per_sec,
                x.transmitted - c.transmitted,
                now - p.at,
            )
            &&& !known || x.received <= c.received ==> t.rx_bytes_per_sec == 0
            &&& !known || x.transmitted <= c.transmitted ==> t.tx_bytes_per_sec == 0
        }),
        interface_rate(None, x, now).rx_bytes_per_sec == 0,
        interface_rate(None, x, now).tx_bytes_per_sec == 0,
{
    if now > p.at {
        let n = (now - p.at) as nat;
        let c = p.by_name@[x.name@];
        law_no_growth_no_rate(n);
        if x.received >= c.received {
            law_nearest_rate((x.received - c.received) as nat, n);
        }
        if x.transmitted >= c.transmitted {
            law_nearest_rate((x.transmitted - c.transmitted) as nat, n);
        }
    }
}

/// A row of dropped packets: a name up to the first colon, then at least twelve
/// columns, of which the fourth and the twelfth count. A row without a colon or
/// with fewer columns says nothing.
pub proof fn law_rows_of_drops(
    rows: Seq<Seq<char>>,
    name: Seq<char>,
    rest: Seq<char>,
    other: Seq<char>,
)
    requires
        !name.contains(':'),
        !other.contains(':'),
    ensures
        ({
            let row = name.push(':') + rest;
            let before = drops_reported(rows);
            let after = drops_reported(rows.push(row));
            let key = strip_both(name, Class::Space);
            &&& words_of(rest).len() >= 12 ==> {
                &&& after.contains_key(key)
                &&& after[key].received == cell(words_of(rest), 3)
                &&& after[key].sent == cell(words_of(rest), 11)
                &&& forall|n: Seq<char>|
                    n != key ==> (#[trigger] after.contains_key(n) <==> before.contains_key(n))
                        && after[n] == before[n]
            }
            &&& words_of(rest).len() < 12 ==> after == before
        }),
        drops_reported(rows.push(other)) == drops_reported(rows),
        drops_reported(Seq::empty()) == Map::<Seq<char>, Drops>::empty(),
{
    let row = name.push(':') + rest;
    assert(rows.push(row).drop_last() =~= rows);
    assert(rows.push(other).drop_last() =~= rows);
    crate::text::law_cut_at_first(name, ':', rest);
    crate::text::law_cut_at_first(other, ':', Seq::empty());
}

/// The first two lines are headings; every later one counts.
pub proof fn law_two_headings(a: Seq<char>, b: Seq<char>, rows: Seq<Seq<char>>)
    ensures
        body(seq![a, b] + rows) == rows,
        body(seq![a]) == Seq::<Seq<char>>::empty(),
        body(Seq::empty()) == Seq::<Seq<char>>::empty(),
        drops_in(None) == Map::<Seq<char>, Drops>::empty(),
{
    assert((seq![a, b] + rows).skip(2) =~= rows);
    if rows.len() == 0 {
        assert(rows =~= Seq::<Seq<char>>::empty());
    }
}

/// The counters of an interface are shown each under its own heading, with the
/// packets dropped that are reported for its name, and zeros where none are.
pub proof fn law_interface_counters(
    all: Seq<Interface>,
    x: Interface,
    drops: Map<Seq<char>, Drops>,
)
    ensures
        ({
            let m = stats_map(all.push(x), drops);
            let s = m[x.name@];
            &&& m.contains_key(x.name@)
            &&& s.bytes_sent == x.transmitted
            &&& s.bytes_received == x.received
            &&& s.pk_sent == x.packets_transmitted
            &&& s.pk_received == x.packets_received
            &&& s.error_in == x.errors_on_received
            &&& s.error_out == x.errors_on_transmitted
            &&& drops.contains_key(x.name@) ==> s.dropin == drops[x.name@].received && s.dropout
                == drops[x.name@].sent
            &&& !drops.contains_key(x.name@) ==> s.dropin == 0 && s.dropout == 0
            &&& forall|n: Seq<char>|
                n != x.name@ ==> (#[trigger] m.contains_key(n) <==> stats_map(
                    all,
                    drops,
                ).contains_key(n)) && m[n] == stats_map(all, drops)[n]
        }),
{
    assert(all.push(x).drop_last() =~= all);
}

/// A reading holds its time, the totals, and the counters by name.
pub proof fn law_reading_of_interfaces(p: NetIoPrev, all: Seq<Interface>, now: u64)
    requires
        reads(p, all, now),
    ensures
        p.at == now,
        p.recv == received_total(all),
        p.sent == sent_total(all),
        p.by_name@ == counters_map(all),
{
}

} // verus!
