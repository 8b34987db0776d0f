//! Collections keyed by text: a set, an ordered set, and a map.

use crate::text::{chars_of, same, texts};
use vstd::prelude::*;

verus! {

/// Whether `a` comes before `b` in the order of code points, position by
/// position. UTF-8 keeps that order, so it is also the order of `String`.
pub open spec fn precedes(a: Seq<char>, b: Seq<char>) -> bool
    decreases a.len(),
{
    if b.len() == 0 {
        false
    } else if a.len() == 0 {
        true
    } else {
        a[0] < b[0] || (a[0] == b[0] && precedes(a.skip(1), b.skip(1)))
    }
}

proof fn lemma_precedes_total(a: Seq<char>, b: Seq<char>)
    ensures
        a == b || precedes(a, b) || precedes(b, a),
        !(precedes(a, b) && precedes(b, a)),
        !precedes(a, a),
    decreases a.len(),
{
    if a.len() > 0 {
        lemma_precedes_total(a.skip(1), a.skip(1));
        if b.len() > 0 && a[0] == b[0] {
            lemma_precedes_total(a.skip(1), b.skip(1));
            if a.skip(1) == b.skip(1) {
                assert(a =~= b) by {
                    assert forall|i: int| 0 <= i < a.len() && a.len() == b.len() implies a[i]
                        == b[i] by {
                        if i > 0 {
                            assert(a[i] == a.skip(1)[i - 1]);
                            assert(b[i] == b.skip(1)[i - 1]);
                        }
                    }
                    assert(a.skip(1).len() == b.skip(1).len());
                }
            }
        }
    } else if b.len() == 0 {
        assert(a =~= b);
    }
}

proof fn lemma_precedes_trans(a: Seq<char>, b: Seq<char>, c: Seq<char>)
    requires
        precedes(a, b),
        precedes(b, c),
    ensures
        precedes(a, c),
    decreases a.len(),
{
    if a.len() > 0 && a[0] == b[0] && b[0] == c[0] {
        lemma_precedes_trans(a.skip(1), b.skip(1), c.skip(1));
    }
}

/// Whether `a` comes before `b`.
pub fn before(a: &str, b: &str) -> (r: bool)
    ensures
        r == precedes(a@, b@),
{
    let xs = chars_of(a);
    let ys = chars_of(b);
    let mut i: usize = 0;
    assert(xs@.skip(0) =~= xs@);
    assert(ys@.skip(0) =~= ys@);
    while i < xs.len() && i < ys.len() && xs[i] == ys[i]
        invariant
            i <= xs.len(),
            i <= ys.len(),
            precedes(xs@.skip(i as int), ys@.skip(i as int)) == precedes(xs@, ys@),
        decreases xs.len() - i,
    {
        assert(xs@.skip(i as int).skip(1) =~= xs@.skip(i as int + 1));
        assert(ys@.skip(i as int).skip(1) =~= ys@.skip(i as int + 1));
        i += 1;
    }
    i < ys.len() && (i == xs.len() || xs[i] < ys[i])
}

/// The texts of `v`, with `sep` between neighbours.
pub open spec fn joined(v: Seq<Seq<char>>, sep: Seq<char>) -> Seq<char>
    decreases v.len(),
{
    if v.len() == 0 {
        Seq::empty()
    } else if v.len() == 1 {
        v[0]
    } else {
        joined(v.drop_last(), sep) + sep + v.last()
    }
}

/// Joins `items` with `sep` between neighbours.
pub fn join(items: &Vec<String>, sep: &str) -> (r: String)
    ensures
        r@ == joined(texts(items@), sep@),
{
    let ghost all = texts(items@);
    let mut out = String::new();
    let mut i: usize = 0;
    while i < items.len()
        invariant
            i <= items.len(),
            all == texts(items@),
            out@ == joined(all.take(i as int), sep@),
        decreases items.len() - i,
    {
        assert(all.take(i as int + 1).drop_last() =~= all.take(i as int));
        if i > 0 {
            out.append(sep);
        }
        out.append(items[i].as_str());
        i += 1;
        assert(out@ =~= joined(all.take(i as int), sep@));
    }
    assert(all.take(items.len() as int) =~= all);
    out
}

/// A set of names.
pub struct NameSet {
    items: Vec<String>,
}

impl View for NameSet {
    type V = Set<Seq<char>>;

    closed spec fn view(&self) -> Set<Seq<char>> {
        texts(self.items@).to_set()
    }
}

impl NameSet {
    /// No name is held twice.
    pub closed spec fn wf(&self) -> bool {
        texts(self.items@).no_duplicates()
    }

    pub fn new() -> (r: NameSet)
        ensures
            r.wf(),
            r@ == Set::<Seq<char>>::empty(),
    {
        let r = NameSet { items: Vec::new() };
        assert(r@ =~= Set::<Seq<char>>::empty());
        r
    }

    fn position(&self, name: &str) -> (r: Option<usize>)
        ensures
            match r {
                Some(i) => i < self.items.len() && self.items@[i as int]@ == name@ && self@.contains(
                    name@,
                ),
                None => !self@.contains(name@),
            },
    {
        let mut i: usize = 0;
        while i < self.items.len()
            invariant
                i <= self.items.len(),
                forall|j: int| 0 <= j < i ==> (#[trigger] self.items@[j])@ != name@,
            decreases self.items.len() - i,
        {
            if same(self.items[i].as_str(), name) {
                assert(texts(self.items@)[i as int] == name@);
                return Some(i);
            }
            i += 1;
        }
        assert(!self@.contains(name@)) by {
            if self@.contains(name@) {
                let k = choose|k: int|
                    0 <= k < texts(self.items@).len() && texts(self.items@)[k] == name@;
                assert(self.items@[k]@ == name@);
            }
        }
        None
    }

    /// Whether `name` is in the set.
    pub fn contains(&self, name: &str) -> (r: bool)
        ensures
            r == self@.contains(name@),
    {
        match self.position(name) {
            Some(_) => true,
            None => false,
        }
    }

    /// The number of names in the set.
    pub fn len(&self) -> (r: usize)
        requires
            self.wf(),
        ensures
            r == self@.len(),
    {
        proof {
            texts(self.items@).unique_seq_to_set();
        }
        self.items.len()
    }

    /// Adds `name`.
    pub fn insert(&mut self, name: String)
        requires
            old(self).wf(),
        ensures
            final(self).wf(),
            final(self)@ == old(self)@.insert(name@),
    {
        match self.position(name.as_str()) {
            Some(_) => {
                assert(self@ =~= old(self)@.insert(name@));
            },
            None => {
                let ghost was = texts(self.items@);
                let ghost key = name@;
                self.items.push(name);
                assert(texts(self.items@) =~= was.push(key));
                assert(self@ =~= old(self)@.insert(key)) by {
                    assert forall|k: Seq<char>| self@.contains(k) <==> old(self)@.insert(
                        key,
                    ).contains(k) by {
                        if old(self)@.contains(k) {
                            let j = choose|j: int| 0 <= j < was.len() && was[j] == k;
                            assert(was.push(key)[j] == k);
                        }
                        if k == key {
                            assert(was.push(key)[was.len() as int] == k);
                        }
                    }
                }
                assert(texts(self.items@).no_duplicates()) by {
                    assert forall|i: int, j: int|
                        0 <= i < was.push(key).len() && 0 <= j < was.push(key).len() && i
                            != j implies was.push(key)[i] != was.push(key)[j] by {
                        if i < was.len() {
                            assert(old(self)@.contains(was[i]));
                        }
                        if j < was.len() {
                            assert(old(self)@.contains(was[j]));
                        }
                    }
                }
            },
        }
    }

    /// Removes `name`; says whether it was there.
    pub fn remove(&mut self, name: &str) -> (r: bool)
        requires
            old(self).wf(),
        ensures
            final(self).wf(),
            r == old(self)@.contains(name@),
            final(self)@ == old(self)@.remove(name@),
    {
        match self.position(name) {
            Some(i) => {
                let ghost was = texts(self.items@);
                let _gone = self.items.remove(i);
                let ghost now = texts(self.items@);
                assert(now =~= was.remove(i as int));
                assert(was[i as int] == name@);
                assert(self@ =~= old(self)@.remove(name@)) by {
                    assert forall|k: Seq<char>| self@.contains(k) <==> old(self)@.remove(
                        name@,
                    ).contains(k) by {
                        if self@.contains(k) {
                            let j = choose|j: int| 0 <= j < now.len() && now[j] == k;
                            if j < i {
                                assert(was[j] == k);
                            } else {
                                assert(was[j + 1] == k);
                            }
                        }
                        if old(self)@.remove(name@).contains(k) {
                            let j = choose|j: int| 0 <= j < was.len() && was[j] == k;
                            if j < i {
                                assert(now[j] == k);
                            } else {
                                assert(now[j - 1] == k);
                            }
                        }
                    }
                }
                true
            },
            None => {
                assert(self@ =~= old(self)@.remove(name@));
                false
            },
        }
    }
}

/// A set of names kept in order.
pub struct OrderedNames {
    items: Vec<String>,
}

/// Whether `v` is strictly increasing.
pub open spec fn increasing(v: Seq<Seq<char>>) -> bool {
    forall|i: int, j: int| 0 <= i < j < v.len() ==> precedes(#[trigger] v[i], #[trigger] v[j])
}

impl View for OrderedNames {
    type V = Seq<Seq<char>>;

    closed spec fn view(&self) -> Seq<Seq<char>> {
        texts(self.items@)
    }
}

impl OrderedNames {
    pub fn new() -> (r: OrderedNames)
        ensures
            r@ == Seq::<Seq<char>>::empty(),
    {
        let r = OrderedNames { items: Vec::new() };
        assert(r@ =~= Seq::<Seq<char>>::empty());
        r
    }

    /// Adds `name` at its place, unless it is there.
    pub fn insert(&mut self, name: String)
        requires
            increasing(old(self)@),
        ensures
            increasing(final(self)@),
            final(self)@.to_set() == old(self)@.to_set().insert(name@),
    {
        let ghost was = self@;
        let mut i: usize = 0;
        while i < self.items.len() && before(self.items[i].as_str(), name.as_str())
            invariant
                i <= self.items.len(),
                self@ == was,
                forall|j: int| 0 <= j < i ==> precedes(#[trigger] was[j], name@),
            decreases self.items.len() - i,
        {
            assert(was[i as int] == self.items@[i as int]@);
            i += 1;
        }
        if i < self.items.len() {
            assert(was[i as int] == self.items@[i as int]@);
            if same(self.items[i].as_str(), name.as_str()) {
                assert(was.to_set() =~= was.to_set().insert(name@)) by {
                    assert(was.to_set().contains(was[i as int]));
                }
                return ;
            }
            proof {
                lemma_precedes_total(was[i as int], name@);
            }
        }
        let ghost key = name@;
        self.items.insert(i, name);
        let ghost now = self@;
        assert(now =~= was.insert(i as int, key));
        assert(increasing(now)) by {
            assert forall|a: int, b: int| 0 <= a < b < now.len() implies precedes(
                #[trigger] now[a],
                #[trigger] now[b],
            ) by {
                let x = if a < i {
                    a
                } else {
                    a - 1
                };
                let y = if b < i {
                    b
                } else {
                    b - 1
                };
                if a == i {
                    assert(now[b] == was[y]);
                    if y > i {
                        assert(precedes(was[i as int], was[y]));
                        lemma_precedes_trans(key, was[i as int], was[y]);
                    }
                } else if b == i {
                    assert(now[a] == was[x]);
                } else {
                    assert(now[a] == was[x] && now[b] == was[y]);
                }
            }
        }
        assert(now.to_set() =~= was.to_set().insert(key)) by {
            assert forall|k: Seq<char>| now.to_set().contains(k) <==> was.to_set().insert(
                key,
            ).contains(k) by {
                if now.to_set().contains(k) {
                    let j = choose|j: int| 0 <= j < now.len() && now[j] == k;
                    if j < i {
                        assert(was[j] == k);
                    } else if j > i {
                        assert(was[j - 1] == k);
                    }
                }
                if was.to_set().contains(k) {
                    let j = choose|j: int| 0 <= j < was.len() && was[j] == k;
                    if j < i {
                        assert(now[j] == k);
                    } else {
                        assert(now[j + 1] == k);
                    }
                }
                assert(now[i as int] == key);
            }
        }
    }

    /// The names in order, with `sep` between neighbours.
    pub fn join(&self, sep: &str) -> (r: String)
        ensures
            r@ == joined(self@, sep@),
    {
        join(&self.items, sep)
    }
}

/// The map that a list of pairs describes; a later pair overrides an earlier.
pub open spec fn map_of<V>(pairs: Seq<(String, V)>) -> Map<Seq<char>, V>
    decreases pairs.len(),
{
    if pairs.len() == 0 {
        Map::empty()
    } else {
        map_of(pairs.drop_last()).insert(pairs.last().0@, pairs.last().1)
    }
}

/// Whether no two pairs share a key.
pub open spec fn distinct_keys<V>(pairs: Seq<(String, V)>) -> bool {
    forall|i: int, j: int|
        0 <= i < j < pairs.len() ==> (#[trigger] pairs[i]).0@ != (#[trigger] pairs[j]).0@
}

/// A pair of a list without repeated keys is in the map.
pub proof fn lemma_map_has<V>(pairs: Seq<(String, V)>, i: int)
    requires
        distinct_keys(pairs),
        0 <= i < pairs.len(),
    ensures
        map_of(pairs).contains_key(pairs[i].0@),
        map_of(pairs)[pairs[i].0@] == pairs[i].1,
    decreases pairs.len(),
{
    if i < pairs.len() - 1 {
        lemma_map_has(pairs.drop_last(), i);
        assert(pairs.drop_last()[i] == pairs[i]);
    }
}

/// A key of the map belongs to some pair.
pub proof fn lemma_map_key<V>(pairs: Seq<(String, V)>, key: Seq<char>) -> (i: int)
    requires
        map_of(pairs).contains_key(key),
    ensures
        0 <= i < pairs.len(),
        pairs[i].0@ == key,
    decreases pairs.len(),
{
    if pairs.last().0@ == key {
        pairs.len() - 1
    } else {
        lemma_map_key(pairs.drop_last(), key)
    }
}

proof fn lemma_map_update<V>(pairs: Seq<(String, V)>, i: int, v: V)
    requires
        distinct_keys(pairs),
        0 <= i < pairs.len(),
    ensures
        map_of(pairs.update(i, (pairs[i].0, v))) == map_of(pairs).insert(pairs[i].0@, v),
    decreases pairs.len(),
{
    let now = pairs.update(i, (pairs[i].0, v));
    if i == pairs.len() - 1 {
        assert(now.drop_last() =~= pairs.drop_last());
        assert(map_of(now) =~= map_of(pairs).insert(pairs[i].0@, v));
    } else {
        let init = pairs.drop_last();
        lemma_map_update(init, i, v);
        assert(now.drop_last() =~= init.update(i, (init[i].0, v)));
        assert(pairs[i].0@ != pairs.last().0@);
        assert(map_of(now) =~= map_of(pairs).insert(pairs[i].0@, v));
    }
}

/// A map from names to values.
pub struct NameMap<V> {
    pairs: Vec<(String, V)>,
}

impl<V> View for NameMap<V> {
    type V = Map<Seq<char>, V>;

    closed spec fn view(&self) -> Map<Seq<char>, V> {
        map_of(self.pairs@)
    }
}

impl<V> NameMap<V> {
    /// No key is held twice.
    pub closed spec fn wf(&self) -> bool {
        distinct_keys(self.pairs@)
    }

    /// The pairs held, in the order in which their keys first came.
    pub closed spec fn listing(&self) -> Seq<(String, V)> {
        self.pairs@
    }

    pub fn new() -> (r: NameMap<V>)
        ensures
            r.wf(),
            r@ == Map::<Seq<char>, V>::empty(),
            r.listing() == Seq::<(String, V)>::empty(),
    {
        NameMap { pairs: Vec::new() }
    }

    fn position(&self, key: &str) -> (r: Option<usize>)
        requires
            self.wf(),
        ensures
            match r {
                Some(i) => i < self.pairs.len() && self.pairs@[i as int].0@ == key@,
                None => !self@.contains_key(key@),
            },
    {
        let mut i: usize = 0;
        while i < self.pairs.len()
            invariant
                i <= self.pairs.len(),
                forall|j: int| 0 <= j < i ==> (#[trigger] self.pairs@[j]).0@ != key@,
            decreases self.pairs.len() - i,
        {
            if same(self.pairs[i].0.as_str(), key) {
                return Some(i);
            }
            i += 1;
        }
        proof {
            if self@.contains_key(key@) {
                let k = lemma_map_key(self.pairs@, key@);
            }
        }
        None
    }

    /// The value held for `key`.
    pub fn get(&self, key: &str) -> (r: Option<&V>)
        ensures
            match r {
                Some(v) => self@.contains_key(key@) && *v == self@[key@],
                None => !self@.contains_key(key@),
            },
    {
        let mut i: usize = self.pairs.len();
        assert(self.pairs@.take(i as int) =~= self.pairs@);
        while i > 0
            invariant
                i <= self.pairs.len(),
                self@.contains_key(key@) == map_of(self.pairs@.take(i as int)).contains_key(key@),
                self@.contains_key(key@) ==> self@[key@] == map_of(
                    self.pairs@.take(i as int),
                )[key@],
            decreases i,
        {
            i -= 1;
            assert(self.pairs@.take(i as int + 1).drop_last() =~= self.pairs@.take(i as int));
            if same(self.pairs[i].0.as_str(), key) {
                return Some(&self.pairs[i].1);
            }
        }
        None
    }

    /// Sets the value held for `key`.
    pub fn insert(&mut self, key: String, value: V)
        requires
            old(self).wf(),
        ensures
            final(self).wf(),
            final(self)@ == old(self)@.insert(key@, value),
    {
        match self.position(key.as_str()) {
            Some(i) => {
                let ghost was = self.pairs@;
                let name = self.pairs[i].0.clone();
                proof {
                    lemma_map_update(was, i as int, value);
                }
                self.pairs.set(i, (name, value));
                assert(self.pairs@ =~= was.update(i as int, (was[i as int].0, value)));
            },
            None => {
                let ghost was = self.pairs@;
                self.pairs.push((key, value));
                assert(self.pairs@.drop_last() =~= was);
                assert forall|i: int, j: int| 0 <= i < j < self.pairs@.len() implies (
                #[trigger] self.pairs@[i]).0@ != (#[trigger] self.pairs@[j]).0@ by {
                    if j == was.len() {
                        lemma_map_has(was, i);
                        assert(was[i] == self.pairs@[i]);
                    } else {
                        assert(was[i] == self.pairs@[i]);
                        assert(was[j] == self.pairs@[j]);
                    }
                }
            },
        }
    }

    /// Whether the map holds nothing.
    pub fn is_empty(&self) -> (r: bool)
        ensures
            r <==> self@ == Map::<Seq<char>, V>::empty(),
    {
        proof {
            if self.pairs.len() > 0 {
                assert(self@.contains_key(self.pairs@.last().0@));
                assert(!Map::<Seq<char>, V>::empty().contains_key(self.pairs@.last().0@));
            }
        }
        self.pairs.len() == 0
    }

    /// The pairs held, one per key.
    pub fn pairs(&self) -> (r: &Vec<(String, V)>)
        requires
            self.wf(),
        ensures
            r@ == self.listing(),
            distinct_keys(r@),
            map_of(r@) == self@,
    {
        &self.pairs
    }
}

/// Names can be put in order in one way only: two strictly increasing sequences
/// with the same elements are equal.
pub proof fn law_order_is_unique(a: Seq<Seq<char>>, b: Seq<Seq<char>>)
    requires
        increasing(a),
        increasing(b),
        a.to_set() == b.to_set(),
    ensures
        a == b,
    decreases a.len(),
{
    if a.len() == 0 {
        if b.len() > 0 {
            assert(b.to_set().contains(b[0]));
            assert(a.to_set().contains(b[0]));
        }
        assert(a =~= b);
    } else {
        assert(a.to_set().contains(a[0]));
        assert(b.to_set().contains(a[0]));
        let p = choose|p: int| 0 <= p < b.len() && b[p] == a[0];
        assert(b.to_set().contains(b[0]));
        assert(a.to_set().contains(b[0]));
        let q = choose|q: int| 0 <= q < a.len() && a[q] == b[0];
        lemma_precedes_total(a[0], b[0]);
        if p > 0 && q > 0 {
            assert(precedes(b[0], b[p]));
            assert(precedes(a[0], a[q]));
        }
        assert(a[0] == b[0]);
        let x = a.skip(1);
        let y = b.skip(1);
        assert(increasing(x)) by {
            assert forall|i: int, j: int| 0 <= i < j < x.len() implies precedes(
                #[trigger] x[i],
                #[trigger] x[j],
            ) by {
                assert(precedes(a[i + 1], a[j + 1]));
            }
        }
        assert(increasing(y)) by {
            assert forall|i: int, j: int| 0 <= i < j < y.len() implies precedes(
                #[trigger] y[i],
                #[trigger] y[j],
            ) by {
                assert(precedes(b[i + 1], b[j + 1]));
            }
        }
        assert(x.to_set() =~= y.to_set()) by {
            assert forall|k: Seq<char>| x.to_set().contains(k) <==> y.to_set().contains(k) by {
                lemma_precedes_total(a[0], a[0]);
                if x.to_set().contains(k) {
                    let i = choose|i: int| 0 <= i < x.len() && x[i] == k;
                    assert(a[i + 1] == k);
                    assert(precedes(a[0], a[i + 1]));
                    assert(a.to_set().contains(k));
                    assert(b.to_set().contains(k));
                    let j = choose|j: int| 0 <= j < b.len() && b[j] == k;
                    assert(y[j - 1] == k);
                }
                if y.to_set().contains(k) {
                    let i = choose|i: int| 0 <= i < y.len() && y[i] == k;
                    assert(b[i + 1] == k);
                    assert(precedes(b[0], b[i + 1]));
                    assert(b.to_set().contains(k));
                    assert(a.to_set().contains(k));
                    let j = choose|j: int| 0 <= j < a.len() && a[j] == k;
                    assert(x[j - 1] == k);
                }
            }
        }
        law_order_is_unique(x, y);
        assert(a =~= seq![a[0]] + x);
        assert(b =~= seq![b[0]] + y);
    }
}

/// Joining puts the separator between neighbours, and nothing before the first
/// or after the last.
pub proof fn law_joined(v: Seq<Seq<char>>, w: Seq<char>, sep: Seq<char>)
    ensures
        joined(Seq::empty(), sep) == Seq::<char>::empty(),
        joined(seq![w], sep) == w,
        v.len() > 0 ==> joined(v.push(w), sep) == joined(v, sep) + sep + w,
{
    assert(v.push(w).drop_last() =~= v);
}

/// The order of texts is that of their first different characters; a text
/// comes before every longer one that begins with it.
pub proof fn law_order_of_texts(
    common: Seq<char>,
    a: Seq<char>,
    b: Seq<char>,
)
    requires
        b.len() > 0,
    ensures
        precedes(common, common + b),
        !precedes(common + b, common),
        a.len() > 0 && a[0] < b[0] ==> precedes(common + a, common + b) && !precedes(
            common + b,
            common + a,
        ),
    decreases common.len(),
{
    if common.len() > 0 {
        let rest = common.skip(1);
        law_order_of_texts(rest, a, b);
        assert((common + a).skip(1) =~= rest + a);
        assert((common + b).skip(1) =~= rest + b);
    } else {
        assert(common + a =~= a);
        assert(common + b =~= b);
    }
}

} // verus!
