//! The command line.

use crate::names::joined;
use crate::text::{is_space, lemma_filter_push, lemma_split_nonempty, split, split_at, strip_both, strip_end, strip_start, texts, trim, Class};
use vstd::prelude::*;

verus! {

/// The arguments of the program.
pub struct Cli {
    /// The address to listen at; empty for that of the settings.
    pub address: String,
    /// The port to listen at; zero for that of the settings.
    pub port: u16,
    /// The WebSocket URL of a hub to push to.
    pub hub: Option<String>,
    /// The key that the hub issued for this host.
    pub hub_key: Option<String>,
    /// The name to advertise to the hub.
    pub hub_name: Option<String>,
    /// Tags to advertise to the hub, separated by commas.
    pub hub_tags: Option<String>,
}

/// The tags in a list separated by commas: what stands between the commas,
/// trimmed, without what is then empty.
pub open spec fn tags_in(list: Seq<char>) -> Seq<Seq<char>> {
    split_at(list, Class::One(',')).map_values(
        |piece: Seq<char>| strip_both(piece, Class::Space),
    ).filter(|tag: Seq<char>| tag.len() > 0)
}

/// The tags of an optional list.
pub open spec fn tags_of(list: Option<String>) -> Seq<Seq<char>> {
    match list {
        Some(l) => tags_in(l@),
        None => Seq::empty(),
    }
}

fn tags_from(list: &str) -> (r: Vec<String>)
    ensures
        texts(r@) == tags_in(list@),
{
    let pieces = split(list, Class::One(','));
    let ghost trimmed = split_at(list@, Class::One(',')).map_values(
        |piece: Seq<char>| strip_both(piece, Class::Space),
    );
    let ghost full = |tag: Seq<char>| tag.len() > 0;
    let mut out: Vec<String> = Vec::new();
    let mut i: usize = 0;
    reveal(Seq::filter);
    assert(texts(out@) =~= trimmed.take(0).filter(full));
    assert(texts(pieces@).len() == trimmed.len());
    while i < pieces.len()
        invariant
            i <= pieces.len(),
            pieces.len() == trimmed.len(),
            forall|j: int|
                0 <= j < trimmed.len() ==> #[trigger] trimmed[j] == strip_both(
                    pieces@[j]@,
                    Class::Space,
                ),
            full == (|tag: Seq<char>| tag.len() > 0),
            texts(out@) == trimmed.take(i as int).filter(full),
        decreases pieces.len() - i,
    {
        let tag = trim(pieces[i].as_str());
        let ghost sofar = texts(out@);
        assert(trimmed[i as int] == tag@);
        assert(trimmed.take(i as int + 1) =~= trimmed.take(i as int).push(tag@));
        proof {
            lemma_filter_push(trimmed.take(i as int), tag@, full);
        }
        let ghost shown = tag@;
        if !tag.as_str().is_empty() {
            out.push(tag);
            assert(texts(out@) =~= sofar.push(shown));
        }
        i += 1;
    }
    assert(trimmed.take(pieces.len() as int) =~= trimmed);
    out
}

impl Cli {
    /// The tags to advertise.
    pub fn parse_tags(&self) -> (r: Vec<String>)
        ensures
            texts(r@) == tags_of(self.hub_tags),
    {
        match &self.hub_tags {
            Some(list) => tags_from(list.as_str()),
            None => {
                let none: Vec<String> = Vec::new();
                assert(texts(none@) =~= Seq::<Seq<char>>::empty());
                none
            },
        }
    }
}

/// Whether `tag` can stand in a list: it is not empty, holds no comma and is
/// not surrounded by white space.
pub open spec fn clean_tag(tag: Seq<char>) -> bool {
    &&& tag.len() > 0
    &&& !tag.contains(',')
    &&& !is_space(tag[0])
    &&& !is_space(tag.last())
}

/// A piece between two commas holds no comma.
proof fn lemma_piece_has_no_comma(list: Seq<char>, k: int)
    requires
        0 <= k < split_at(list, Class::One(',')).len(),
    ensures
        !split_at(list, Class::One(','))[k].contains(','),
    decreases list.len(),
{
    if list.len() > 0 {
        let at = Class::One(',');
        let before = split_at(list.drop_last(), at);
        lemma_split_nonempty(list.drop_last(), at);
        if k < before.len() {
            lemma_piece_has_no_comma(list.drop_last(), k);
            if !at.has(list.last()) && k == before.len() - 1 {
                let piece = before.last().push(list.last());
                assert(split_at(list, at)[k] == piece);
                if piece.contains(',') {
                    let j = choose|j: int| 0 <= j < piece.len() && piece[j] == ',';
                    assert(before.last()[j] == ',');
                }
            }
        }
    }
}

proof fn lemma_strip_start(s: Seq<char>)
    ensures
        strip_start(s, Class::Space).len() > 0 ==> !is_space(strip_start(s, Class::Space)[0]),
        forall|c: char|
            #![trigger s.contains(c)]
            strip_start(s, Class::Space).contains(c) ==> s.contains(c),
    decreases s.len(),
{
    if s.len() > 0 && is_space(s[0]) {
        lemma_strip_start(s.skip(1));
        let rest = strip_start(s.skip(1), Class::Space);
        assert forall|c: char| rest.contains(c) implies s.contains(c) by {
            assert(s.skip(1).contains(c));
            let j = choose|j: int| 0 <= j < s.skip(1).len() && s.skip(1)[j] == c;
            assert(s[j + 1] == c);
        }
    }
}

proof fn lemma_strip_end(s: Seq<char>)
    ensures
        ({
            let t = strip_end(s, Class::Space);
            &&& t.len() > 0 ==> !is_space(t.last()) && t[0] == s[0]
            &&& forall|c: char| #![trigger s.contains(c)] t.contains(c) ==> s.contains(c)
        }),
    decreases s.len(),
{
    if s.len() > 0 && is_space(s.last()) {
        lemma_strip_end(s.drop_last());
        let rest = strip_end(s.drop_last(), Class::Space);
        assert forall|c: char| rest.contains(c) implies s.contains(c) by {
            assert(s.drop_last().contains(c));
            let j = choose|j: int| 0 <= j < s.drop_last().len() && s.drop_last()[j] == c;
            assert(s[j] == c);
        }
    }
}

/// What is kept of a sequence was in it.
proof fn lemma_filter_source<A>(s: Seq<A>, keep: spec_fn(A) -> bool, i: int) -> (j: int)
    requires
        0 <= i < s.filter(keep).len(),
    ensures
        0 <= j < s.len(),
        s[j] == s.filter(keep)[i],
        keep(s[j]),
    decreases s.len(),
{
    reveal(Seq::filter);
    let rest = s.drop_last().filter(keep);
    if i < rest.len() {
        lemma_filter_source(s.drop_last(), keep, i)
    } else {
        s.len() - 1
    }
}

/// Every tag of a list is clean.
pub proof fn law_tags_are_clean(list: Seq<char>, i: int)
    requires
        0 <= i < tags_in(list).len(),
    ensures
        clean_tag(tags_in(list)[i]),
{
    let pieces = split_at(list, Class::One(','));
    let trimmed = pieces.map_values(|piece: Seq<char>| strip_both(piece, Class::Space));
    let j = lemma_filter_source(trimmed, |tag: Seq<char>| tag.len() > 0, i);
    let piece = pieces[j];
    lemma_piece_has_no_comma(list, j);
    lemma_strip_start(piece);
    lemma_strip_end(strip_start(piece, Class::Space));
    let tag = tags_in(list)[i];
    assert(tag == strip_both(piece, Class::Space));
    if tag.contains(',') {
        assert(strip_start(piece, Class::Space).contains(','));
        assert(piece.contains(','));
    }
}

/// What follows the last comma is the last piece.
proof fn lemma_split_append(list: Seq<char>, tag: Seq<char>)
    requires
        !tag.contains(','),
    ensures
        split_at(list.push(',') + tag, Class::One(',')) == split_at(list, Class::One(',')).push(
            tag,
        ),
    decreases tag.len(),
{
    let at = Class::One(',');
    let all = list.push(',') + tag;
    if tag.len() == 0 {
        assert(all =~= list.push(','));
        assert(all.drop_last() =~= list);
        assert(tag =~= Seq::<char>::empty());
    } else {
        let init = tag.drop_last();
        assert(!init.contains(',')) by {
            if init.contains(',') {
                let j = choose|j: int| 0 <= j < init.len() && init[j] == ',';
                assert(tag[j] == ',');
            }
        }
        assert(tag[tag.len() - 1] != ',') by {
            assert(tag.contains(tag[tag.len() - 1]));
        }
        lemma_split_append(list, init);
        assert(all.drop_last() =~= list.push(',') + init);
        assert(all.last() == tag.last());
        assert(init.push(tag.last()) =~= tag);
        let before = split_at(list, at).push(init);
        assert(before.update(before.len() - 1, tag) =~= split_at(list, at).push(tag));
    }
}

proof fn lemma_split_single(tag: Seq<char>)
    requires
        !tag.contains(','),
    ensures
        split_at(tag, Class::One(',')) == seq![tag],
    decreases tag.len(),
{
    if tag.len() > 0 {
        let init = tag.drop_last();
        assert(!init.contains(',')) by {
            if init.contains(',') {
                let j = choose|j: int| 0 <= j < init.len() && init[j] == ',';
                assert(tag[j] == ',');
            }
        }
        assert(tag[tag.len() - 1] != ',') by {
            assert(tag.contains(tag[tag.len() - 1]));
        }
        lemma_split_single(init);
        assert(init.push(tag.last()) =~= tag);
        assert(seq![init].update(0, tag) =~= seq![tag]);
    } else {
        assert(tag =~= Seq::<char>::empty());
    }
}

/// Writing clean tags one after the other, with commas between, and reading the
/// list gives the tags back.
pub proof fn law_tags_round_trip(tags: Seq<Seq<char>>)
    requires
        forall|i: int| 0 <= i < tags.len() ==> clean_tag(#[trigger] tags[i]),
    ensures
        tags_in(joined(tags, ","@)) == tags,
    decreases tags.len(),
{
    let at = Class::One(',');
    let trim_one = |piece: Seq<char>| strip_both(piece, Class::Space);
    let full = |tag: Seq<char>| tag.len() > 0;
    reveal(Seq::filter);
    reveal_strlit(",");
    if tags.len() == 0 {
        let list = Seq::<char>::empty();
        assert(joined(tags, ","@) =~= list);
        let pieces = split_at(list, at);
        let trimmed = pieces.map_values(trim_one);
        assert(trimmed =~= seq![Seq::<char>::empty()]);
        assert(trimmed =~= Seq::<Seq<char>>::empty().push(list));
        lemma_filter_push(Seq::<Seq<char>>::empty(), list, full);
        assert(tags_in(list) =~= tags);
    } else {
        let last = tags.last();
        assert(clean_tag(tags[tags.len() - 1]));
        assert(trim_one(last) == last);
        if tags.len() == 1 {
            lemma_split_single(last);
            let trimmed = split_at(last, at).map_values(trim_one);
            assert(trimmed =~= seq![last]);
            assert(trimmed.drop_last() =~= Seq::<Seq<char>>::empty());
            assert(tags_in(last) =~= tags);
        } else {
            let init = tags.drop_last();
            assert forall|i: int| 0 <= i < init.len() implies clean_tag(#[trigger] init[i]) by {
                assert(init[i] == tags[i]);
            }
            law_tags_round_trip(init);
            let list = joined(init, ","@);
            lemma_split_append(list, last);
            assert(list.push(',') + last =~= list + ","@ + last);
            let pieces = split_at(list, at);
            assert(pieces.push(last).map_values(trim_one) =~= pieces.map_values(trim_one).push(
                last,
            ));
            lemma_filter_push(pieces.map_values(trim_one), last, full);
            assert(init.push(last) =~= tags);
        }
    }
}

/// The tags of a list are those before any comma in it and those after.
pub proof fn law_tags_at_comma(a: Seq<char>, b: Seq<char>)
    ensures
        tags_in(a.push(',') + b) == tags_in(a) + tags_in(b),
{
    let at = Class::One(',');
    let trim_one = |piece: Seq<char>| strip_both(piece, Class::Space);
    crate::text::law_split_at_separator(a, ',', b, at);
    let x = split_at(a, at);
    let y = split_at(b, at);
    assert((x + y).map_values(trim_one) =~= x.map_values(trim_one) + y.map_values(trim_one));
    Seq::filter_distributes_over_add(
        x.map_values(trim_one),
        y.map_values(trim_one),
        |tag: Seq<char>| tag.len() > 0,
    );
}

/// A list without a comma is one tag, without the white space around it; what is
/// then empty is none.
pub proof fn law_one_tag(a: Seq<char>, tag: Seq<char>, b: Seq<char>)
    requires
        forall|i: int| 0 <= i < a.len() ==> is_space(#[trigger] a[i]),
        forall|i: int| 0 <= i < b.len() ==> is_space(#[trigger] b[i]),
        tag.len() > 0 ==> !is_space(tag[0]) && !is_space(tag[tag.len() - 1]),
        !tag.contains(','),
    ensures
        tag.len() > 0 ==> tags_in(a + tag + b) == seq![tag],
        tag.len() == 0 ==> tags_in(a + tag + b) == Seq::<Seq<char>>::empty(),
        tags_of(None) == Seq::<Seq<char>>::empty(),
{
    let list = a + tag + b;
    let at = Class::One(',');
    let trim_one = |piece: Seq<char>| strip_both(piece, Class::Space);
    let full = |tag: Seq<char>| tag.len() > 0;
    assert forall|i: int| 0 <= i < list.len() implies !at.has(#[trigger] list[i]) by {
        if i < a.len() {
            assert(is_space(a[i]));
        } else if i < a.len() + tag.len() {
            assert(tag.contains(tag[i - a.len()]));
        } else {
            assert(is_space(b[i - a.len() - tag.len()]));
        }
    }
    crate::text::law_split_without_separator(list, at);
    assert forall|i: int| 0 <= i < a.len() implies Class::Space.has(#[trigger] a[i]) by {}
    assert forall|i: int| 0 <= i < b.len() implies Class::Space.has(#[trigger] b[i]) by {}
    crate::text::law_strip_both_ends(a, tag, b, Class::Space);
    assert(seq![list].map_values(trim_one) =~= Seq::<Seq<char>>::empty().push(tag));
    lemma_filter_push(Seq::<Seq<char>>::empty(), tag, full);
    reveal(Seq::filter);
    assert(Seq::<Seq<char>>::empty().filter(full) =~= Seq::<Seq<char>>::empty());
    assert(Seq::<Seq<char>>::empty().push(tag) =~= seq![tag]);
}

} // verus!
