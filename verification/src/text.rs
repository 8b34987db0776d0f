//! Text primitives: splitting, trimming, matching, and decimal numbers.
//!
//! Every function here is stated over the characters of its arguments.

use vstd::prelude::*;

verus! {

/// `String::push` appends exactly the given character.
pub assume_specification[ String::push ](s: &mut String, c: char)
    ensures
        final(s)@ == old(s)@.push(c),
;

/// The characters of each string of `v`, in order.
pub open spec fn texts(v: Seq<String>) -> Seq<Seq<char>> {
    Seq::new(v.len(), |i: int| v[i]@)
}

/// The Unicode `White_Space` property.
pub open spec fn is_space(c: char) -> bool {
    let n = c as int;
    ||| 0x9 <= n <= 0xd
    ||| n == 0x20
    ||| n == 0x85
    ||| n == 0xa0
    ||| n == 0x1680
    ||| 0x2000 <= n <= 0x200a
    ||| n == 0x2028
    ||| n == 0x2029
    ||| n == 0x202f
    ||| n == 0x205f
    ||| n == 0x3000
}

/// A class of characters to split at or to strip.
#[derive(Clone, Copy)]
pub enum Class {
    /// One particular character.
    One(char),
    /// Any white space.
    Space,
}

impl Class {
    /// Whether `c` belongs to the class.
    pub open spec fn has(self, c: char) -> bool {
        match self {
            Class::One(x) => c == x,
            Class::Space => is_space(c),
        }
    }

    pub fn contains(&self, c: char) -> (r: bool)
        ensures
            r == self.has(c),
    {
        match self {
            Class::One(x) => c == *x,
            Class::Space => {
                let n: u32 = c as u32;
                (0x9 <= n && n <= 0xd) || n == 0x20 || n == 0x85 || n == 0xa0 || n == 0x1680 || (
                0x2000 <= n && n <= 0x200a) || n == 0x2028 || n == 0x2029 || n == 0x202f || n
                    == 0x205f || n == 0x3000
            },
        }
    }
}

/// The pieces of `s` between the characters of class `at`; always at least one.
pub open spec fn split_at(s: Seq<char>, at: Class) -> Seq<Seq<char>>
    decreases s.len(),
{
    if s.len() == 0 {
        seq![Seq::<char>::empty()]
    } else {
        let before = split_at(s.drop_last(), at);
        if at.has(s.last()) {
            before.push(Seq::empty())
        } else {
            before.update(before.len() - 1, before.last().push(s.last()))
        }
    }
}

pub proof fn lemma_split_nonempty(s: Seq<char>, at: Class)
    ensures
        split_at(s, at).len() > 0,
    decreases s.len(),
{
    if s.len() > 0 {
        lemma_split_nonempty(s.drop_last(), at);
    }
}

/// The characters of `s` as a vector.
pub fn chars_of(s: &str) -> (r: Vec<char>)
    ensures
        r@ == s@,
{
    let mut out: Vec<char> = Vec::new();
    for c in it: s.chars()
        invariant
            out@ == it.seq().take(it.index() as int),
            it.seq() == s@,
    {
        out.push(c);
        assert(it.seq().take(it.index() as int + 1) =~= it.seq().take(it.index() as int).push(c));
    }
    assert(s@.take(s@.len() as int) =~= s@);
    out
}

/// The string made of `cs[from..to]`.
pub fn string_of(cs: &Vec<char>, from: usize, to: usize) -> (r: String)
    requires
        from <= to <= cs.len(),
    ensures
        r@ == cs@.subrange(from as int, to as int),
{
    let mut out = String::new();
    let mut i: usize = from;
    while i < to
        invariant
            from <= i <= to <= cs.len(),
            out@ == cs@.subrange(from as int, i as int),
        decreases to - i,
    {
        out.push(cs[i]);
        i += 1;
        assert(cs@.subrange(from as int, i as int) =~= cs@.subrange(
            from as int,
            i as int - 1,
        ).push(cs@[i as int - 1]));
    }
    out
}

/// Splits `s` at every character of class `at`.
pub fn split(s: &str, at: Class) -> (parts: Vec<String>)
    ensures
        texts(parts@) == split_at(s@, at),
{
    let cs = chars_of(s);
    let mut parts: Vec<String> = Vec::new();
    let mut cur = String::new();
    let mut i: usize = 0;
    assert(texts(parts@).push(cur@) =~= split_at(cs@.take(0), at));
    while i < cs.len()
        invariant
            i <= cs.len(),
            texts(parts@).push(cur@) == split_at(cs@.take(i as int), at),
        decreases cs.len() - i,
    {
        let c = cs[i];
        let ghost before = cs@.take(i as int);
        let ghost after = cs@.take(i as int + 1);
        let ghost sofar = texts(parts@);
        assert(after.drop_last() =~= before);
        if at.contains(c) {
            parts.push(cur);
            assert(texts(parts@) =~= split_at(before, at));
            cur = String::new();
        } else {
            cur.push(c);
        }
        assert(texts(parts@).push(cur@) =~= split_at(after, at));
        i += 1;
    }
    assert(cs@.take(cs.len() as int) =~= s@);
    let ghost sofar = texts(parts@).push(cur@);
    parts.push(cur);
    assert(texts(parts@) =~= sofar);
    parts
}

/// `line` without one trailing carriage return.
pub open spec fn without_cr(line: Seq<char>) -> Seq<char> {
    if line.len() > 0 && line.last() == '\r' {
        line.drop_last()
    } else {
        line
    }
}

/// The lines of `s`. A line ends in `\n` or `\r\n`; a last line without an
/// ending counts if it is not empty, and keeps a bare `\r`.
pub open spec fn lines_of(s: Seq<char>) -> Seq<Seq<char>> {
    let pieces = split_at(s, Class::One('\n'));
    let ended = pieces.drop_last().map_values(|line: Seq<char>| without_cr(line));
    if pieces.last().len() == 0 {
        ended
    } else {
        ended.push(pieces.last())
    }
}

/// The maximal runs of characters of `s` that are not white space.
pub open spec fn words_of(s: Seq<char>) -> Seq<Seq<char>> {
    split_at(s, Class::Space).filter(|w: Seq<char>| w.len() > 0)
}

/// Splits `s` into its lines.
pub fn lines(s: &str) -> (r: Vec<String>)
    ensures
        texts(r@) == lines_of(s@),
{
    let pieces = split(s, Class::One('\n'));
    proof {
        lemma_split_nonempty(s@, Class::One('\n'));
    }
    let ghost all = split_at(s@, Class::One('\n'));
    assert(all.len() == pieces.len());
    let last: usize = pieces.len() - 1;
    let mut out: Vec<String> = Vec::new();
    let mut i: usize = 0;
    while i < last
        invariant
            i <= last,
            last == pieces.len() - 1,
            texts(pieces@) == all,
            texts(out@) == all.take(i as int).map_values(|line: Seq<char>| without_cr(line)),
        decreases last - i,
    {
        let cs = chars_of(pieces[i].as_str());
        assert(cs@ == all[i as int]);
        let line = if cs.len() > 0 && cs[cs.len() - 1] == '\r' {
            string_of(&cs, 0, cs.len() - 1)
        } else {
            string_of(&cs, 0, cs.len())
        };
        assert(line@ =~= without_cr(cs@));
        let ghost sofar = texts(out@);
        out.push(line);
        assert(texts(out@) =~= sofar.push(without_cr(all[i as int])));
        i += 1;
        assert(texts(out@) =~= all.take(i as int).map_values(|line: Seq<char>| without_cr(line)));
    }
    assert(all.take(last as int) =~= all.drop_last());
    assert(all.last() == pieces@[last as int]@);
    if !pieces[last].as_str().is_empty() {
        let ghost ended = texts(out@);
        out.push(pieces[last].clone());
        assert(texts(out@) =~= ended.push(all.last()));
    }
    out
}

/// Splits `s` into its words.
pub fn words(s: &str) -> (r: Vec<String>)
    ensures
        texts(r@) == words_of(s@),
{
    let pieces = split(s, Class::Space);
    let ghost all = split_at(s@, Class::Space);
    let ghost full = |w: Seq<char>| w.len() > 0;
    let mut out: Vec<String> = Vec::new();
    let mut i: usize = 0;
    assert(all.take(0) =~= Seq::<Seq<char>>::empty());
    reveal(Seq::filter);
    assert(texts(out@) =~= all.take(0).filter(full));
    while i < pieces.len()
        invariant
            i <= pieces.len(),
            texts(pieces@) == all,
            full == (|w: Seq<char>| w.len() > 0),
            texts(out@) == all.take(i as int).filter(full),
        decreases pieces.len() - i,
    {
        let ghost sofar = texts(out@);
        assert(all[i as int] == pieces@[i as int]@);
        assert(all.take(i as int + 1) =~= all.take(i as int).push(all[i as int]));
        proof {
            lemma_filter_push(all.take(i as int), all[i as int], full);
        }
        if !pieces[i].as_str().is_empty() {
            out.push(pieces[i].clone());
            assert(texts(out@) =~= sofar.push(all[i as int]));
        }
        i += 1;
    }
    assert(all.take(pieces.len() as int) =~= all);
    out
}

/// Filtering a sequence with one more element.
pub proof fn lemma_filter_push<A>(s: Seq<A>, x: A, keep: spec_fn(A) -> bool)
    ensures
        s.push(x).filter(keep) == if keep(x) {
            s.filter(keep).push(x)
        } else {
            s.filter(keep)
        },
{
    reveal(Seq::filter);
    assert(s.push(x).drop_last() =~= s);
}

/// `s` without the leading characters of class `set`.
pub open spec fn strip_start(s: Seq<char>, set: Class) -> Seq<char>
    decreases s.len(),
{
    if s.len() > 0 && set.has(s[0]) {
        strip_start(s.skip(1), set)
    } else {
        s
    }
}

/// `s` without the trailing characters of class `set`.
pub open spec fn strip_end(s: Seq<char>, set: Class) -> Seq<char>
    decreases s.len(),
{
    if s.len() > 0 && set.has(s.last()) {
        strip_end(s.drop_last(), set)
    } else {
        s
    }
}

/// `s` without the leading and the trailing characters of class `set`.
pub open spec fn strip_both(s: Seq<char>, set: Class) -> Seq<char> {
    strip_end(strip_start(s, set), set)
}

/// Strips the characters of class `set` from both ends of `s`.
pub fn strip(s: &str, set: Class) -> (r: String)
    ensures
        r@ == strip_both(s@, set),
{
    let cs = chars_of(s);
    let mut from: usize = 0;
    assert(cs@.skip(0) =~= cs@);
    while from < cs.len() && set.contains(cs[from])
        invariant
            from <= cs.len(),
            strip_start(cs@.skip(from as int), set) == strip_start(cs@, set),
        decreases cs.len() - from,
    {
        assert(cs@.skip(from as int).skip(1) =~= cs@.skip(from as int + 1));
        from += 1;
    }
    let ghost rest = strip_start(cs@, set);
    assert(rest == cs@.skip(from as int));
    let mut to: usize = cs.len();
    assert(cs@.subrange(from as int, to as int) =~= rest);
    while to > from && set.contains(cs[to - 1])
        invariant
            from <= to <= cs.len(),
            strip_end(cs@.subrange(from as int, to as int), set) == strip_end(rest, set),
        decreases to,
    {
        assert(cs@.subrange(from as int, to as int).drop_last() =~= cs@.subrange(
            from as int,
            to as int - 1,
        ));
        to -= 1;
    }
    string_of(&cs, from, to)
}

/// Strips white space from both ends of `s`.
pub fn trim(s: &str) -> (r: String)
    ensures
        r@ == strip_both(s@, Class::Space),
{
    strip(s, Class::Space)
}

/// Whether `a` and `b` hold the same characters.
pub fn same(a: &str, b: &str) -> (r: bool)
    ensures
        r == (a@ == b@),
{
    a.to_owned() == b.to_owned()
}

/// Whether `needle` stands in `hay` at position `at`.
pub open spec fn stands_at(hay: Seq<char>, needle: Seq<char>, at: int) -> bool {
    &&& 0 <= at
    &&& at + needle.len() <= hay.len()
    &&& hay.subrange(at, at + needle.len() as int) == needle
}

/// Whether `needle` occurs anywhere in `hay`.
pub open spec fn occurs(hay: Seq<char>, needle: Seq<char>) -> bool {
    exists|at: int| stands_at(hay, needle, at)
}

fn match_at(hay: &Vec<char>, needle: &Vec<char>, at: usize) -> (r: bool)
    requires
        at <= hay.len(),
    ensures
        r == stands_at(hay@, needle@, at as int),
{
    if needle.len() > hay.len() - at {
        return false;
    }
    let mut i: usize = 0;
    while i < needle.len()
        invariant
            i <= needle.len(),
            at + needle.len() <= hay.len(),
            forall|j: int| 0 <= j < i ==> hay@[at + j] == needle@[j],
        decreases needle.len() - i,
    {
        if hay[at + i] != needle[i] {
            assert(hay@.subrange(at as int, at + needle@.len() as int)[i as int] != needle@[i as int]);
            return false;
        }
        i += 1;
    }
    assert(hay@.subrange(at as int, at + needle@.len() as int) =~= needle@);
    true
}

/// Whether `s` begins with `prefix`.
pub fn starts_with(s: &str, prefix: &str) -> (r: bool)
    ensures
        r == prefix@.is_prefix_of(s@),
{
    let cs = chars_of(s);
    let ps = chars_of(prefix);
    match_at(&cs, &ps, 0)
}

/// What follows `prefix` in `s`, if `s` begins with it.
pub fn strip_prefix(s: &str, prefix: &str) -> (r: Option<String>)
    ensures
        match r {
            Some(rest) => prefix@.is_prefix_of(s@) && rest@ == s@.skip(prefix@.len() as int),
            None => !prefix@.is_prefix_of(s@),
        },
{
    let cs = chars_of(s);
    let ps = chars_of(prefix);
    if match_at(&cs, &ps, 0) {
        let rest = string_of(&cs, ps.len(), cs.len());
        assert(rest@ =~= s@.skip(prefix@.len() as int));
        Some(rest)
    } else {
        None
    }
}

/// Whether `needle` occurs in `s`.
pub fn contains(s: &str, needle: &str) -> (r: bool)
    ensures
        r == occurs(s@, needle@),
{
    let cs = chars_of(s);
    let ns = chars_of(needle);
    let mut at: usize = 0;
    while at < cs.len()
        invariant
            at <= cs.len(),
            cs@ == s@,
            ns@ == needle@,
            forall|j: int| 0 <= j < at ==> !stands_at(cs@, ns@, j),
        decreases cs.len() - at,
    {
        if match_at(&cs, &ns, at) {
            return true;
        }
        at += 1;
    }
    if match_at(&cs, &ns, at) {
        return true;
    }
    assert forall|j: int| !stands_at(cs@, ns@, j) by {
        if j == at as int {
        } else if 0 <= j < at {
        } else {
        }
    }
    false
}

/// What follows `prefix` in the first of `lines` that begins with it.
pub open spec fn first_after(lines: Seq<Seq<char>>, prefix: Seq<char>) -> Option<Seq<char>>
    decreases lines.len(),
{
    if lines.len() == 0 {
        None
    } else if prefix.is_prefix_of(lines[0]) {
        Some(lines[0].skip(prefix.len() as int))
    } else {
        first_after(lines.skip(1), prefix)
    }
}

/// What follows `prefix` in the last of `lines` that begins with it.
pub open spec fn last_after(lines: Seq<Seq<char>>, prefix: Seq<char>) -> Option<Seq<char>>
    decreases lines.len(),
{
    if lines.len() == 0 {
        None
    } else if prefix.is_prefix_of(lines.last()) {
        Some(lines.last().skip(prefix.len() as int))
    } else {
        last_after(lines.drop_last(), prefix)
    }
}

/// The characters of an optional string.
pub open spec fn text_of(s: Option<String>) -> Option<Seq<char>> {
    match s {
        Some(t) => Some(t@),
        None => None,
    }
}

/// The characters of an optional string slice.
pub open spec fn slice_text(s: Option<&str>) -> Option<Seq<char>> {
    match s {
        Some(t) => Some(t@),
        None => None,
    }
}

/// Finds the first line that begins with `prefix` and gives what follows.
pub fn find_first(lines: &Vec<String>, prefix: &str) -> (r: Option<String>)
    ensures
        text_of(r) == first_after(texts(lines@), prefix@),
{
    let ghost all = texts(lines@);
    let mut i: usize = 0;
    assert(all.skip(0) =~= all);
    while i < lines.len()
        invariant
            i <= lines.len(),
            all == texts(lines@),
            first_after(all.skip(i as int), prefix@) == first_after(all, prefix@),
        decreases lines.len() - i,
    {
        assert(all.skip(i as int)[0] == lines@[i as int]@);
        match strip_prefix(lines[i].as_str(), prefix) {
            Some(rest) => {
                return Some(rest);
            },
            None => {},
        }
        assert(all.skip(i as int).skip(1) =~= all.skip(i as int + 1));
        i += 1;
    }
    None
}

/// Finds the last line that begins with `prefix` and gives what follows.
pub fn find_last(lines: &Vec<String>, prefix: &str) -> (r: Option<String>)
    ensures
        text_of(r) == last_after(texts(lines@), prefix@),
{
    let ghost all = texts(lines@);
    let mut n: usize = lines.len();
    assert(all.take(n as int) =~= all);
    while n > 0
        invariant
            n <= lines.len(),
            all == texts(lines@),
            last_after(all.take(n as int), prefix@) == last_after(all, prefix@),
        decreases n,
    {
        assert(all.take(n as int).last() == lines@[n as int - 1]@);
        match strip_prefix(lines[n - 1].as_str(), prefix) {
            Some(rest) => {
                return Some(rest);
            },
            None => {},
        }
        assert(all.take(n as int).drop_last() =~= all.take(n as int - 1));
        n -= 1;
    }
    None
}

/// How many characters of `s` come before the first `c`; all if there is none.
pub open spec fn run_before(s: Seq<char>, c: char) -> nat
    decreases s.len(),
{
    if s.len() == 0 || s[0] == c {
        0
    } else {
        1 + run_before(s.skip(1), c)
    }
}

/// The parts of `s` before and after the first `c`.
pub open spec fn cut_at(s: Seq<char>, c: char) -> Option<(Seq<char>, Seq<char>)> {
    let n = run_before(s, c) as int;
    if n < s.len() {
        Some((s.take(n), s.skip(n + 1)))
    } else {
        None
    }
}

/// Splits `s` at the first `c`.
pub fn split_once(s: &str, c: char) -> (r: Option<(String, String)>)
    ensures
        match r {
            Some(p) => cut_at(s@, c) == Some((p.0@, p.1@)),
            None => cut_at(s@, c) is None,
        },
{
    let cs = chars_of(s);
    let mut i: usize = 0;
    assert(cs@.skip(0) =~= cs@);
    while i < cs.len() && cs[i] != c
        invariant
            i <= cs.len(),
            run_before(cs@, c) == i + run_before(cs@.skip(i as int), c),
        decreases cs.len() - i,
    {
        assert(cs@.skip(i as int).skip(1) =~= cs@.skip(i as int + 1));
        i += 1;
    }
    if i < cs.len() {
        let head = string_of(&cs, 0, i);
        let tail = string_of(&cs, i + 1, cs.len());
        assert(head@ =~= s@.take(i as int));
        assert(tail@ =~= s@.skip(i as int + 1));
        Some((head, tail))
    } else {
        None
    }
}

/// An ASCII capital letter as a small one; other characters as they are.
pub open spec fn small(c: char) -> char {
    if 'A' <= c <= 'Z' {
        (c as int + 32) as char
    } else {
        c
    }
}

/// `s` with its ASCII capital letters made small.
pub open spec fn small_text(s: Seq<char>) -> Seq<char> {
    s.map_values(|c: char| small(c))
}

/// Makes the ASCII capital letters of `s` small.
pub fn to_small(s: &str) -> (r: String)
    ensures
        r@ == small_text(s@),
{
    let cs = chars_of(s);
    let mut out = String::new();
    let mut i: usize = 0;
    while i < cs.len()
        invariant
            i <= cs.len(),
            out@ == small_text(cs@.take(i as int)),
        decreases cs.len() - i,
    {
        let c = cs[i];
        let d = if 'A' <= c && c <= 'Z' {
            ((c as u8) + 32) as char
        } else {
            c
        };
        out.push(d);
        i += 1;
        assert(out@ =~= small_text(cs@.take(i as int)));
    }
    assert(cs@.take(cs.len() as int) =~= cs@);
    out
}

/// White space is what Unicode lists as such: in ASCII the blank, the tab, the
/// line feed, the vertical tab, the form feed and the carriage return.
pub proof fn law_white_space(c: char)
    ensures
        (c as int) < 0x80 ==> (is_space(c) <==> c == ' ' || c == '\t' || c == '\n' || c as int
            == 0xb || c as int == 0xc || c == '\r'),
        (c as int) >= 0x80 ==> (is_space(c) <==> c as int == 0x85 || c as int == 0xa0 || c as int
            == 0x1680 || 0x2000 <= c as int <= 0x200a || c as int == 0x2028 || c as int == 0x2029
            || c as int == 0x202f || c as int == 0x205f || c as int == 0x3000),
        Class::Space.has(c) <==> is_space(c),
{
}

/// A class of one character has that character alone.
pub proof fn law_class_of_one(x: char, c: char)
    ensures
        Class::One(x).has(c) <==> c == x,
{
}

/// Splitting goes on after a separator as at the start: the pieces before it
/// and the pieces after it are the pieces.
pub proof fn law_split_at_separator(a: Seq<char>, c: char, b: Seq<char>, at: Class)
    requires
        at.has(c),
    ensures
        split_at(a.push(c) + b, at) == split_at(a, at) + split_at(b, at),
    decreases b.len(),
{
    let all = a.push(c) + b;
    if b.len() == 0 {
        assert(all =~= a.push(c));
        assert(all.drop_last() =~= a);
        assert(split_at(all, at) =~= split_at(a, at) + split_at(b, at));
    } else {
        let init = b.drop_last();
        law_split_at_separator(a, c, init, at);
        assert(all.drop_last() =~= a.push(c) + init);
        assert(all.last() == b.last());
        lemma_split_nonempty(init, at);
        assert(split_at(all, at) =~= split_at(a, at) + split_at(b, at));
    }
}

/// Without a separator there is one piece, the whole.
pub proof fn law_split_without_separator(s: Seq<char>, at: Class)
    requires
        forall|i: int| 0 <= i < s.len() ==> !at.has(#[trigger] s[i]),
    ensures
        split_at(s, at) == seq![s],
    decreases s.len(),
{
    if s.len() > 0 {
        let init = s.drop_last();
        assert forall|i: int| 0 <= i < init.len() implies !at.has(#[trigger] init[i]) by {
            assert(init[i] == s[i]);
        }
        law_split_without_separator(init, at);
        assert(!at.has(s[s.len() - 1]));
        assert(init.push(s.last()) =~= s);
        assert(split_at(s, at) =~= seq![s]);
    } else {
        assert(s =~= Seq::<char>::empty());
    }
}

/// The words of a text are those before any white space in it and those after.
pub proof fn law_words_at_space(a: Seq<char>, c: char, b: Seq<char>)
    requires
        c == ' ' || c == '\t' || c == '\n' || c == '\r' || is_space(c),
    ensures
        words_of(a.push(c) + b) == words_of(a) + words_of(b),
{
    law_split_at_separator(a, c, b, Class::Space);
    Seq::filter_distributes_over_add(
        split_at(a, Class::Space),
        split_at(b, Class::Space),
        |w: Seq<char>| w.len() > 0,
    );
}

/// A text without white space is one word, and none if it is empty.
pub proof fn law_one_word(w: Seq<char>)
    requires
        forall|i: int| 0 <= i < w.len() ==> !is_space(#[trigger] w[i]),
    ensures
        w.len() > 0 ==> words_of(w) == seq![w],
        w.len() == 0 ==> words_of(w) == Seq::<Seq<char>>::empty(),
{
    assert forall|i: int| 0 <= i < w.len() implies !Class::Space.has(#[trigger] w[i]) by {}
    law_split_without_separator(w, Class::Space);
    let full = |w: Seq<char>| w.len() > 0;
    lemma_filter_push(Seq::<Seq<char>>::empty(), w, full);
    reveal(Seq::filter);
    assert(seq![w] =~= Seq::<Seq<char>>::empty().push(w));
    assert(Seq::<Seq<char>>::empty().filter(full) =~= Seq::<Seq<char>>::empty());
    assert(Seq::<Seq<char>>::empty().push(w) =~= seq![w]);
}

/// A line goes up to the line feed, and a carriage return before that belongs
/// to the ending; the other lines are those of the rest.
pub proof fn law_lines_at_line_feed(line: Seq<char>, rest: Seq<char>)
    requires
        !line.contains('\n'),
    ensures
        line.len() == 0 || line[line.len() - 1] != '\r' ==> lines_of(line.push('\n') + rest)
            == seq![line] + lines_of(rest),
        lines_of(line.push('\r').push('\n') + rest) == seq![line] + lines_of(rest),
{
    assert(!line.push('\r').contains('\n')) by {
        if line.push('\r').contains('\n') {
            let i = choose|i: int| 0 <= i < line.len() + 1 && line.push('\r')[i] == '\n';
            assert(line[i] == '\n');
        }
    }
    lemma_lines(line, rest);
    lemma_lines(line.push('\r'), rest);
    assert(line.push('\r').drop_last() =~= line);
}

proof fn lemma_lines(line: Seq<char>, rest: Seq<char>)
    requires
        !line.contains('\n'),
    ensures
        lines_of(line.push('\n') + rest) == seq![without_cr(line)] + lines_of(rest),
{
    let at = Class::One('\n');
    assert forall|i: int| 0 <= i < line.len() implies !at.has(#[trigger] line[i]) by {
        assert(line.contains(line[i]));
    }
    law_split_without_separator(line, at);
    law_split_at_separator(line, '\n', rest, at);
    lemma_split_nonempty(rest, at);
    let cut = |line: Seq<char>| without_cr(line);
    let tail = split_at(rest, at);
    let pieces = seq![line] + tail;
    assert(pieces.drop_last() =~= seq![line] + tail.drop_last());
    assert(pieces.last() == tail.last());
    assert(pieces.drop_last().map_values(cut) =~= seq![without_cr(line)]
        + tail.drop_last().map_values(cut));
    assert(lines_of(line.push('\n') + rest) =~= seq![without_cr(line)] + lines_of(rest));
}

/// A last line without an ending counts as it stands, unless it is empty.
pub proof fn law_last_line(line: Seq<char>)
    requires
        !line.contains('\n'),
    ensures
        line.len() > 0 ==> lines_of(line) == seq![line],
        line.len() == 0 ==> lines_of(line) == Seq::<Seq<char>>::empty(),
{
    let at = Class::One('\n');
    assert forall|i: int| 0 <= i < line.len() implies !at.has(#[trigger] line[i]) by {
        assert(line.contains(line[i]));
    }
    law_split_without_separator(line, at);
    let cut = |line: Seq<char>| without_cr(line);
    assert(seq![line].drop_last().map_values(cut) =~= Seq::<Seq<char>>::empty());
    if line.len() > 0 {
        assert(lines_of(line) =~= seq![line]);
    } else {
        assert(lines_of(line) =~= Seq::<Seq<char>>::empty());
    }
}

/// Stripping takes away what belongs to the class at both ends, all of it, and
/// nothing else.
pub proof fn law_strip_both_ends(a: Seq<char>, m: Seq<char>, b: Seq<char>, set: Class)
    requires
        forall|i: int| 0 <= i < a.len() ==> set.has(#[trigger] a[i]),
        forall|i: int| 0 <= i < b.len() ==> set.has(#[trigger] b[i]),
        m.len() > 0 ==> !set.has(m[0]) && !set.has(m[m.len() - 1]),
    ensures
        strip_both(a + m + b, set) == m,
{
    lemma_strip_front(a, m + b, set);
    assert(a + m + b =~= a + (m + b));
    if m.len() > 0 {
        assert((m + b)[0] == m[0]);
        assert(strip_start(m + b, set) == m + b);
        lemma_strip_back(m, b, set);
        assert(strip_end(m, set) == m);
    } else {
        assert(m + b =~= b);
        assert(b + m =~= b);
        lemma_strip_front(b, m, set);
        assert(strip_start(m, set) == m);
        assert(strip_end(m, set) == m);
    }
}

proof fn lemma_strip_front(a: Seq<char>, s: Seq<char>, set: Class)
    requires
        forall|i: int| 0 <= i < a.len() ==> set.has(#[trigger] a[i]),
    ensures
        strip_start(a + s, set) == strip_start(s, set),
    decreases a.len(),
{
    if a.len() > 0 {
        let rest = a.skip(1);
        assert((a + s)[0] == a[0]);
        assert((a + s).skip(1) =~= rest + s);
        assert forall|i: int| 0 <= i < rest.len() implies set.has(#[trigger] rest[i]) by {
            assert(rest[i] == a[i + 1]);
        }
        lemma_strip_front(rest, s, set);
    } else {
        assert(a + s =~= s);
    }
}

proof fn lemma_strip_back(s: Seq<char>, b: Seq<char>, set: Class)
    requires
        forall|i: int| 0 <= i < b.len() ==> set.has(#[trigger] b[i]),
    ensures
        strip_end(s + b, set) == strip_end(s, set),
    decreases b.len(),
{
    if b.len() > 0 {
        let init = b.drop_last();
        assert((s + b).last() == b[b.len() - 1]);
        assert((s + b).drop_last() =~= s + init);
        assert forall|i: int| 0 <= i < init.len() implies set.has(#[trigger] init[i]) by {
            assert(init[i] == b[i]);
        }
        lemma_strip_back(s, init, set);
    } else {
        assert(s + b =~= s);
    }
}

/// A text occurs in what has it between any two texts, and in nothing else.
pub proof fn law_occurs_between(hay: Seq<char>, needle: Seq<char>)
    ensures
        occurs(hay, needle) <==> exists|a: Seq<char>, b: Seq<char>|
            hay == #[trigger] between(a, needle, b),
{
    if occurs(hay, needle) {
        let at = choose|at: int| stands_at(hay, needle, at);
        let a = hay.take(at);
        let b = hay.skip(at + needle.len());
        assert forall|i: int| 0 <= i < hay.len() implies #[trigger] hay[i] == (a + needle + b)[i] by {
            if at <= i < at + needle.len() {
                assert(hay.subrange(at, at + needle.len() as int)[i - at] == hay[i]);
            }
        }
        assert(hay =~= between(a, needle, b));
    }
    if exists|a: Seq<char>, b: Seq<char>| hay == #[trigger] between(a, needle, b) {
        let (a, b) = choose|a: Seq<char>, b: Seq<char>| hay == #[trigger] between(a, needle, b);
        let at = a.len() as int;
        assert(hay.subrange(at, at + needle.len() as int) =~= needle);
        assert(stands_at(hay, needle, at));
    }
}

/// `a`, then `m`, then `b`.
pub open spec fn between(a: Seq<char>, m: Seq<char>, b: Seq<char>) -> Seq<char> {
    a + m + b
}

/// A text is cut at the first of the character: what comes before holds none of
/// it.
pub proof fn law_cut_at_first(a: Seq<char>, c: char, b: Seq<char>)
    requires
        !a.contains(c),
    ensures
        cut_at(a.push(c) + b, c) == Some((a, b)),
        cut_at(a, c) is None,
{
    lemma_run_before(a, c, b);
    let all = a.push(c) + b;
    assert(all.take(a.len() as int) =~= a);
    assert(all.skip(a.len() as int + 1) =~= b);
}

proof fn lemma_run_before(a: Seq<char>, c: char, b: Seq<char>)
    requires
        !a.contains(c),
    ensures
        run_before(a.push(c) + b, c) == a.len(),
        run_before(a, c) == a.len(),
    decreases a.len(),
{
    let all = a.push(c) + b;
    if a.len() == 0 {
        assert(all[0] == c);
    } else {
        assert(a.contains(a[0]));
        assert(all[0] == a[0]);
        let rest = a.skip(1);
        assert(!rest.contains(c)) by {
            if rest.contains(c) {
                let i = choose|i: int| 0 <= i < rest.len() && rest[i] == c;
                assert(a[i + 1] == c);
            }
        }
        lemma_run_before(rest, c, b);
        assert(all.skip(1) =~= rest.push(c) + b);
    }
}

/// Making small changes the letters from A to Z into those from a to z, in
/// place, and nothing else.
pub proof fn law_small_letters(s: Seq<char>, i: int)
    requires
        0 <= i < s.len(),
    ensures
        small_text(s).len() == s.len(),
        'A' <= s[i] <= 'Z' ==> small_text(s)[i] as int == s[i] as int + 32,
        !('A' <= s[i] <= 'Z') ==> small_text(s)[i] == s[i],
{
}

/// What follows the prefix in the first line that has it, and nothing where no
/// line has it.
pub proof fn law_first_line_counts(lines: Seq<Seq<char>>, prefix: Seq<char>, j: int)
    requires
        0 <= j <= lines.len(),
        forall|i: int| 0 <= i < j ==> !prefix.is_prefix_of(#[trigger] lines[i]),
        j < lines.len() ==> prefix.is_prefix_of(lines[j]),
    ensures
        j < lines.len() ==> first_after(lines, prefix) is Some && prefix + first_after(
            lines,
            prefix,
        )->0 == lines[j],
        j == lines.len() ==> first_after(lines, prefix) is None,
    decreases j,
{
    if j > 0 {
        assert(!prefix.is_prefix_of(lines[0]));
        assert forall|i: int| 0 <= i < j - 1 implies !prefix.is_prefix_of(
            #[trigger] lines.skip(1)[i],
        ) by {
            assert(lines.skip(1)[i] == lines[i + 1]);
        }
        law_first_line_counts(lines.skip(1), prefix, j - 1);
    } else if lines.len() > 0 {
        assert(prefix + lines[0].skip(prefix.len() as int) =~= lines[0]);
    }
}

/// What follows the prefix in the last line that has it, and nothing where no
/// line has it.
pub proof fn law_last_line_counts(lines: Seq<Seq<char>>, prefix: Seq<char>, j: int)
    requires
        -1 <= j < lines.len(),
        forall|i: int| j < i < lines.len() ==> !prefix.is_prefix_of(#[trigger] lines[i]),
        j >= 0 ==> prefix.is_prefix_of(lines[j]),
    ensures
        j >= 0 ==> last_after(lines, prefix) is Some && prefix + last_after(lines, prefix)->0
            == lines[j],
        j == -1 ==> last_after(lines, prefix) is None,
    decreases lines.len(),
{
    if lines.len() > 0 {
        if j < lines.len() - 1 {
            assert(!prefix.is_prefix_of(lines[lines.len() - 1]));
            let init = lines.drop_last();
            assert forall|i: int| j < i < init.len() implies !prefix.is_prefix_of(
                #[trigger] init[i],
            ) by {
                assert(init[i] == lines[i]);
            }
            law_last_line_counts(init, prefix, j);
        } else {
            assert(prefix + lines.last().skip(prefix.len() as int) =~= lines.last());
        }
    }
}

/// A list of strings reads as the list of their characters, and an optional one
/// as its own.
pub proof fn law_characters_of_strings(v: Seq<String>, i: int, s: Option<String>, t: Option<&str>)
    requires
        0 <= i < v.len(),
    ensures
        texts(v).len() == v.len(),
        texts(v)[i] == v[i]@,
        s matches Some(x) ==> text_of(s) == Some(x@),
        s is None ==> text_of(s) is None,
        t matches Some(x) ==> slice_text(t) == Some(x@),
        t is None ==> slice_text(t) is None,
{
}

} // verus!
