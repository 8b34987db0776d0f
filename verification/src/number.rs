//! Decimal numbers: reading them from text and writing them out.

use crate::text::chars_of;
use vstd::prelude::*;

verus! {

/// Whether `c` is an ASCII digit.
pub open spec fn is_digit(c: char) -> bool {
    '0' <= c <= '9'
}

/// Whether `s` is a non-empty run of ASCII digits.
pub open spec fn all_digits(s: Seq<char>) -> bool {
    &&& s.len() > 0
    &&& forall|i: int| 0 <= i < s.len() ==> is_digit(#[trigger] s[i])
}

/// The number that a run of digits writes in base ten.
pub open spec fn digits_value(s: Seq<char>) -> nat
    decreases s.len(),
{
    if s.len() == 0 {
        0
    } else {
        digits_value(s.drop_last()) * 10 + (s.last() as int - '0' as int) as nat
    }
}

/// The number written by `s`: digits, optionally after a `+`.
pub open spec fn unsigned_value(s: Seq<char>) -> Option<nat> {
    let body = if s.len() > 0 && s[0] == '+' {
        s.skip(1)
    } else {
        s
    };
    if all_digits(body) {
        Some(digits_value(body))
    } else {
        None
    }
}

/// The number written by `s`: digits, optionally after a `+` or a `-`.
pub open spec fn signed_value(s: Seq<char>) -> Option<int> {
    if s.len() > 0 && s[0] == '-' {
        if all_digits(s.skip(1)) {
            Some(-(digits_value(s.skip(1)) as int))
        } else {
            None
        }
    } else {
        match unsigned_value(s) {
            Some(v) => Some(v as int),
            None => None,
        }
    }
}

/// The `u64` that `s` writes, if it writes one.
pub open spec fn u64_written(s: Seq<char>) -> Option<u64> {
    match unsigned_value(s) {
        Some(v) => if v <= u64::MAX {
            Some(v as u64)
        } else {
            None
        },
        None => None,
    }
}

/// The `i64` that `s` writes, if it writes one.
pub open spec fn i64_written(s: Seq<char>) -> Option<i64> {
    match signed_value(s) {
        Some(v) => if i64::MIN <= v <= i64::MAX {
            Some(v as i64)
        } else {
            None
        },
        None => None,
    }
}

/// The value of the digits `cs[from..]`, if they are digits and it fits.
fn digits_from(cs: &Vec<char>, from: usize) -> (r: Option<u64>)
    requires
        from <= cs.len(),
    ensures
        match r {
            Some(v) => all_digits(cs@.skip(from as int)) && v == digits_value(cs@.skip(from as int)),
            None => !all_digits(cs@.skip(from as int)) || digits_value(cs@.skip(from as int))
                > u64::MAX,
        },
{
    let ghost body = cs@.skip(from as int);
    if from == cs.len() {
        return None;
    }
    let mut value: Option<u64> = Some(0);
    let mut i: usize = from;
    assert(body.take(0) =~= Seq::<char>::empty());
    while i < cs.len()
        invariant
            from <= i <= cs.len(),
            body == cs@.skip(from as int),
            forall|j: int| 0 <= j < i - from ==> is_digit(#[trigger] body[j]),
            match value {
                Some(v) => v == digits_value(body.take(i - from)),
                None => digits_value(body.take(i - from)) > u64::MAX,
            },
        decreases cs.len() - i,
    {
        let c = cs[i];
        assert(body[i - from] == c);
        if c < '0' || c > '9' {
            return None;
        }
        let d: u64 = (c as u32 - '0' as u32) as u64;
        assert(body.take(i - from + 1).drop_last() =~= body.take(i - from));
        value = match value {
            Some(v) => match v.checked_mul(10) {
                Some(t) => t.checked_add(d),
                None => None,
            },
            None => None,
        };
        i += 1;
    }
    assert(body.take(body.len() as int) =~= body);
    value
}

/// Reads an unsigned decimal number.
pub fn parse_u64(s: &str) -> (r: Option<u64>)
    ensures
        r == u64_written(s@),
{
    let cs = chars_of(s);
    if cs.len() > 0 && cs[0] == '+' {
        digits_from(&cs, 1)
    } else {
        assert(cs@.skip(0) =~= cs@);
        digits_from(&cs, 0)
    }
}

/// Reads a signed decimal number.
pub fn parse_i64(s: &str) -> (r: Option<i64>)
    ensures
        r == i64_written(s@),
{
    let cs = chars_of(s);
    if cs.len() > 0 && cs[0] == '-' {
        match digits_from(&cs, 1) {
            Some(v) => if v <= 0x7fff_ffff_ffff_ffff {
                Some(-(v as i64))
            } else if v == 0x8000_0000_0000_0000 {
                Some(i64::MIN)
            } else {
                None
            },
            None => None,
        }
    } else {
        match parse_u64(s) {
            Some(v) => if v <= 0x7fff_ffff_ffff_ffff {
                Some(v as i64)
            } else {
                None
            },
            None => None,
        }
    }
}

/// The digit character of a number below ten.
pub open spec fn digit(d: nat) -> char {
    ('0' as int + d) as char
}

/// `n` in base ten, without leading zeros.
pub open spec fn decimal_text(n: nat) -> Seq<char>
    decreases n,
{
    if n < 10 {
        seq![digit(n)]
    } else {
        decimal_text(n / 10).push(digit(n % 10))
    }
}

/// Writes `n` in base ten.
pub fn decimal(n: u64) -> (r: String)
    ensures
        r@ == decimal_text(n as nat),
    decreases n,
{
    let d: u8 = (n % 10) as u8;
    let c = (48u8 + d) as char;
    assert(c == digit((n % 10) as nat));
    let mut out = if n < 10 {
        String::new()
    } else {
        decimal(n / 10)
    };
    out.push(c);
    assert(out@ =~= decimal_text(n as nat));
    out
}

/// Reading back what was written gives the number.
pub proof fn law_decimal_round_trip(n: u64)
    ensures
        u64_written(decimal_text(n as nat)) == Some(n),
{
    lemma_decimal_digits(n as nat);
    assert(decimal_text(n as nat)[0] != '+');
}

proof fn lemma_decimal_digits(n: nat)
    ensures
        all_digits(decimal_text(n)),
        digits_value(decimal_text(n)) == n,
    decreases n,
{
    reveal_with_fuel(digits_value, 2);
    assert(is_digit(digit(n % 10)));
    if n < 10 {
        assert(decimal_text(n).drop_last() =~= Seq::<char>::empty());
    } else {
        lemma_decimal_digits(n / 10);
        assert(decimal_text(n).drop_last() =~= decimal_text(n / 10));
        assert forall|i: int| 0 <= i < decimal_text(n).len() implies is_digit(
            #[trigger] decimal_text(n)[i],
        ) by {
            if i < decimal_text(n / 10).len() {
                assert(decimal_text(n)[i] == decimal_text(n / 10)[i]);
            }
        }
    }
}

/// A digit alone writes its own number, and a digit after a number makes it ten
/// times as large and adds its own, where that fits a `u64`.
pub proof fn law_digits_in_base_ten(s: Seq<char>, c: char)
    requires
        '0' <= c <= '9',
    ensures
        u64_written(seq![c]) == Some((c as int - '0' as int) as u64),
        u64_written(s) matches Some(v) ==> u64_written(s.push(c)) == if 10 * v + (c as int
            - '0' as int) <= u64::MAX {
            Some((10 * v + (c as int - '0' as int)) as u64)
        } else {
            None
        },
{
    reveal_with_fuel(digits_value, 2);
    let one = seq![c];
    assert(one.drop_last() =~= Seq::<char>::empty());
    assert(all_digits(one));
    let plus = s.len() > 0 && s[0] == '+';
    let body = if plus {
        s.skip(1)
    } else {
        s
    };
    if all_digits(body) {
        let longer = body.push(c);
        assert(longer.drop_last() =~= body);
        assert(s.push(c).skip(1) =~= if plus {
            longer
        } else {
            s.push(c).skip(1)
        });
        assert forall|i: int| 0 <= i < longer.len() implies is_digit(#[trigger] longer[i]) by {
            if i < body.len() {
                assert(longer[i] == body[i]);
            }
        }
        assert(all_digits(longer));
    }
}

/// A plus sign before digits changes nothing; nothing but digits, and one plus
/// sign before them, writes an unsigned number.
pub proof fn law_only_digits(s: Seq<char>, i: int)
    requires
        0 <= i < s.len(),
    ensures
        s[0] != '+' ==> u64_written(seq!['+'] + s) == u64_written(s),
        !('0' <= s[i] <= '9') && (i > 0 || s[0] != '+') ==> u64_written(s) is None,
        u64_written(Seq::empty()) is None,
        u64_written(seq!['+']) is None,
{
    assert((seq!['+'] + s).skip(1) =~= s);
    if !('0' <= s[i] <= '9') && (i > 0 || s[0] != '+') {
        if s[0] == '+' {
            assert(s.skip(1)[i - 1] == s[i]);
            assert(!is_digit(s.skip(1)[i - 1]));
        } else {
            assert(!is_digit(s[i]));
        }
    }
    assert(!is_digit('+'));
}

/// A minus sign before an unsigned number writes its negative, and a number
/// without it is read as an unsigned one, where the result fits an `i64`.
pub proof fn law_signs(s: Seq<char>)
    requires
        s.len() > 0,
    ensures
        s[0] != '+' && s[0] != '-' ==> i64_written(seq!['-'] + s) == match u64_written(s) {
            Some(v) => if v <= 0x8000_0000_0000_0000 {
                Some((-(v as int)) as i64)
            } else {
                None
            },
            None => None,
        },
        s[0] != '-' ==> i64_written(s) == match u64_written(s) {
            Some(v) => if v <= 0x7fff_ffff_ffff_ffff {
                Some(v as i64)
            } else {
                None
            },
            None => None,
        },
{
    assert((seq!['-'] + s).skip(1) =~= s);
}

/// A number is written without leading zeros.
pub proof fn law_no_leading_zeros(n: nat)
    ensures
        decimal_text(n).len() > 0,
        n > 0 ==> decimal_text(n)[0] != '0',
        n == 0 ==> decimal_text(n) == seq!['0'],
    decreases n,
{
    if n >= 10 {
        law_no_leading_zeros(n / 10);
    } else {
        assert(decimal_text(n)[0] as int == '0' as int + n);
        assert(decimal_text(n) =~= seq![digit(n)]);
    }
}

} // verus!
