use vstd::prelude::*;
use crate::text::{decimal, digit_char};

verus! {

pub open spec fn is_digit(c: char) -> bool {
    '0' <= c && c <= '9'
}

pub open spec fn digit_value(c: char) -> int {
    c as int - '0' as int
}

/// The number a string of decimal digits denotes.
pub open spec fn digits_value(s: Seq<char>) -> int
    decreases s.len(),
{
    if s.len() == 0 {
        0
    } else {
        digits_value(s.drop_last()) * 10 + digit_value(s.last())
    }
}

/// The text with one leading plus sign taken off, if it has one.
pub open spec fn unsigned_digits(s: Seq<char>) -> Seq<char> {
    if s.len() > 0 && s[0] == '+' {
        s.drop_first()
    } else {
        s
    }
}

/// What parsing a `u64` from `s` gives: an optional plus sign, then one or
/// more ASCII digits and nothing else, denoting a number that fits in `u64`.
pub open spec fn parsed_u64(s: Seq<char>) -> Option<u64> {
    let d = unsigned_digits(s);
    if d.len() == 0 || (exists|i: int| 0 <= i < d.len() && !is_digit(d[i])) || digits_value(d)
        > u64::MAX {
        None
    } else {
        Some(digits_value(d) as u64)
    }
}

pub open spec fn capped(v: int) -> int {
    if v > 0x1_0000_0000_0000_0000 {
        0x1_0000_0000_0000_0000
    } else {
        v
    }
}

proof fn lemma_digits_value_nonneg(s: Seq<char>)
    requires
        forall|i: int| 0 <= i < s.len() ==> is_digit(s[i]),
    ensures
        digits_value(s) >= 0,
    decreases s.len(),
{
    if s.len() > 0 {
        lemma_digits_value_nonneg(s.drop_last());
    }
}

/// Parses a server id, the way `str::parse::<u64>` does.
pub fn parse_guild_id(text: &str) -> (r: Option<u64>)
    ensures
        r == parsed_u64(text@),
{
    let n = text.unicode_len();
    let start: usize = if n > 0 && text.get_char(0) == '+' {
        1
    } else {
        0
    };
    let ghost d = unsigned_digits(text@);
    assert(d =~= text@.subrange(start as int, n as int));
    if start == n {
        return None;
    }
    let mut acc: u128 = 0;
    let mut i: usize = start;
    while i < n
        invariant
            start <= i <= n,
            n == text@.len(),
            d == text@.subrange(start as int, n as int),
            d == unsigned_digits(text@),
            forall|j: int| 0 <= j < i - start ==> is_digit(d[j]),
            acc as int == capped(digits_value(d.take(i - start))),
        decreases n - i,
    {
        let c = text.get_char(i);
        if !('0' <= c && c <= '9') {
            assert(c == text@[i as int]);
            assert(d[i - start] == text@[i as int]);
            assert(!is_digit(d[i - start]));
            assert(exists|j: int| 0 <= j < d.len() && !is_digit(d[j]));
            return None;
        }
        let digit: u128 = (c as u32 - '0' as u32) as u128;
        let ghost prefix = d.take(i - start);
        proof {
            assert(d.take(i + 1 - start).drop_last() =~= prefix);
            lemma_digits_value_nonneg(prefix);
            let v = digits_value(prefix);
            assert(capped(capped(v) * 10 + digit) == capped(v * 10 + digit)) by (nonlinear_arith)
                requires
                    v >= 0,
                    0 <= digit < 10,
            ;
        }
        let next: u128 = acc * 10 + digit;
        acc = if next > 0x1_0000_0000_0000_0000 {
            0x1_0000_0000_0000_0000
        } else {
            next
        };
        i += 1;
    }
    assert(d.take(n - start) =~= d);
    if acc > u64::MAX as u128 {
        None
    } else {
        Some(acc as u64)
    }
}

proof fn lemma_digit_char_value(d: nat)
    requires
        d < 10,
    ensures
        is_digit(digit_char(d)),
        digit_value(digit_char(d)) == d,
{
    assert('0' as int == 48);
    assert('9' as int == 57);
}

proof fn lemma_decimal_digits(n: nat)
    ensures
        decimal(n).len() >= 1,
        forall|i: int| 0 <= i < decimal(n).len() ==> is_digit(#[trigger] decimal(n)[i]),
        digits_value(decimal(n)) == n,
    decreases n,
{
    lemma_digit_char_value(n % 10);
    if n >= 10 {
        lemma_decimal_digits(n / 10);
        let s = decimal(n / 10);
        assert(decimal(n) == s.push(digit_char(n % 10)));
        assert(decimal(n).drop_last() =~= s);
        assert(decimal(n).last() == digit_char(n % 10));
        assert(digits_value(decimal(n)) == digits_value(s) * 10 + digit_value(digit_char(n % 10)));
        assert((n / 10) * 10 + n % 10 == n) by (nonlinear_arith);
    } else {
        assert(decimal(n).drop_last() =~= Seq::<char>::empty());
        assert(decimal(n).last() == digit_char(n));
        assert(digits_value(decimal(n)) == digits_value(Seq::<char>::empty()) * 10 + digit_value(digit_char(n)));
    }
}

/// Parsing the decimal text of a number gives that number back.
pub proof fn lemma_parse_decimal_roundtrip(n: u64)
    ensures
        parsed_u64(decimal(n as nat)) == Some(n),
{
    lemma_decimal_digits(n as nat);
    let s = decimal(n as nat);
    assert(is_digit(s[0]));
    assert(unsigned_digits(s) == s);
}

} // verus!
