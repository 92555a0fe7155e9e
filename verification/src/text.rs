use vstd::prelude::*;

verus! {

/// The ASCII digit for `d`, which is below ten.
pub open spec fn digit_char(d: nat) -> char {
    if d == 0 {
        '0'
    } else if d == 1 {
        '1'
    } else if d == 2 {
        '2'
    } else if d == 3 {
        '3'
    } else if d == 4 {
        '4'
    } else if d == 5 {
        '5'
    } else if d == 6 {
        '6'
    } else if d == 7 {
        '7'
    } else if d == 8 {
        '8'
    } else {
        '9'
    }
}

/// The decimal representation of `n`, without leading zeros.
pub open spec fn decimal(n: nat) -> Seq<char>
    decreases n,
{
    if n < 10 {
        seq![digit_char(n)]
    } else {
        decimal(n / 10).push(digit_char(n % 10))
    }
}

/// The decimal representation of `x`, with a minus sign when it is negative.
pub open spec fn signed_decimal(x: int) -> Seq<char> {
    if x < 0 {
        seq!['-'] + decimal((-x) as nat)
    } else {
        decimal(x as nat)
    }
}

/// `n` in at least two digits, padded with a zero.
pub open spec fn two_digits(n: nat) -> Seq<char> {
    if n < 10 {
        seq!['0'] + decimal(n)
    } else {
        decimal(n)
    }
}

/// A number of seconds made a whole, non-negative `u64`, as a saturating cast does.
pub open spec fn whole_seconds(seconds: int) -> nat {
    if seconds < 0 {
        0
    } else if seconds > u64::MAX {
        u64::MAX as nat
    } else {
        seconds as nat
    }
}

/// A duration as hours, minutes and seconds: "1h 02m 03s", "4m 05s" or "6s".
pub open spec fn duration_text(seconds: int) -> Seq<char> {
    let t = whole_seconds(seconds);
    let h = t / 3600;
    let m = (t % 3600) / 60;
    let s = t % 60;
    if h > 0 {
        decimal(h) + seq!['h', ' '] + two_digits(m) + seq!['m', ' '] + two_digits(s) + seq!['s']
    } else if m > 0 {
        decimal(m) + seq!['m', ' '] + two_digits(s) + seq!['s']
    } else {
        decimal(s) + seq!['s']
    }
}

/// Milliseconds as whole seconds, rounded toward zero.
pub open spec fn seconds_of(ms: int) -> int {
    if ms >= 0 {
        ms / 1000
    } else {
        -((-ms) / 1000)
    }
}

fn digit_str(d: u64) -> (s: &'static str)
    requires
        d < 10,
    ensures
        s@ == seq![digit_char(d as nat)],
{
    if d == 0 {
        proof {
            reveal_strlit("0");
        }
        "0"
    } else if d == 1 {
        proof {
            reveal_strlit("1");
        }
        "1"
    } else if d == 2 {
        proof {
            reveal_strlit("2");
        }
        "2"
    } else if d == 3 {
        proof {
            reveal_strlit("3");
        }
        "3"
    } else if d == 4 {
        proof {
            reveal_strlit("4");
        }
        "4"
    } else if d == 5 {
        proof {
            reveal_strlit("5");
        }
        "5"
    } else if d == 6 {
        proof {
            reveal_strlit("6");
        }
        "6"
    } else if d == 7 {
        proof {
            reveal_strlit("7");
        }
        "7"
    } else if d == 8 {
        proof {
            reveal_strlit("8");
        }
        "8"
    } else {
        proof {
            reveal_strlit("9");
        }
        "9"
    }
}

/// Appends the decimal representation of `n`.
pub fn push_decimal(out: &mut String, n: u64)
    ensures
        final(out)@ == old(out)@ + decimal(n as nat),
    decreases n,
{
    if n >= 10 {
        push_decimal(out, n / 10);
    }
    out.append(digit_str(n % 10));
    assert(final(out)@ =~= old(out)@ + decimal(n as nat));
}

/// Appends the decimal representation of `x`, signed.
pub fn push_signed_decimal(out: &mut String, x: i64)
    ensures
        final(out)@ == old(out)@ + signed_decimal(x as int),
{
    if x < 0 {
        proof {
            reveal_strlit("-");
        }
        out.append("-");
        let magnitude: u64 = (-(x as i128)) as u64;
        push_decimal(out, magnitude);
        assert(final(out)@ =~= old(out)@ + signed_decimal(x as int));
    } else {
        push_decimal(out, x as u64);
    }
}

fn push_two_digits(out: &mut String, n: u64)
    ensures
        final(out)@ == old(out)@ + two_digits(n as nat),
{
    if n < 10 {
        proof {
            reveal_strlit("0");
        }
        out.append("0");
    }
    push_decimal(out, n);
    assert(final(out)@ =~= old(out)@ + two_digits(n as nat));
}

/// Formats a number of seconds as hours, minutes and seconds. Negative amounts
/// count as zero, and amounts past `u64::MAX` as `u64::MAX`.
pub fn format_duration(seconds: i128) -> (r: String)
    ensures
        r@ == duration_text(seconds as int),
{
    let total_seconds: u64 = if seconds < 0 {
        0
    } else if seconds > u64::MAX as i128 {
        u64::MAX
    } else {
        seconds as u64
    };
    let hours = total_seconds / 3600;
    let minutes = (total_seconds % 3600) / 60;
    let secs = total_seconds % 60;
    proof {
        reveal_strlit("h ");
        reveal_strlit("m ");
        reveal_strlit("s");
    }
    let mut out = String::new();
    if hours > 0 {
        push_decimal(&mut out, hours);
        out.append("h ");
        push_two_digits(&mut out, minutes);
        out.append("m ");
        push_two_digits(&mut out, secs);
        out.append("s");
    } else if minutes > 0 {
        push_decimal(&mut out, minutes);
        out.append("m ");
        push_two_digits(&mut out, secs);
        out.append("s");
    } else {
        push_decimal(&mut out, secs);
        out.append("s");
    }
    assert(out@ =~= duration_text(seconds as int));
    out
}

/// Formats a number of milliseconds as a duration, counting whole seconds.
pub fn format_millis(ms: i128) -> (r: String)
    ensures
        r@ == duration_text(seconds_of(ms as int)),
{
    let secs: i128 = if ms >= 0 {
        ms / 1000
    } else {
        let magnitude: u128 = (-(ms + 1)) as u128 + 1;
        -((magnitude / 1000) as i128)
    };
    format_duration(secs)
}


proof fn lemma_hms_parts(h: nat, m: nat, s: nat)
    requires
        m < 60,
        s < 60,
    ensures
        (h * 3600 + m * 60 + s) / 3600 == h,
        ((h * 3600 + m * 60 + s) % 3600) / 60 == m,
        (h * 3600 + m * 60 + s) % 60 == s,
{
    let t = h * 3600 + m * 60 + s;
    assert(t / 3600 == h && t % 3600 == m * 60 + s) by (nonlinear_arith)
        requires
            t == h * 3600 + m * 60 + s,
            m < 60,
            s < 60,
    ;
    assert((m * 60 + s) / 60 == m) by (nonlinear_arith)
        requires
            m < 60,
            s < 60,
    ;
    assert(t % 60 == s) by (nonlinear_arith)
        requires
            t == h * 3600 + m * 60 + s,
            s < 60,
    ;
}

/// A duration of `h` hours, `m` minutes and `s` seconds reads back as those
/// parts: "{h}h {mm}m {ss}s" with at least one hour, "{m}m {ss}s" with at
/// least one minute, "{s}s" otherwise; a negative duration reads "0s".
pub proof fn lemma_duration_text_parts(h: nat, m: nat, s: nat)
    requires
        m < 60,
        s < 60,
        h * 3600 + m * 60 + s <= u64::MAX,
    ensures
        h > 0 ==> duration_text((h * 3600 + m * 60 + s) as int) == decimal(h) + seq!['h', ' '] + two_digits(m)
            + seq!['m', ' '] + two_digits(s) + seq!['s'],
        h == 0 && m > 0 ==> duration_text((m * 60 + s) as int) == decimal(m) + seq!['m', ' '] + two_digits(s)
            + seq!['s'],
        h == 0 && m == 0 ==> duration_text(s as int) == decimal(s) + seq!['s'],
        forall|neg: int| neg < 0 ==> #[trigger] duration_text(neg) == seq!['0', 's'],
{
    lemma_hms_parts(h, m, s);
    assert forall|neg: int| neg < 0 implies #[trigger] duration_text(neg) == seq!['0', 's'] by {
        assert(decimal(0) == seq!['0']);
        assert(seq!['0'] + seq!['s'] =~= seq!['0', 's']);
    }
}

/// Two digits, padded with a zero below ten.
pub proof fn lemma_two_digits(n: nat)
    requires
        n < 100,
    ensures
        two_digits(n).len() == 2,
        two_digits(n) == seq![digit_char(n / 10), digit_char(n % 10)],
{
    if n < 10 {
        assert(two_digits(n) =~= seq!['0', digit_char(n)]);
    } else {
        assert(decimal(n / 10) == seq![digit_char(n / 10)]);
        assert(decimal(n) =~= seq![digit_char(n / 10), digit_char(n % 10)]);
    }
}

} // verus!
