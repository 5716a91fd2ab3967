//! Text formatting of rates and durations.
use vstd::prelude::*;

verus! {

pub open spec fn digit_char(d: int) -> char {
    if d == 0 {
        '0'
    } else if d == 1 {
        '1'
    } else if d == 2 {
        '2'
    } else if d == 3 {
        '3'
    } else if d == 4 {
        '4'
    } else if d == 5 {
        '5'
    } else if d == 6 {
        '6'
    } else if d == 7 {
        '7'
    } else if d == 8 {
        '8'
    } else {
        '9'
    }
}

/// Decimal digits of `n`, without leading zeros.
pub open spec fn decimal(n: nat) -> Seq<char>
    decreases n,
{
    if n < 10 {
        seq![digit_char(n as int)]
    } else {
        decimal(n / 10).push(digit_char((n % 10) as int))
    }
}

/// Decimal digits of `n`, padded with a zero to at least two.
pub open spec fn two_digits(n: nat) -> Seq<char> {
    if n < 10 {
        seq!['0'] + decimal(n)
    } else {
        decimal(n)
    }
}

pub open spec fn signed_decimal(v: int) -> Seq<char> {
    if v < 0 {
        seq!['-'] + decimal((-v) as nat)
    } else {
        decimal(v as nat)
    }
}

/// `v / unit` rounded to two decimals (halves up), written as `i.dd`.
pub open spec fn fixed2(v: nat, unit: nat) -> Seq<char> {
    let h = ((v * 100 + unit / 2) as int / unit as int) as nat;
    decimal(h / 100) + seq!['.'] + two_digits(h % 100)
}

/// A bit rate in the largest of Gbps, Mbps and Kbps that it reaches, with two
/// decimals; below 1000 as a whole number of bps.
pub open spec fn network_speed_text(bps: int) -> Seq<char> {
    if bps >= 1_000_000_000 {
        fixed2(bps as nat, 1_000_000_000) + " Gbps"@
    } else if bps >= 1_000_000 {
        fixed2(bps as nat, 1_000_000) + " Mbps"@
    } else if bps >= 1_000 {
        fixed2(bps as nat, 1_000) + " Kbps"@
    } else {
        signed_decimal(bps) + " bps"@
    }
}

/// A duration in seconds as `hh:mm:ss`; the hours take more digits when needed.
pub open spec fn uptime_text(secs: nat) -> Seq<char> {
    two_digits(secs / 3600) + seq![':'] + two_digits((secs % 3600) / 60) + seq![':'] + two_digits(
        secs % 60,
    )
}

fn digit_str(d: u64) -> (r: &'static str)
    requires
        d < 10,
    ensures
        r@ == seq![digit_char(d as int)],
{
    proof {
        reveal_strlit("0");
        reveal_strlit("1");
        reveal_strlit("2");
        reveal_strlit("3");
        reveal_strlit("4");
        reveal_strlit("5");
        reveal_strlit("6");
        reveal_strlit("7");
        reveal_strlit("8");
        reveal_strlit("9");
    }
    if d == 0 {
        "0"
    } else if d == 1 {
        "1"
    } else if d == 2 {
        "2"
    } else if d == 3 {
        "3"
    } else if d == 4 {
        "4"
    } else if d == 5 {
        "5"
    } else if d == 6 {
        "6"
    } else if d == 7 {
        "7"
    } else if d == 8 {
        "8"
    } else {
        "9"
    }
}

fn push_decimal(s: &mut String, n: u64)
    ensures
        final(s)@ == old(s)@ + decimal(n as nat),
    decreases n,
{
    if n >= 10 {
        push_decimal(s, n / 10);
    }
    s.append(digit_str(n % 10));
    proof {
        if n >= 10 {
            assert(final(s)@ =~= old(s)@ + decimal(n as nat));
        } else {
            assert(final(s)@ =~= old(s)@ + decimal(n as nat));
        }
    }
}

fn push_two_digits(s: &mut String, n: u64)
    ensures
        final(s)@ == old(s)@ + two_digits(n as nat),
{
    let ghost s0 = s@;
    if n < 10 {
        proof {
            reveal_strlit("0");
        }
        s.append("0");
    }
    push_decimal(s, n);
    proof {
        assert(final(s)@ =~= s0 + two_digits(n as nat));
    }
}

fn push_fixed2(s: &mut String, v: u64, unit: u64)
    requires
        unit >= 1,
        unit <= 1_000_000_000,
        v <= i64::MAX,
    ensures
        final(s)@ == old(s)@ + fixed2(v as nat, unit as nat),
{
    let ghost s0 = s@;
    let h: u128 = (v as u128 * 100 + (unit / 2) as u128) / unit as u128;
    proof {
        vstd::arithmetic::div_mod::lemma_div_is_ordered_by_denominator(
            v as int * 100 + (unit / 2) as int,
            1,
            unit as int,
        );
    }
    let whole: u128 = h / 100;
    let frac: u128 = h % 100;
    proof {
        assert(whole <= u64::MAX) by {
            vstd::arithmetic::div_mod::lemma_div_is_ordered(h as int, u64::MAX as int * 100, 100);
        }
    }
    push_decimal(s, whole as u64);
    proof {
        reveal_strlit(".");
    }
    s.append(".");
    push_two_digits(s, frac as u64);
    proof {
        assert(final(s)@ =~= s0 + fixed2(v as nat, unit as nat));
    }
}

/// Formats a bit rate for display.
pub fn format_network_speed(bps: i64) -> (r: String)
    ensures
        r@ == network_speed_text(bps as int),
{
    let mut s = String::new();
    if bps >= 1_000_000_000 {
        push_fixed2(&mut s, bps as u64, 1_000_000_000);
        s.append(" Gbps");
    } else if bps >= 1_000_000 {
        push_fixed2(&mut s, bps as u64, 1_000_000);
        s.append(" Mbps");
    } else if bps >= 1_000 {
        push_fixed2(&mut s, bps as u64, 1_000);
        s.append(" Kbps");
    } else {
        if bps < 0 {
            proof {
                reveal_strlit("-");
            }
            s.append("-");
            let m: u64 = (-(bps as i128)) as u64;
            push_decimal(&mut s, m);
        } else {
            push_decimal(&mut s, bps as u64);
        }
        s.append(" bps");
    }
    proof {
        assert(s@ =~= network_speed_text(bps as int));
    }
    s
}

/// Formats a duration in seconds as `hh:mm:ss`.
pub fn format_uptime(secs: u64) -> (r: String)
    ensures
        r@ == uptime_text(secs as nat),
{
    let mut s = String::new();
    push_two_digits(&mut s, secs / 3600);
    proof {
        reveal_strlit(":");
    }
    s.append(":");
    push_two_digits(&mut s, (secs % 3600) / 60);
    s.append(":");
    push_two_digits(&mut s, secs % 60);
    proof {
        assert(s@ =~= uptime_text(secs as nat));
    }
    s
}

} // verus!
