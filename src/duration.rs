//! Conversion between compound duration strings (`1h30m`, `10d 3h`) and whole seconds.
use vstd::prelude::*;

verus! {

/// Why a duration string was rejected.
#[derive(Debug, Clone, Copy, PartialEq, Eq, Structural)]
pub enum ParseError {
    /// A character outside digits, spaces and the unit letters, a unit letter
    /// with no digits before it, or digits with no unit after them.
    Malformed,
    /// The string is well formed but its total does not fit in a `u64`.
    TooLarge,
}

pub open spec fn is_digit(c: char) -> bool {
    '0' <= c && c <= '9'
}

pub open spec fn digit_value(c: char) -> nat {
    (c as int - '0' as int) as nat
}

/// Seconds in one unit named by `c`, if `c` is a unit letter.
pub open spec fn unit_seconds(c: char) -> Option<nat> {
    if c == 'd' {
        Some(86400)
    } else if c == 'h' {
        Some(3600)
    } else if c == 'm' {
        Some(60)
    } else if c == 's' {
        Some(1)
    } else {
        None
    }
}

/// Reads the rest `s` of a duration string, given the total of the tokens
/// already closed, the value of the digits read since the last unit, and
/// whether any digit was read since then.
pub open spec fn parse_rest(s: Seq<char>, total: nat, num: nat, pending: bool) -> Option<nat>
    decreases s.len(),
{
    if s.len() == 0 {
        if pending {
            None
        } else {
            Some(total)
        }
    } else {
        let c = s[0];
        let rest = s.subrange(1, s.len() as int);
        if is_digit(c) {
            parse_rest(rest, total, num * 10 + digit_value(c), true)
        } else if c == ' ' {
            parse_rest(rest, total, num, pending)
        } else if unit_seconds(c) is Some {
            if pending {
                parse_rest(rest, total + num * unit_seconds(c)->0, 0, false)
            } else {
                None
            }
        } else {
            None
        }
    }
}

/// The number of seconds that a duration string denotes, or `None` if it is malformed.
pub open spec fn parse_spec(s: Seq<char>) -> Option<nat> {
    parse_rest(s, 0, 0, false)
}

proof fn lemma_digit_overflow(num: int, d: int)
    requires
        0 <= d < 10,
        num > (u64::MAX - d) / 10,
    ensures
        num * 10 + d > u64::MAX,
{
}

proof fn lemma_unit_overflow(num: int, total: int, unit: int)
    requires
        unit >= 1,
        0 <= total <= u64::MAX,
        num > (u64::MAX - total) / unit,
    ensures
        total + num * unit > u64::MAX,
{
    assert(total + num * unit > u64::MAX) by (nonlinear_arith)
        requires
            unit >= 1,
            num > (u64::MAX - total) / unit,
            total <= u64::MAX,
    ;
}

proof fn lemma_unit_fits(num: int, total: int, unit: int)
    requires
        unit >= 1,
        0 <= total <= u64::MAX,
        0 <= num <= (u64::MAX - total) / unit,
    ensures
        total + num * unit <= u64::MAX,
{
    assert(total + num * unit <= u64::MAX) by (nonlinear_arith)
        requires
            unit >= 1,
            num <= (u64::MAX - total) / unit,
            total <= u64::MAX,
    ;
}

proof fn lemma_mul_grows(a: nat, b: nat)
    requires
        b >= 1,
    ensures
        a * b >= a,
{
    assert(a * b >= a) by (nonlinear_arith)
        requires
            b >= 1,
    ;
}

fn unit_seconds_of(c: char) -> (r: u64)
    requires
        unit_seconds(c) is Some,
    ensures
        r == unit_seconds(c)->0,
{
    if c == 'd' {
        86400
    } else if c == 'h' {
        3600
    } else if c == 'm' {
        60
    } else {
        1
    }
}

/// Parses a duration made of tokens such as `3d`, `4h`, `21m`, `10s`: a run of
/// decimal digits followed by a unit letter. Spaces are ignored, units may repeat
/// and come in any order, and their contributions add up. The empty string is
/// zero seconds.
pub fn duration_from_string(string: &str) -> (r: Result<u64, ParseError>)
    ensures
        match parse_spec(string@) {
            None => r == Err::<u64, ParseError>(ParseError::Malformed),
            Some(d) => if d <= u64::MAX {
                r == Ok::<u64, ParseError>(d as u64)
            } else {
                r == Err::<u64, ParseError>(ParseError::TooLarge)
            },
        },
{
    let n = string.unicode_len();
    let mut total: u64 = 0;
    let mut num: u64 = 0;
    let mut pending = false;
    let mut overflow = false;
    let ghost mut gt: nat = 0;
    let ghost mut gn: nat = 0;
    let mut i: usize = 0;
    assert(string@.subrange(0, n as int) =~= string@);
    while i < n
        invariant
            n == string@.len(),
            i <= n,
            parse_spec(string@) == parse_rest(string@.subrange(i as int, n as int), gt, gn, pending),
            !pending ==> gn == 0,
            !overflow ==> total == gt && num == gn,
            overflow ==> gt > u64::MAX || gn > u64::MAX,
        decreases n - i,
    {
        let c = string.get_char(i);
        let ghost s = string@.subrange(i as int, n as int);
        assert(s[0] == c);
        assert(s.subrange(1, s.len() as int) =~= string@.subrange(i + 1, n as int));
        if '0' <= c && c <= '9' {
            let d: u64 = (c as u32 - '0' as u32) as u64;
            assert(d == digit_value(c));
            proof {
                gn = (gn * 10 + d) as nat;
            }
            pending = true;
            if !overflow {
                if num <= (u64::MAX - d) / 10 {
                    num = num * 10 + d;
                } else {
                    proof {
                        lemma_digit_overflow(num as int, d as int);
                    }
                    overflow = true;
                }
            }
        } else if c == ' ' {
        } else if c == 'd' || c == 'h' || c == 'm' || c == 's' {
            if !pending {
                return Err(ParseError::Malformed);
            }
            let unit = unit_seconds_of(c);
            proof {
                lemma_mul_grows(gn, unit as nat);
                gt = (gt + gn * unit) as nat;
                gn = 0;
            }
            if !overflow {
                if num <= (u64::MAX - total) / unit {
                    proof {
                        lemma_unit_fits(num as int, total as int, unit as int);
                    }
                    total = total + num * unit;
                } else {
                    proof {
                        lemma_unit_overflow(num as int, total as int, unit as int);
                    }
                    overflow = true;
                }
            }
            num = 0;
            pending = false;
        } else {
            return Err(ParseError::Malformed);
        }
        i = i + 1;
    }
    assert(string@.subrange(n as int, n as int).len() == 0);
    if pending {
        Err(ParseError::Malformed)
    } else if overflow {
        Err(ParseError::TooLarge)
    } else {
        Ok(total)
    }
}

/// The character of a decimal digit.
pub open spec fn digit_char(d: nat) -> char {
    if d == 0 {
        '0'
    } else if d == 1 {
        '1'
    } else if d == 2 {
        '2'
    } else if d == 3 {
        '3'
    } else if d == 4 {
        '4'
    } else if d == 5 {
        '5'
    } else if d == 6 {
        '6'
    } else if d == 7 {
        '7'
    } else if d == 8 {
        '8'
    } else {
        '9'
    }
}

/// The decimal digits of `n`, without leading zeros.
pub open spec fn decimal(n: nat) -> Seq<char>
    decreases n,
{
    if n < 10 {
        seq![digit_char(n)]
    } else {
        decimal(n / 10).push(digit_char(n % 10))
    }
}

/// The canonical text of a duration of `secs` seconds: the largest non-zero unit
/// and every smaller one after it, or `0s` for zero.
pub open spec fn format_spec(secs: nat) -> Seq<char> {
    let days = secs / 86400;
    let hours = secs / 3600 % 24;
    let minutes = secs / 60 % 60;
    let seconds = secs % 60;
    if days > 0 {
        decimal(days) + seq!['d'] + decimal(hours) + seq!['h'] + decimal(minutes) + seq!['m']
            + decimal(seconds) + seq!['s']
    } else if hours > 0 {
        decimal(hours) + seq!['h'] + decimal(minutes) + seq!['m'] + decimal(seconds) + seq!['s']
    } else if minutes > 0 {
        decimal(minutes) + seq!['m'] + decimal(seconds) + seq!['s']
    } else {
        decimal(seconds) + seq!['s']
    }
}

fn digit_str(d: u64) -> (r: &'static str)
    requires
        d < 10,
    ensures
        r@ == seq![digit_char(d as nat)],
{
    proof {
        reveal_strlit("0");
        reveal_strlit("1");
        reveal_strlit("2");
        reveal_strlit("3");
        reveal_strlit("4");
        reveal_strlit("5");
        reveal_strlit("6");
        reveal_strlit("7");
        reveal_strlit("8");
        reveal_strlit("9");
    }
    let r = if d == 0 {
        "0"
    } else if d == 1 {
        "1"
    } else if d == 2 {
        "2"
    } else if d == 3 {
        "3"
    } else if d == 4 {
        "4"
    } else if d == 5 {
        "5"
    } else if d == 6 {
        "6"
    } else if d == 7 {
        "7"
    } else if d == 8 {
        "8"
    } else {
        "9"
    };
    assert(r@ =~= seq![digit_char(d as nat)]);
    r
}

fn append_decimal(out: &mut String, n: u64)
    ensures
        final(out)@ == old(out)@ + decimal(n as nat),
    decreases n,
{
    if n >= 10 {
        append_decimal(out, n / 10);
    }
    out.append(digit_str(n % 10));
    proof {
        if n >= 10 {
            assert(old(out)@ + decimal((n / 10) as nat) + seq![digit_char((n % 10) as nat)] =~= old(out)@
                + decimal(n as nat));
        } else {
            assert(old(out)@ + seq![digit_char((n % 10) as nat)] =~= old(out)@ + decimal(n as nat));
        }
    }
}

fn append_field(out: &mut String, n: u64, unit: &str)
    ensures
        final(out)@ == old(out)@ + decimal(n as nat) + unit@,
{
    append_decimal(out, n);
    out.append(unit);
}

/// The canonical text of a duration of `seconds` seconds: days, hours, minutes and
/// seconds from the largest non-zero unit down, with no separators (`1h0m5s`,
/// `0s`).
pub fn string_from_duration(seconds: u64) -> (r: String)
    ensures
        r@ == format_spec(seconds as nat),
{
    let secs = seconds % 60;
    let minutes = seconds / 60 % 60;
    let hours = seconds / 3600 % 24;
    let days = seconds / 86400;
    let mut out = String::new();
    proof {
        reveal_strlit("d");
        reveal_strlit("h");
        reveal_strlit("m");
        reveal_strlit("s");
    }
    if days > 0 {
        append_field(&mut out, days, "d");
    }
    if days > 0 || hours > 0 {
        append_field(&mut out, hours, "h");
    }
    if days > 0 || hours > 0 || minutes > 0 {
        append_field(&mut out, minutes, "m");
    }
    append_field(&mut out, secs, "s");
    assert(out@ =~= format_spec(seconds as nat));
    out
}

proof fn lemma_parse_decimal(n: nat, r: Seq<char>, total: nat)
    ensures
        parse_rest(decimal(n) + r, total, 0, false) == parse_rest(r, total, n, true),
    decreases n,
{
    let c = digit_char(n % 10);
    let cr = seq![c] + r;
    assert(cr.subrange(1, cr.len() as int) =~= r);
    assert(cr[0] == c);
    if n < 10 {
        assert(decimal(n) + r =~= cr);
    } else {
        lemma_parse_decimal(n / 10, cr, total);
        assert(decimal(n) + r =~= decimal(n / 10) + cr);
    }
}

proof fn lemma_parse_field(n: nat, u: char, r: Seq<char>, total: nat)
    requires
        unit_seconds(u) is Some,
    ensures
        parse_rest(decimal(n) + seq![u] + r, total, 0, false) == parse_rest(
            r,
            total + n * unit_seconds(u)->0,
            0,
            false,
        ),
{
    let ur = seq![u] + r;
    lemma_parse_decimal(n, ur, total);
    assert(decimal(n) + seq![u] + r =~= decimal(n) + ur);
    assert(ur.subrange(1, ur.len() as int) =~= r);
    assert(ur[0] == u);
}

/// Formatting a number of seconds and parsing the text gives the same number
/// back. Hence whatever string parses to `d` seconds, formatting `d` gives the
/// one canonical text of that duration.
pub proof fn lemma_format_parse_round_trip(secs: nat)
    ensures
        parse_spec(format_spec(secs)) == Some(secs),
{
    let days = secs / 86400;
    let hours = secs / 3600 % 24;
    let minutes = secs / 60 % 60;
    let seconds = secs % 60;
    let e = Seq::<char>::empty();
    let r4 = decimal(seconds) + seq!['s'] + e;
    let r3 = decimal(minutes) + seq!['m'] + r4;
    let r2 = decimal(hours) + seq!['h'] + r3;
    let r1 = decimal(days) + seq!['d'] + r2;
    assert(secs == days * 86400 + hours * 3600 + minutes * 60 + seconds);
    if days > 0 {
        assert(format_spec(secs) =~= r1);
        lemma_parse_field(days, 'd', r2, 0);
        lemma_parse_field(hours, 'h', r3, days * 86400);
        lemma_parse_field(minutes, 'm', r4, days * 86400 + hours * 3600);
        lemma_parse_field(seconds, 's', e, days * 86400 + hours * 3600 + minutes * 60);
    } else if hours > 0 {
        assert(format_spec(secs) =~= r2);
        lemma_parse_field(hours, 'h', r3, 0);
        lemma_parse_field(minutes, 'm', r4, hours * 3600);
        lemma_parse_field(seconds, 's', e, hours * 3600 + minutes * 60);
    } else if minutes > 0 {
        assert(format_spec(secs) =~= r3);
        lemma_parse_field(minutes, 'm', r4, 0);
        lemma_parse_field(seconds, 's', e, minutes * 60);
    } else {
        assert(format_spec(secs) =~= r4);
        lemma_parse_field(seconds, 's', e, 0);
    }
}

} // verus!
