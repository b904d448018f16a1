//! Decimal numbers in files and on screen: the daemon's PID and port files,
//! and how an uptime is shown.

use vstd::prelude::*;

use crate::error::CortexError;
use crate::text::{to_chars, trim, trim_end, trim_start, trim_range};

verus! {

broadcast use vstd::string::group_string_axioms;

/// An ASCII decimal digit.
pub open spec fn is_digit(c: char) -> bool {
    '0' <= c && c <= '9'
}

/// The value of a decimal digit.
pub open spec fn digit_value(c: char) -> nat {
    ((c as u32) - ('0' as u32)) as nat
}

/// The value of a sequence of decimal digits.
pub open spec fn digits_value(d: Seq<char>) -> nat
    decreases d.len(),
{
    if d.len() == 0 {
        0
    } else {
        digits_value(d.drop_last()) * 10 + digit_value(d.last())
    }
}

/// Every character of `d` is a decimal digit.
pub open spec fn all_digits(d: Seq<char>) -> bool {
    forall|i: int| 0 <= i < d.len() ==> is_digit(#[trigger] d[i])
}

/// The digits of an unsigned number written as an optional `+` followed by
/// at least one decimal digit, as the `FromStr` of unsigned integers reads it.
pub open spec fn unsigned_digits(s: Seq<char>) -> Option<Seq<char>> {
    if s.len() == 0 {
        None
    } else {
        let d = if s[0] == '+' {
            s.drop_first()
        } else {
            s
        };
        if d.len() > 0 && all_digits(d) {
            Some(d)
        } else {
            None
        }
    }
}

/// `s` read as an unsigned number no greater than `max`.
pub open spec fn parse_unsigned(s: Seq<char>, max: nat) -> Option<nat> {
    match unsigned_digits(s) {
        Some(d) => if digits_value(d) <= max {
            Some(digits_value(d))
        } else {
            None
        },
        None => None,
    }
}

/// A longer run of digits is worth at least as much as its prefix.
pub proof fn lemma_digits_value_prefix(d: Seq<char>, k: int)
    requires
        0 <= k <= d.len(),
    ensures
        digits_value(d.take(k)) <= digits_value(d),
    decreases d.len(),
{
    if k < d.len() {
        lemma_digits_value_prefix(d.drop_last(), k);
        assert(d.drop_last().take(k) =~= d.take(k));
    } else {
        assert(d.take(k) =~= d);
    }
}

/// `v[lo..hi]` read as an unsigned number no greater than `max`.
fn parse_unsigned_range(v: &Vec<char>, lo: usize, hi: usize, max: u64) -> (r: Option<u64>)
    requires
        lo <= hi <= v@.len(),
        max <= u32::MAX,
    ensures
        match r {
            Some(n) => parse_unsigned(v@.subrange(lo as int, hi as int), max as nat) == Some(
                n as nat,
            ),
            None => parse_unsigned(v@.subrange(lo as int, hi as int), max as nat) is None,
        },
{
    let ghost s = v@.subrange(lo as int, hi as int);
    if lo == hi {
        return None;
    }
    let mut i = lo;
    assert(s[0] == v@[lo as int]);
    if v[lo] == '+' {
        i = lo + 1;
        assert(s.drop_first() =~= v@.subrange(i as int, hi as int));
    } else {
        assert(s =~= v@.subrange(i as int, hi as int));
    }
    let ghost d = v@.subrange(i as int, hi as int);
    assert(unsigned_digits(s) == (if d.len() > 0 && all_digits(d) {
        Some(d)
    } else {
        None
    }));
    if i == hi {
        return None;
    }
    let start = i;
    let mut acc: u64 = 0;
    while i < hi
        invariant
            lo <= start <= i <= hi <= v@.len(),
            start < hi,
            d == v@.subrange(start as int, hi as int),
            s == v@.subrange(lo as int, hi as int),
            unsigned_digits(s) == (if d.len() > 0 && all_digits(d) {
                Some(d)
            } else {
                None
            }),
            max <= u32::MAX,
            acc <= max,
            forall|k: int| start <= k < i ==> is_digit(#[trigger] v@[k]),
            acc == digits_value(v@.subrange(start as int, i as int)),
        decreases hi - i,
    {
        let c = v[i];
        if !('0' <= c && c <= '9') {
            assert(!is_digit(d[i - start]));
            return None;
        }
        let dv = ((c as u32) - ('0' as u32)) as u64;
        assert(v@.subrange(start as int, i + 1).drop_last() =~= v@.subrange(start as int, i as int));
        if acc * 10 + dv > max {
            proof {
                lemma_digits_value_prefix(d, i + 1 - start);
                assert(d.take(i + 1 - start) =~= v@.subrange(start as int, i + 1));
            }
            return None;
        }
        acc = acc * 10 + dv;
        i = i + 1;
    }
    assert(v@.subrange(start as int, i as int) =~= d);
    assert forall|k: int| 0 <= k < d.len() implies is_digit(#[trigger] d[k]) by {
        assert(d[k] == v@[start + k]);
    }
    assert(all_digits(d));
    Some(acc)
}

/// The process id held in a PID file's text: the trimmed text read as a `u32`.
pub fn pid_from_text(content: &str) -> (r: Option<u32>)
    ensures
        match r {
            Some(n) => parse_unsigned(trim(content@), u32::MAX as nat) == Some(n as nat),
            None => parse_unsigned(trim(content@), u32::MAX as nat) is None,
        },
{
    let v = to_chars(content);
    let (a, b) = trim_range(&v, 0, v.len());
    assert(v@.subrange(0, v@.len() as int) =~= content@);
    match parse_unsigned_range(&v, a, b, u32::MAX as u64) {
        Some(n) => Some(n as u32),
        None => None,
    }
}

/// The port held in the daemon's port file: the trimmed text read as a `u16`.
pub fn port_from_text(content: &str) -> (r: Result<u16, CortexError>)
    ensures
        match r {
            Ok(n) => parse_unsigned(trim(content@), u16::MAX as nat) == Some(n as nat),
            Err(e) => parse_unsigned(trim(content@), u16::MAX as nat) is None && (e matches CortexError::Config(
                m,
            ) && m@ == "Invalid port in socket file"@),
        },
{
    let v = to_chars(content);
    let (a, b) = trim_range(&v, 0, v.len());
    assert(v@.subrange(0, v@.len() as int) =~= content@);
    match parse_unsigned_range(&v, a, b, u16::MAX as u64) {
        Some(n) => Ok(n as u16),
        None => Err(CortexError::Config("Invalid port in socket file".to_string())),
    }
}

/// The decimal digit for `d`, below ten.
pub open spec fn digit_char(d: nat) -> char {
    if d == 0 {
        '0'
    } else if d == 1 {
        '1'
    } else if d == 2 {
        '2'
    } else if d == 3 {
        '3'
    } else if d == 4 {
        '4'
    } else if d == 5 {
        '5'
    } else if d == 6 {
        '6'
    } else if d == 7 {
        '7'
    } else if d == 8 {
        '8'
    } else {
        '9'
    }
}

/// `n` written in decimal, as `to_string` writes an unsigned integer.
pub open spec fn decimal(n: nat) -> Seq<char>
    decreases n,
{
    if n < 10 {
        seq![digit_char(n)]
    } else {
        decimal(n / 10).push(digit_char(n % 10))
    }
}

fn digit_char_exec(d: u64) -> (c: char)
    requires
        d < 10,
    ensures
        c == digit_char(d as nat),
{
    if d == 0 {
        '0'
    } else if d == 1 {
        '1'
    } else if d == 2 {
        '2'
    } else if d == 3 {
        '3'
    } else if d == 4 {
        '4'
    } else if d == 5 {
        '5'
    } else if d == 6 {
        '6'
    } else if d == 7 {
        '7'
    } else if d == 8 {
        '8'
    } else {
        '9'
    }
}

fn push_decimal(n: u64, out: &mut Vec<char>)
    ensures
        final(out)@ == old(out)@ + decimal(n as nat),
    decreases n,
{
    if n >= 10 {
        push_decimal(n / 10, out);
        let ghost mid = out@;
        out.push(digit_char_exec(n % 10));
        assert(decimal(n as nat) == decimal((n / 10) as nat).push(digit_char((n % 10) as nat)));
        assert(out@ =~= old(out)@ + decimal(n as nat));
    } else {
        out.push(digit_char_exec(n));
        assert(out@ =~= old(out)@ + decimal(n as nat));
    }
}

/// `n` written in decimal: what the daemon writes to its PID and port files.
pub fn decimal_text(n: u64) -> (s: String)
    ensures
        s@ == decimal(n as nat),
{
    let mut v: Vec<char> = Vec::new();
    push_decimal(n, &mut v);
    assert(v@ =~= decimal(n as nat));
    crate::text::string_from_chars(&v)
}

proof fn lemma_digit_char(d: nat)
    requires
        d < 10,
    ensures
        is_digit(digit_char(d)),
        digit_value(digit_char(d)) == d,
{
}

/// The decimal form of `n` is a nonempty run of digits worth `n`.
pub proof fn lemma_decimal_digits(n: nat)
    ensures
        decimal(n).len() > 0,
        all_digits(decimal(n)),
        digits_value(decimal(n)) == n,
    decreases n,
{
    if n < 10 {
        lemma_digit_char(n);
        assert(decimal(n).drop_last() =~= Seq::<char>::empty());
        assert(digits_value(decimal(n)) == digits_value(Seq::<char>::empty()) * 10 + digit_value(digit_char(n)));
    } else {
        lemma_decimal_digits(n / 10);
        lemma_digit_char(n % 10);
        let d = decimal(n);
        assert(d.drop_last() =~= decimal(n / 10));
        assert forall|i: int| 0 <= i < d.len() implies is_digit(#[trigger] d[i]) by {
            if i < d.len() - 1 {
                assert(d[i] == decimal(n / 10)[i]);
            }
        }
        assert(d.last() == digit_char(n % 10));
        assert(digits_value(d) == digits_value(decimal(n / 10)) * 10 + digit_value(digit_char(n % 10)));
        assert(n == (n / 10) * 10 + n % 10);
    }
}

/// Reading back a number written in decimal gives the number, as long as it
/// fits: the PID and port files hold what the daemon wrote.
pub proof fn lemma_decimal_round_trip(n: nat, max: nat)
    requires
        n <= max,
    ensures
        parse_unsigned(trim(decimal(n)), max) == Some(n),
{
    lemma_decimal_digits(n);
    let d = decimal(n);
    assert(is_digit(d[0]));
    assert(trim_start(d) == d);
    assert(is_digit(d.last()));
    assert(trim_end(d) == d);
    assert(d[0] != '+');
}

/// An uptime in seconds as hours, minutes and seconds.
pub fn uptime_parts(secs: u64) -> (r: (u64, u64, u64))
    ensures
        r.0 == secs / 3600,
        r.1 == (secs % 3600) / 60,
        r.2 == secs % 60,
        r.0 * 3600 + r.1 * 60 + r.2 == secs,
        r.1 < 60,
        r.2 < 60,
{
    let hours = secs / 3600;
    let mins = (secs % 3600) / 60;
    let s = secs % 60;
    assert(hours * 3600 + mins * 60 + s == secs) by (nonlinear_arith)
        requires
            hours == secs / 3600,
            mins == (secs % 3600) / 60,
            s == secs % 60,
    ;
    (hours, mins, s)
}

} // verus!
