//! Human-readable sizes, grouped integers, times and display names.

use vstd::prelude::*;
use vstd::string::*;
use crate::text::{
    chars_of, decimal, decimal_chars, decimal_string, digit_char, digit_of, last_index_of,
    lemma_last_index_of, push_char, push_str, rfind_char, signed_decimal, signed_decimal_string, string_of_range, trim_end_char,
    trim_end_char_len,
};

verus! {

/// The last segment of a cloud key, after dropping its trailing `/`s.
pub open spec fn display_name_of(key: Seq<char>) -> Seq<char> {
    let t = trim_end_char(key, '/');
    match last_index_of(t, '/') {
        Some(i) => t.subrange(i + 1, t.len() as int),
        None => t,
    }
}

/// Display name of a cloud key: its last segment (a directory prefix loses
/// its trailing `/` first).
pub fn display_name(key: &str) -> (r: &str)
    ensures
        r@ == display_name_of(key@),
{
    let v = chars_of(key);
    let n = trim_end_char_len(v.as_slice(), '/');
    proof {
        assert(v@.subrange(0, n as int) == trim_end_char(key@, '/'));
    }
    match rfind_char(v.as_slice(), n, '/') {
        Some(i) => {
            proof {
                lemma_last_index_of(v@.subrange(0, n as int), '/');
            }
            let r = key.substring_char(i + 1, n);
            proof {
                assert(v@.subrange(0, n as int).subrange(i + 1, n as int) =~= v@.subrange(
                    i + 1,
                    n as int,
                ));
            }
            r
        },
        None => key.substring_char(0, n),
    }
}

/// `value` with a `,` between every group of three digits, counted from the
/// right.
pub open spec fn group_thousands(d: Seq<char>) -> Seq<char>
    decreases d.len(),
{
    if d.len() <= 3 {
        d
    } else {
        group_thousands(d.subrange(0, d.len() - 3)) + seq![','] + d.subrange(
            d.len() - 3,
            d.len() as int,
        )
    }
}

fn group_digits(d: &[char], n: usize, out: &mut String)
    requires
        n <= d@.len(),
    ensures
        final(out)@ == old(out)@ + group_thousands(d@.subrange(0, n as int)),
    decreases n,
{
    if n <= 3 {
        let piece = string_of_range(d, 0, n);
        push_str(out, piece.as_str());
    } else {
        group_digits(d, n - 3, out);
        push_char(out, ',');
        let tail = string_of_range(d, n - 3, n);
        push_str(out, tail.as_str());
        proof {
            let p = d@.subrange(0, n as int);
            assert(p.subrange(0, p.len() - 3) =~= d@.subrange(0, n - 3));
            assert(p.subrange(p.len() - 3, p.len() as int) =~= d@.subrange(n - 3, n as int));
        }
    }
}

/// Decimal digits of `value` grouped by thousands with `,` (`36648` gives
/// `36,648`).
pub fn format_integer_grouped(value: u64) -> (s: String)
    ensures
        s@ == group_thousands(decimal(value as nat)),
{
    let digits = decimal_chars(value);
    let mut out = String::new();
    group_digits(digits.as_slice(), digits.len(), &mut out);
    assert(digits@.subrange(0, digits@.len() as int) =~= digits@);
    assert(Seq::<char>::empty() + group_thousands(digits@) =~= group_thousands(digits@));
    out
}

// ---------------------------------------------------------------------------
// Sizes
// ---------------------------------------------------------------------------

/// `1024^k`.
pub open spec fn pow1024(k: nat) -> nat
    decreases k,
{
    if k == 0 {
        1
    } else {
        1024 * pow1024((k - 1) as nat)
    }
}

/// `2^k`.
pub open spec fn pow2(k: nat) -> nat
    decreases k,
{
    if k == 0 {
        1
    } else {
        2 * pow2((k - 1) as nat)
    }
}

/// The unit a size is shown in: the largest of B, KB, MB, GB, TB that it
/// reaches (TB is the cap).
pub open spec fn size_unit(b: nat) -> nat {
    if b >= pow1024(4) {
        4
    } else if b >= pow1024(3) {
        3
    } else if b >= pow1024(2) {
        2
    } else if b >= pow1024(1) {
        1
    } else {
        0
    }
}

/// Name of size unit `k`.
pub open spec fn unit_name(k: nat) -> Seq<char> {
    if k == 0 {
        seq!['B']
    } else if k == 1 {
        seq!['K', 'B']
    } else if k == 2 {
        seq!['M', 'B']
    } else if k == 3 {
        seq!['G', 'B']
    } else {
        seq!['T', 'B']
    }
}

/// `q` rounded after dropping a remainder `r` of a divisor `d`: to nearest,
/// ties to even.
pub open spec fn round_half_even(q: nat, r: nat, d: nat) -> nat {
    if 2 * r > d || (2 * r == d && q % 2 == 1) {
        q + 1
    } else {
        q
    }
}

/// How many low bits `b` loses when it is held in a 53-bit significand.
pub open spec fn f64_shift(b: nat) -> nat
    decreases b,
{
    if b < 9007199254740992 {
        0
    } else {
        1 + f64_shift(b / 2)
    }
}

/// The value of `b as f64`: `b` rounded to 53 significant bits, to nearest,
/// ties to even.
pub open spec fn f64_value(b: nat) -> nat {
    let s = f64_shift(b);
    if s == 0 {
        b
    } else {
        round_half_even(b / pow2(s), b % pow2(s), pow2(s)) * pow2(s)
    }
}

/// Tenths of the size in its unit, rounded to nearest, ties to even (what
/// `{:.1}` prints of `b as f64 / 1024^unit`).
pub open spec fn size_tenths(b: nat) -> nat {
    let f = f64_value(b);
    let d = pow1024(size_unit(b));
    round_half_even(f * 10 / d, f * 10 % d, d)
}

/// The text `format_size` shows for `b` bytes.
pub open spec fn format_size_spec(b: nat) -> Seq<char> {
    if b < 1024 {
        decimal(b) + seq![' ', 'B']
    } else {
        let t = size_tenths(b);
        decimal(t / 10) + seq!['.', digit_char(t % 10), ' '] + unit_name(size_unit(b))
    }
}

proof fn lemma_pow1024_values()
    ensures
        pow1024(0) == 1,
        pow1024(1) == 1024,
        pow1024(2) == 1048576,
        pow1024(3) == 1073741824,
        pow1024(4) == 1099511627776,
{
    reveal_with_fuel(pow1024, 5);
}

proof fn lemma_pow2_53()
    ensures
        pow2(53) == 9007199254740992,
{
    reveal_with_fuel(pow2, 54);
}

proof fn lemma_pow2_pos(k: nat)
    ensures
        pow2(k) >= 1,
    decreases k,
{
    if k > 0 {
        lemma_pow2_pos((k - 1) as nat);
    }
}

proof fn lemma_pow2_gt(k: nat)
    ensures
        pow2(k) > k,
        pow2(k) >= 1,
    decreases k,
{
    if k > 0 {
        lemma_pow2_gt((k - 1) as nat);
    }
}

/// `b as f64` computed in integers.
fn f64_of(b: u64) -> (f: u128)
    ensures
        f == f64_value(b as nat),
        f < 36893488147419103232,
{
    proof {
        lemma_pow2_53();
        reveal_with_fuel(f64_shift, 2);
    }
    if b < 9007199254740992 {
        return b as u128;
    }
    let mut q: u64 = b;
    let mut s: u32 = 0;
    let mut p: u64 = 1;
    // Drop low bits until 53 remain: `q == b / 2^s`.
    while q >= 9007199254740992
        invariant
            b >= 9007199254740992,
            p == pow2(s as nat),
            p >= 1,
            q == b / p,
            q as nat * p as nat <= b,
            s <= 2048,
            p <= 4096,
            f64_shift(b as nat) == s + f64_shift(q as nat),
            s == 0 ==> q == b,
        decreases q,
    {
        proof {
            lemma_pow2_53();
            assert(f64_shift(q as nat) == 1 + f64_shift((q / 2) as nat));
            assert(p < 2048) by (nonlinear_arith)
                requires
                    q as nat * p as nat <= b,
                    q >= 9007199254740992,
                    b < 18446744073709551616,
            ;
            vstd::arithmetic::div_mod::lemma_div_denominator(b as int, p as int, 2);
            lemma_pow2_gt(s as nat);
        }
        q = q / 2;
        s = s + 1;
        p = p * 2;
        proof {
            assert(pow2(s as nat) == 2 * pow2((s - 1) as nat));
            let pp = p as nat;
            let qq = q as nat;
            assert(qq * pp <= b) by (nonlinear_arith)
                requires
                    pp > 0,
                    qq == b as nat / pp,
            ;
        }
    }
    proof {
        lemma_pow2_53();
        assert(f64_shift(q as nat) == 0);
        assert(s >= 1);
    }
    let r: u64 = b % p;
    let rounded: u64 = if 2 * (r as u128) > p as u128 || (2 * (r as u128) == p as u128 && q % 2 == 1) {
        q + 1
    } else {
        q
    };
    proof {
        assert((rounded as nat) * (p as nat) <= 9007199254740993 * 4096) by (nonlinear_arith)
            requires
                rounded <= 9007199254740993,
                p <= 4096,
        ;
    }
    let f: u128 = (rounded as u128) * (p as u128);
    proof {
        let pp = p as nat;
        let qq = q as nat;
        assert(qq * pp + pp <= b + pp) by (nonlinear_arith)
            requires
                qq * pp <= b,
        ;
        assert((qq + 1) * pp == qq * pp + pp) by (nonlinear_arith);
        assert(rounded as nat * pp <= (qq + 1) * pp) by (nonlinear_arith)
            requires
                rounded <= qq + 1,
                pp >= 1,
        ;
        assert(p < 18446744073709551616);
    }
    f
}

/// Bytes in a human-readable unit: below 1 KB as a whole number of bytes,
/// otherwise in KB, MB, GB or TB with one decimal (TB is the largest unit).
pub fn format_size(bytes: u64) -> (s: String)
    ensures
        s@ == format_size_spec(bytes as nat),
{
    proof {
        lemma_pow1024_values();
    }
    if bytes < 1024 {
        let mut s = decimal_string(bytes);
        push_char(&mut s, ' ');
        push_char(&mut s, 'B');
        assert(s@ =~= decimal(bytes as nat) + seq![' ', 'B']);
        return s;
    }
    let unit: u64 = if bytes >= 1099511627776 {
        4
    } else if bytes >= 1073741824 {
        3
    } else if bytes >= 1048576 {
        2
    } else {
        1
    };
    let d: u128 = if unit == 4 {
        1099511627776
    } else if unit == 3 {
        1073741824
    } else if unit == 2 {
        1048576
    } else {
        1024
    };
    assert(unit == size_unit(bytes as nat) && d == pow1024(unit as nat));
    let f = f64_of(bytes);
    let num: u128 = f * 10;
    let q: u128 = num / d;
    let r: u128 = num % d;
    let t: u128 = if 2 * r > d || (2 * r == d && q % 2 == 1) {
        q + 1
    } else {
        q
    };
    assert(t == size_tenths(bytes as nat));
    proof {
        assert(q <= num / 1024) by {
            vstd::arithmetic::div_mod::lemma_div_is_ordered_by_denominator(num as int, 1024, d as int);
        }
    }
    let whole: u64 = (t / 10) as u64;
    let frac: u64 = (t % 10) as u64;
    let mut s = decimal_string(whole);
    push_char(&mut s, '.');
    push_char(&mut s, digit_of(frac));
    push_char(&mut s, ' ');
    if unit == 4 {
        push_char(&mut s, 'T');
    } else if unit == 3 {
        push_char(&mut s, 'G');
    } else if unit == 2 {
        push_char(&mut s, 'M');
    } else {
        push_char(&mut s, 'K');
    }
    push_char(&mut s, 'B');
    assert(s@ =~= decimal(t as nat / 10) + seq!['.', digit_char(t as nat % 10), ' '] + unit_name(
        unit as nat,
    ));
    s
}

// ---------------------------------------------------------------------------
// Times
// ---------------------------------------------------------------------------

/// The earliest millisecond count chrono turns into a date: the start of
/// year -262143 (`NaiveDate::MIN`), in UTC.
pub const MIN_DATE_MILLIS: i64 = -8334601228800000;

/// The latest millisecond count chrono turns into a date: the last
/// millisecond of year 262142 (`NaiveDate::MAX`), in UTC.
pub const MAX_DATE_MILLIS: i64 = 8210266876799999;

/// `chrono::DateTime::from_timestamp_millis(millis)` yields a date exactly
/// for the millisecond counts between chrono's first and last date.
pub open spec fn millis_in_date_range(millis: i64) -> bool {
    MIN_DATE_MILLIS <= millis <= MAX_DATE_MILLIS
}

/// An ASCII digit.
pub open spec fn is_digit(c: char) -> bool {
    '0' <= c && c <= '9'
}

/// The value of two digits.
pub open spec fn two_digit_value(a: char, b: char) -> int {
    (a as int - '0' as int) * 10 + (b as int - '0' as int)
}

/// Two digits whose value lies in `lo..=hi`.
pub open spec fn two_digits_in(t: Seq<char>, i: int, lo: int, hi: int) -> bool {
    &&& is_digit(t[i])
    &&& is_digit(t[i + 1])
    &&& lo <= two_digit_value(t[i], t[i + 1]) <= hi
}

/// A year as chrono's `%Y` writes it: four digits for the years 0 to 9999,
/// otherwise a sign (`+` or `-`) and at least four digits.
pub open spec fn year_text(y: Seq<char>) -> bool {
    ||| y.len() == 4 && forall|i: int| 0 <= i < 4 ==> is_digit(#[trigger] y[i])
    ||| y.len() >= 5 && (y[0] == '+' || y[0] == '-') && forall|i: int| 1 <= i < y.len() ==> is_digit(#[trigger] y[i])
}

/// The shape of `%Y-%m-%d %H:%M`: a year (see `year_text`), then `-`, the
/// month (01–12), `-`, the day (01–31), a space, the hour (00–23), `:` and
/// the minute (00–59), each two digits.
pub open spec fn minutes_text_shape(t: Seq<char>) -> bool {
    let n = t.len() as int;
    &&& n >= 16
    &&& year_text(t.subrange(0, n - 12))
    &&& t[n - 12] == '-'
    &&& two_digits_in(t, n - 11, 1, 12)
    &&& t[n - 9] == '-'
    &&& two_digits_in(t, n - 8, 1, 31)
    &&& t[n - 6] == ' '
    &&& two_digits_in(t, n - 5, 0, 23)
    &&& t[n - 3] == ':'
    &&& two_digits_in(t, n - 2, 0, 59)
}

/// `d` zero-padded on the left to at least four characters.
pub open spec fn zero_pad4(d: Seq<char>) -> Seq<char> {
    if d.len() >= 4 {
        d
    } else {
        Seq::new((4 - d.len()) as nat, |i: int| '0') + d
    }
}

/// A year as chrono's `%Y` writes it: zero-padded to four digits for the
/// years 0 to 9999, otherwise with a sign before at least four digits.
pub open spec fn year_digits(y: int) -> Seq<char> {
    if 0 <= y <= 9999 {
        zero_pad4(decimal(y as nat))
    } else if y > 9999 {
        seq!['+'] + zero_pad4(decimal(y as nat))
    } else {
        seq!['-'] + zero_pad4(decimal((-y) as nat))
    }
}

/// A number below 100 as two digits.
pub open spec fn two_digits(v: int) -> Seq<char> {
    seq![digit_char((v / 10) as nat), digit_char((v % 10) as nat)]
}

/// The proleptic Gregorian `(year, month, day)` of the day `z` counted
/// from 1970-01-01 (day 0).
pub open spec fn civil_from_days(z: int) -> (int, int, int) {
    let zz = z + 719468;
    let era = zz / 146097;
    let doe = zz - era * 146097;
    let yoe = (doe - doe / 1460 + doe / 36524 - doe / 146096) / 365;
    let doy = doe - (365 * yoe + yoe / 4 - yoe / 100);
    let mp = (5 * doy + 2) / 153;
    let d = doy - (153 * mp + 2) / 5 + 1;
    let m = if mp < 10 {
        mp + 3
    } else {
        mp - 9
    };
    let y = yoe + era * 400 + if m <= 2 {
        1int
    } else {
        0int
    };
    (y, m, d)
}

/// `%Y-%m-%d %H:%M` of the instant `secs` seconds after 1970-01-01 00:00
/// (in whatever zone the count is taken).
pub open spec fn minutes_text_of(secs: int) -> Seq<char> {
    let days = secs / 86400;
    let sod = secs % 86400;
    let ymd = civil_from_days(days);
    year_digits(ymd.0) + seq!['-'] + two_digits(ymd.1) + seq!['-'] + two_digits(ymd.2) + seq![' ']
        + two_digits(sod / 3600) + seq![':'] + two_digits((sod % 3600) / 60)
}

/// The text is the local rendering of `millis`: `%Y-%m-%d %H:%M` of its
/// whole seconds shifted by some local offset of less than a day.
pub open spec fn local_text_of(millis: i64, t: Seq<char>) -> bool {
    exists|o: int| -86400 < o < 86400 && t == #[trigger] minutes_text_of(millis as int / 1000 + o)
}

/// `chrono::DateTime::from_timestamp_millis`, shown in the local time zone
/// (`with_timezone(&chrono::Local)`) as `%Y-%m-%d %H:%M`. The contract
/// states when a text comes back, its shape (chrono's `%Y`, `%m`, `%d`,
/// `%H`, `%M`), and that it renders the instant's whole seconds shifted by
/// the local offset, which `FixedOffset` keeps strictly within a day; which
/// offset applies depends on the machine's time zone and is left unsaid. Without readable time-zone data chrono falls back to
/// UTC; it panics only on zone data that loads but cannot place the
/// instant, which depends on the machine, not on `millis`.
#[verifier::external_body]
fn local_minutes_text(millis: i64) -> (r: Option<String>)
    ensures
        r is Some == millis_in_date_range(millis),
        r matches Some(t) ==> minutes_text_shape(t@),
        r matches Some(t) ==> local_text_of(millis, t@),
{
    match chrono::DateTime::from_timestamp_millis(millis) {
        Some(utc) => Some(utc.with_timezone(&chrono::Local).format("%Y-%m-%d %H:%M").to_string()),
        None => None,
    }
}

/// The text shown for a modification time, given the local date text of
/// `millis` when there is one: that text, or else the number itself
/// (an invalid timestamp is never dressed up as a date).
pub fn format_time_from(millis: i64, local: Option<String>) -> (s: String)
    ensures
        match local {
            Some(t) => s@ == t@,
            None => s@ == signed_decimal(millis as int),
        },
{
    match local {
        Some(t) => t,
        None => signed_decimal_string(millis),
    }
}

/// Epoch milliseconds as local `YYYY-MM-DD HH:MM` (the rendering of the
/// instant shifted by the local offset, see `local_text_of`); a timestamp outside
/// the representable range is shown as its number.
pub fn format_time(millis: i64) -> (s: String)
    ensures
        millis_in_date_range(millis) ==> minutes_text_shape(s@) && local_text_of(millis, s@),
        !millis_in_date_range(millis) ==> s@ == signed_decimal(millis as int),
{
    let local = local_minutes_text(millis);
    format_time_from(millis, local)
}

} // verus!
