//! Settings form: optional text fields and whole-number fields.

use vstd::prelude::*;
use crate::text::{string_from, trim, trim_string, trimmed_chars};

verus! {

/// A text field's value: the trimmed text, or nothing when it is blank.
pub fn optional_text(value: String) -> (r: Option<String>)
    ensures
        match r {
            Some(t) => trim(value@).len() > 0 && t@ == trim(value@),
            None => trim(value@).len() == 0,
        },
{
    let trimmed = trim_string(value.as_str());
    if trimmed.unicode_len() == 0 {
        None
    } else {
        Some(trimmed)
    }
}

/// The ASCII digit `c` stands for.
pub open spec fn digit_value(c: char) -> int {
    (c as u32) - ('0' as u32)
}

/// `c` is an ASCII digit.
pub open spec fn is_digit(c: char) -> bool {
    '0' <= c && c <= '9'
}

/// The number the decimal digits `d` spell.
pub open spec fn digits_value(d: Seq<char>) -> int
    decreases d.len(),
{
    if d.len() == 0 {
        0
    } else {
        digits_value(d.drop_last()) * 10 + digit_value(d.last())
    }
}

/// The digits `parsed_unsigned` reads: `s` without a leading `+`.
pub open spec fn unsigned_digits(s: Seq<char>) -> Seq<char> {
    if s.len() > 0 && s[0] == '+' {
        s.drop_first()
    } else {
        s
    }
}

/// What unsigned integer parsing (`str::parse`) reads from `s`: an
/// optional `+` followed by at least one ASCII digit and nothing else,
/// when the number is at most `max`.
pub open spec fn parsed_unsigned(s: Seq<char>, max: int) -> Option<int> {
    let d = unsigned_digits(s);
    if d.len() > 0 && (forall|i: int| 0 <= i < d.len() ==> is_digit(#[trigger] d[i])) && digits_value(d)
        <= max {
        Some(digits_value(d))
    } else {
        None
    }
}

proof fn lemma_digits_value_nonneg(d: Seq<char>)
    requires
        forall|i: int| 0 <= i < d.len() ==> is_digit(#[trigger] d[i]),
    ensures
        digits_value(d) >= 0,
    decreases d.len(),
{
    if d.len() > 0 {
        assert forall|i: int| 0 <= i < d.drop_last().len() implies is_digit(#[trigger] d.drop_last()[i]) by {
            assert(d.drop_last()[i] == d[i]);
        }
        lemma_digits_value_nonneg(d.drop_last());
        assert(is_digit(d[d.len() - 1]));
    }
}

/// A longer run of digits is worth at least as much as its prefix times ten.
proof fn lemma_digits_value_grows(d: Seq<char>, k: int)
    requires
        0 <= k <= d.len(),
        forall|i: int| 0 <= i < d.len() ==> is_digit(#[trigger] d[i]),
    ensures
        digits_value(d) >= digits_value(d.subrange(0, k)),
    decreases d.len() - k,
{
    if k < d.len() {
        assert(d.drop_last() =~= d.subrange(0, d.len() - 1));
        assert forall|i: int| 0 <= i < d.drop_last().len() implies is_digit(#[trigger] d.drop_last()[i]) by {
            assert(d.drop_last()[i] == d[i]);
        }
        lemma_digits_value_grows(d.drop_last(), k);
        assert(d.drop_last().subrange(0, k) =~= d.subrange(0, k));
        lemma_digits_value_nonneg(d.drop_last());
        assert(is_digit(d[d.len() - 1]));
    } else {
        assert(d.subrange(0, k) =~= d);
    }
}

/// Parses an unsigned number of at most `max` (see `parsed_unsigned`).
fn parse_unsigned(v: &[char], max: u64) -> (r: Option<u64>)
    requires
        max >= 9,
    ensures
        match r {
            Some(n) => parsed_unsigned(v@, max as int) == Some(n as int),
            None => parsed_unsigned(v@, max as int) is None,
        },
{
    let start: usize = if v.len() > 0 && v[0] == '+' {
        1
    } else {
        0
    };
    let ghost d = unsigned_digits(v@);
    assert(d =~= v@.subrange(start as int, v@.len() as int));
    if start == v.len() {
        return None;
    }
    let mut value: u64 = 0;
    let mut i: usize = start;
    while i < v.len()
        invariant
            start <= i <= v@.len(),
            start < v@.len(),
            d =~= v@.subrange(start as int, v@.len() as int),
            forall|j: int| start <= j < i ==> is_digit(#[trigger] v@[j]),
            value as int == digits_value(v@.subrange(start as int, i as int)),
            value <= max,
            max >= 9,
            d == unsigned_digits(v@),
        decreases v.len() - i,
    {
        let c = v[i];
        if !('0' <= c && c <= '9') {
            proof {
                assert(d[i - start] == c);
                assert(!is_digit(d[i - start]));
                assert(!(forall|j: int| 0 <= j < d.len() ==> is_digit(#[trigger] d[j])));
                assert(parsed_unsigned(v@, max as int) is None);
            }
            return None;
        }
        let digit = (c as u32 - '0' as u32) as u64;
        proof {
            assert(v@.subrange(start as int, i + 1).drop_last() =~= v@.subrange(start as int, i as int));
            assert(v@.subrange(start as int, i + 1).last() == c);
        }
        if value > (max - digit) / 10 {
            proof {
                let prefix = v@.subrange(start as int, i + 1);
                assert(digits_value(prefix) == value * 10 + digit);
                assert(value * 10 + digit > max) by (nonlinear_arith)
                    requires
                        value > (max - digit) / 10,
                        digit <= 9,
                        digit <= max,
                ;
                if forall|j: int| 0 <= j < d.len() ==> is_digit(#[trigger] d[j]) {
                    lemma_digits_value_grows(d, i + 1 - start);
                    assert(d.subrange(0, i + 1 - start) =~= prefix);
                    assert(digits_value(d) > max);
                }
                assert(parsed_unsigned(v@, max as int) is None);
            }
            return None;
        }
        proof {
            assert(value * 10 + digit <= max) by (nonlinear_arith)
                requires
                    value <= (max - digit) / 10,
                    digit <= max,
            ;
        }
        value = value * 10 + digit;
        i += 1;
    }
    proof {
        assert(v@.subrange(start as int, v@.len() as int) =~= d);
        assert forall|j: int| 0 <= j < d.len() implies is_digit(#[trigger] d[j]) by {
            assert(d[j] == v@[start + j]);
        }
    }
    Some(value)
}

/// A whole-number field of the settings form: the trimmed text parsed as a
/// `u64`, or `message` when it is not one.
pub fn parse_u64_field(value: &str, message: &str) -> (r: Result<u64, String>)
    ensures
        match r {
            Ok(n) => parsed_unsigned(trim(value@), u64::MAX as int) == Some(n as int),
            Err(e) => parsed_unsigned(trim(value@), u64::MAX as int) is None && e@ == message@,
        },
{
    let t = trimmed_chars(value);
    match parse_unsigned(t.as_slice(), u64::MAX) {
        Some(n) => Ok(n),
        None => Err(string_from(message)),
    }
}

/// A whole-number field of the settings form: the trimmed text parsed as a
/// `u32`, or `message` when it is not one.
pub fn parse_u32_field(value: &str, message: &str) -> (r: Result<u32, String>)
    ensures
        match r {
            Ok(n) => parsed_unsigned(trim(value@), u32::MAX as int) == Some(n as int),
            Err(e) => parsed_unsigned(trim(value@), u32::MAX as int) is None && e@ == message@,
        },
{
    let t = trimmed_chars(value);
    match parse_unsigned(t.as_slice(), u32::MAX as u64) {
        Some(n) => Ok(n as u32),
        None => Err(string_from(message)),
    }
}


/// The notice after the settings were saved: only when they changed.
pub fn settings_saved_notice(changed: bool) -> (r: Option<crate::model::DownloadMessage>)
    ensures
        changed ==> (r matches Some(m) && !m.is_error && m.text@ == "设置已保存，已对后续操作生效"@),
        !changed ==> r is None,
{
    if changed {
        Some(crate::model::DownloadMessage { is_error: false, text: string_from("设置已保存，已对后续操作生效") })
    } else {
        None
    }
}

} // verus!
