//! Monetary amounts, held in minor units (hundredths) as signed integers,
//! with a decimal notation of exactly two fraction digits: the grammar, an
//! executable printer and parser, and the round-trip lemma.

use vstd::prelude::*;
use vstd::string::*;
use crate::digits::dec_rep;
use crate::digits::digit_of;
use crate::digits::digit_val;
use crate::digits::digits_val;
use crate::digits::is_canon_dec;
use crate::digits::is_digit;
use crate::digits::lemma_dec_rep;
use crate::digits::lemma_digit_char_val;
use crate::digits::lemma_digits_val_nonneg;
use crate::digits::pad2;
use crate::digits::parse_u64;
use crate::digits::push_pad2;
use crate::digits::u64_to_string;

verus! {

/// The notation of a nonnegative amount of `m` minor units: the whole part
/// in canonical decimal, a point, and two fraction digits.
pub open spec fn mag_rep(m: int) -> Seq<char> {
    dec_rep((m / 100) as nat) + seq!['.'] + pad2(m % 100)
}

/// The notation of a signed amount of minor units.
pub open spec fn money_rep(v: int) -> Seq<char> {
    if v < 0 {
        seq!['-'] + mag_rep(-v)
    } else {
        mag_rep(v)
    }
}

pub open spec fn is_mag_rep(s: Seq<char>) -> bool {
    &&& s.len() >= 4
    &&& is_canon_dec(s.take(s.len() - 3))
    &&& s[s.len() - 3] == '.'
    &&& is_digit(s[s.len() - 2])
    &&& is_digit(s[s.len() - 1])
}

pub open spec fn mag_val(s: Seq<char>) -> int {
    digits_val(s.take(s.len() - 3)) * 100 + digit_val(s[s.len() - 2]) * 10 + digit_val(
        s[s.len() - 1],
    )
}

/// Whether a string is the decimal notation of some amount of minor units,
/// with an optional leading minus sign.
pub open spec fn is_money_rep(s: Seq<char>) -> bool {
    if s.len() > 0 && s[0] == '-' {
        is_mag_rep(s.skip(1))
    } else {
        is_mag_rep(s)
    }
}

/// The amount of minor units written in a string satisfying `is_money_rep`.
pub open spec fn money_val(s: Seq<char>) -> int {
    if s.len() > 0 && s[0] == '-' {
        -mag_val(s.skip(1))
    } else {
        mag_val(s)
    }
}

/// Prints an amount of minor units in decimal notation.
pub fn money_to_string(v: i64) -> (s: String)
    ensures
        s@ == money_rep(v as int),
{
    let neg = v < 0;
    let m: u64 = if v < 0 {
        (-(v as i128)) as u64
    } else {
        v as u64
    };
    let mut s = String::new();
    if neg {
        s.append("-");
    }
    let whole = u64_to_string(m / 100);
    s.append(whole.as_str());
    s.append(".");
    push_pad2(&mut s, (m % 100) as u8);
    proof {
        reveal_strlit("-");
        reveal_strlit(".");
        assert(s@ =~= money_rep(v as int));
    }
    s
}

/// Parses decimal money notation; `None` exactly when the string is not in
/// the notation or the amount does not fit in an `i64` of minor units.
/// The two-fraction-digit form is normative for the stored value field:
/// exactly what `money_to_string` prints is accepted, so a field such as
/// "12.5" or "12" counts as corrupt rather than being read loosely.
pub fn parse_money(s: &str) -> (r: Option<i64>)
    ensures
        r is Some <==> is_money_rep(s@) && i64::MIN <= money_val(s@) <= i64::MAX,
        r matches Some(v) ==> v as int == money_val(s@),
{
    let len = s.unicode_len();
    proof {
        reveal_strlit("-");
        reveal_strlit(".");
    }
    let neg = len > 0 && s.get_char(0) == '-';
    let start: usize = if neg {
        1
    } else {
        0
    };
    let rest = s.substring_char(start, len);
    proof {
        if neg {
            assert(rest@ =~= s@.skip(1));
        } else {
            assert(rest@ =~= s@);
        }
    }
    let rlen = rest.unicode_len();
    if rlen < 4 {
        return None;
    }
    let whole = rest.substring_char(0, rlen - 3);
    proof {
        assert(whole@ =~= rest@.take(rest@.len() - 3));
    }
    if rest.get_char(rlen - 3) != '.' {
        return None;
    }
    let t1: u8 = match digit_of(rest.get_char(rlen - 2)) {
        Some(v) => v,
        None => { return None },
    };
    let t0: u8 = match digit_of(rest.get_char(rlen - 1)) {
        Some(v) => v,
        None => { return None },
    };
    let whole_val: u64 = match parse_u64(whole) {
        Some(v) => v,
        None => {
            proof {
                if is_money_rep(s@) {
                    lemma_digits_val_nonneg(whole@);
                }
            }
            return None;
        },
    };
    let mag: u128 = (whole_val as u128) * 100 + (t1 as u128) * 10 + (t0 as u128);
    if neg {
        if mag <= 9223372036854775808u128 {
            Some((-(mag as i128)) as i64)
        } else {
            None
        }
    } else {
        if mag <= 9223372036854775807u128 {
            Some(mag as i64)
        } else {
            None
        }
    }
}

/// Printing an amount and reading the result back yields the same amount.
pub proof fn lemma_money_round_trip(v: int)
    requires
        i64::MIN <= v <= i64::MAX,
    ensures
        is_money_rep(money_rep(v)),
        money_val(money_rep(v)) == v,
{
    let m = if v < 0 {
        -v
    } else {
        v
    };
    lemma_dec_rep((m / 100) as nat);
    lemma_digit_char_val((m % 100) / 10);
    lemma_digit_char_val((m % 100) % 10);
    let whole = dec_rep((m / 100) as nat);
    let mag = mag_rep(m);
    assert(mag.take(mag.len() - 3) =~= whole);
    assert(mag[mag.len() - 3] == '.');
    assert(mag[mag.len() - 2] == pad2(m % 100)[0]);
    assert(mag[mag.len() - 1] == pad2(m % 100)[1]);
    assert(mag_val(mag) == (m / 100) * 100 + ((m % 100) / 10) * 10 + (m % 100) % 10);
    assert(mag[0] == whole[0]);
    assert(is_digit(mag[0]));
    if v < 0 {
        let s = money_rep(v);
        assert(s[0] == '-');
        assert(s.skip(1) =~= mag);
    }
}

} // verus!
