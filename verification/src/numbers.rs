//! Decimal numbers in text: parsing (`str::parse`) and printing.
use vstd::prelude::*;
use crate::text::{push_char, to_chars};

verus! {

/// An ASCII digit.
pub open spec fn is_digit(c: char) -> bool {
    '0' <= c && c <= '9'
}

/// The value of an ASCII digit.
pub open spec fn digit_value(c: char) -> nat {
    ((c as u32) - ('0' as u32)) as nat
}

/// The decimal value of a run of ASCII digits.
pub open spec fn dec_value(d: Seq<char>) -> nat
    decreases d.len(),
{
    if d.len() == 0 {
        0
    } else {
        dec_value(d.drop_last()) * 10 + digit_value(d.last())
    }
}

/// All characters are ASCII digits, and there is at least one.
pub open spec fn all_digits(d: Seq<char>) -> bool {
    d.len() > 0 && forall|i: int| 0 <= i < d.len() ==> is_digit(#[trigger] d[i])
}

/// The value `str::parse` gives for an unsigned integer type, before the range
/// check: an optional `+` followed by one or more ASCII digits.
pub open spec fn unsigned_value(s: Seq<char>) -> Option<nat> {
    let body = if s.len() > 0 && s[0] == '+' {
        s.drop_first()
    } else {
        s
    };
    if all_digits(body) {
        Some(dec_value(body))
    } else {
        None
    }
}

/// The value `str::parse` gives for a signed integer type, before the range
/// check: an optional `+` or `-` followed by one or more ASCII digits.
pub open spec fn signed_value(s: Seq<char>) -> Option<int> {
    if s.len() > 0 && s[0] == '-' {
        let body = s.drop_first();
        if all_digits(body) {
            Some(-(dec_value(body) as int))
        } else {
            None
        }
    } else {
        match unsigned_value(s) {
            Some(v) => Some(v as int),
            None => None,
        }
    }
}

/// Whether a character is an ASCII digit.
pub(crate) fn is_digit_exec(c: char) -> (b: bool)
    ensures
        b == is_digit(c),
{
    '0' <= c && c <= '9'
}

/// The digits `s[from..]` read as a number, or `None` when they are not all
/// digits, there are none, or the value exceeds `u64::MAX`.
fn digits_value(s: &Vec<char>, from: usize) -> (r: Option<u64>)
    requires
        from <= s.len(),
    ensures
        match r {
            Some(v) => all_digits(s@.skip(from as int)) && v == dec_value(s@.skip(from as int)),
            None => !all_digits(s@.skip(from as int)) || dec_value(s@.skip(from as int))
                > u64::MAX,
        },
{
    if from == s.len() {
        return None;
    }
    let mut k = from;
    let mut value: u64 = 0;
    let mut overflow = false;
    assert(s@.subrange(from as int, from as int) =~= Seq::<char>::empty());
    while k < s.len()
        invariant
            from <= k <= s.len(),
            forall|m: int| from <= m < k ==> is_digit(#[trigger] s@[m]),
            !overflow ==> value == dec_value(s@.subrange(from as int, k as int)),
            overflow ==> dec_value(s@.subrange(from as int, k as int)) > u64::MAX,
        decreases s.len() - k,
    {
        if !is_digit_exec(s[k]) {
            assert(s@.skip(from as int)[k - from] == s@[k as int]);
            return None;
        }
        let d = (s[k] as u32 - '0' as u32) as u64;
        let ghost prev = s@.subrange(from as int, k as int);
        assert(s@.subrange(from as int, k + 1).drop_last() =~= prev);
        assert(s@.subrange(from as int, k + 1).last() == s@[k as int]);
        if !overflow {
            if value > (u64::MAX - d) / 10 {
                overflow = true;
                assert(value * 10 + d > u64::MAX) by (nonlinear_arith)
                    requires
                        value > (u64::MAX - d) / 10,
                        d <= 9,
                ;
            } else {
                assert(value * 10 + d <= u64::MAX) by (nonlinear_arith)
                    requires
                        value <= (u64::MAX - d) / 10,
                        d <= 9,
                ;
                value = value * 10 + d;
            }
        } else {
            assert(dec_value(prev) * 10 + d > u64::MAX) by (nonlinear_arith)
                requires
                    dec_value(prev) > u64::MAX,
            ;
        }
        k = k + 1;
    }
    assert(s@.subrange(from as int, s.len() as int) =~= s@.skip(from as int));
    assert forall|i: int| 0 <= i < s@.skip(from as int).len() implies is_digit(
        #[trigger] s@.skip(from as int)[i],
    ) by {
        assert(s@.skip(from as int)[i] == s@[from + i]);
    }
    if overflow {
        None
    } else {
        Some(value)
    }
}

/// `u64::from_str`.
pub fn parse_u64(text: &str) -> (r: Option<u64>)
    ensures
        r == (match unsigned_value(text@) {
            Some(v) => if v <= u64::MAX {
                Some(v as u64)
            } else {
                None
            },
            None => None,
        }),
{
    let s = to_chars(text);
    let from: usize = if s.len() > 0 && s[0] == '+' {
        1
    } else {
        0
    };
    assert(s@.skip(from as int) =~= (if s@.len() > 0 && s@[0] == '+' {
        s@.drop_first()
    } else {
        s@
    }));
    digits_value(&s, from)
}

/// `usize::from_str`.
pub fn parse_usize(text: &str) -> (r: Option<usize>)
    ensures
        r == (match unsigned_value(text@) {
            Some(v) => if v <= usize::MAX {
                Some(v as usize)
            } else {
                None
            },
            None => None,
        }),
{
    match parse_u64(text) {
        Some(v) => if v <= usize::MAX as u64 {
            Some(v as usize)
        } else {
            None
        },
        None => None,
    }
}

/// `u32::from_str`.
pub fn parse_u32(text: &str) -> (r: Option<u32>)
    ensures
        r == (match unsigned_value(text@) {
            Some(v) => if v <= u32::MAX {
                Some(v as u32)
            } else {
                None
            },
            None => None,
        }),
{
    match parse_u64(text) {
        Some(v) => if v <= u32::MAX as u64 {
            Some(v as u32)
        } else {
            None
        },
        None => None,
    }
}

/// `i64::from_str`.
pub fn parse_i64(text: &str) -> (r: Option<i64>)
    ensures
        r == (match signed_value(text@) {
            Some(v) => if i64::MIN <= v <= i64::MAX {
                Some(v as i64)
            } else {
                None
            },
            None => None,
        }),
{
    let s = to_chars(text);
    if s.len() > 0 && s[0] == '-' {
        assert(s@.skip(1) =~= s@.drop_first());
        match digits_value(&s, 1) {
            Some(m) => if m <= 9223372036854775808u64 {
                if m == 9223372036854775808u64 {
                    Some(i64::MIN)
                } else {
                    Some(-(m as i64))
                }
            } else {
                None
            },
            None => None,
        }
    } else {
        let from: usize = if s.len() > 0 && s[0] == '+' {
            1
        } else {
            0
        };
        assert(s@.skip(from as int) =~= (if s@.len() > 0 && s@[0] == '+' {
            s@.drop_first()
        } else {
            s@
        }));
        match digits_value(&s, from) {
            Some(m) => if m <= i64::MAX as u64 {
                Some(m as i64)
            } else {
                None
            },
            None => None,
        }
    }
}

// ---------------------------------------------------------------------------
// Printing
// ---------------------------------------------------------------------------

/// The ASCII digit for a value below ten.
pub open spec fn digit_char(d: nat) -> char {
    (('0' as u32) + d) as char
}

/// The decimal digits of a natural number, without leading zeros.
pub open spec fn decimal(n: nat) -> Seq<char>
    decreases n,
{
    if n < 10 {
        seq![digit_char(n)]
    } else {
        decimal(n / 10).push(digit_char(n % 10))
    }
}

/// The decimal form of an integer, with a `-` when negative (`Display`).
pub open spec fn signed_decimal(n: int) -> Seq<char> {
    if n < 0 {
        seq!['-'] + decimal((-n) as nat)
    } else {
        decimal(n as nat)
    }
}

fn digit_char_exec(d: u64) -> (c: char)
    requires
        d < 10,
    ensures
        c == digit_char(d as nat),
{
    let c = ((48 + d) as u8) as char;
    assert(c == digit_char(d as nat)) by {
        assert(('0' as u32) == 48);
    }
    c
}

/// Appends the decimal digits of `n`.
pub fn push_decimal(s: &mut String, n: u64)
    ensures
        final(s)@ == old(s)@ + decimal(n as nat),
    decreases n,
{
    if n < 10 {
        push_char(s, digit_char_exec(n));
        assert(old(s)@.push(digit_char(n as nat)) =~= old(s)@ + decimal(n as nat));
    } else {
        push_decimal(s, n / 10);
        push_char(s, digit_char_exec(n % 10));
        assert(old(s)@ + decimal((n / 10) as nat) + seq![digit_char((n % 10) as nat)] =~= old(s)@
            + decimal(n as nat));
    }
}

/// Appends the decimal form of `n`, with a `-` when negative.
pub fn push_signed_decimal(s: &mut String, n: i64)
    ensures
        final(s)@ == old(s)@ + signed_decimal(n as int),
{
    if n < 0 {
        push_char(s, '-');
        let m: u64 = if n == i64::MIN {
            9223372036854775808u64
        } else {
            (-n) as u64
        };
        push_decimal(s, m);
        assert(old(s)@.push('-') + decimal(m as nat) =~= old(s)@ + (seq!['-'] + decimal(
            m as nat,
        )));
    } else {
        push_decimal(s, n as u64);
    }
}

} // verus!
