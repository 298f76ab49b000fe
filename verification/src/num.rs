//! Decimal text of integers: parsing with the rules of Rust's integer
//! `from_str` (an optional sign, then ASCII digits, no overflow) and printing.

use vstd::prelude::*;

use crate::text::{chars_of, push_char};

verus! {

pub open spec fn is_digit(c: char) -> bool {
    '0' <= c && c <= '9'
}

pub open spec fn digit_value(c: char) -> int {
    (c as int) - ('0' as int)
}

/// A non-empty run of ASCII digits.
pub open spec fn is_digits(s: Seq<char>) -> bool {
    s.len() > 0 && forall|i: int| 0 <= i < s.len() ==> is_digit(#[trigger] s[i])
}

/// The number a run of digits stands for.
pub open spec fn digits_value(s: Seq<char>) -> nat
    decreases s.len(),
{
    if s.len() == 0 {
        0
    } else {
        (digits_value(s.drop_last()) * 10 + digit_value(s.last())) as nat
    }
}

/// `Some(v)` where `s` is an optionally signed run of digits whose value `v`
/// lies in `[lo, hi]`.
pub open spec fn spec_parse_int(s: Seq<char>, lo: int, hi: int) -> Option<int> {
    if s.len() > 0 && (s[0] == '+' || s[0] == '-') {
        let rest = s.drop_first();
        if is_digits(rest) {
            let v = if s[0] == '-' {
                -(digits_value(rest) as int)
            } else {
                digits_value(rest) as int
            };
            if lo <= v <= hi {
                Some(v)
            } else {
                None
            }
        } else {
            None
        }
    } else if is_digits(s) {
        let v = digits_value(s) as int;
        if lo <= v <= hi {
            Some(v)
        } else {
            None
        }
    } else {
        None
    }
}

/// `i64::from_str`.
pub open spec fn spec_parse_i64(s: Seq<char>) -> Option<int> {
    spec_parse_int(s, i64::MIN as int, i64::MAX as int)
}

/// `u64::from_str`: an unsigned type takes a `+` sign but no `-`.
pub open spec fn spec_parse_u64(s: Seq<char>) -> Option<int> {
    if s.len() > 0 && s[0] == '-' {
        None
    } else {
        spec_parse_int(s, 0, u64::MAX as int)
    }
}

proof fn lemma_digits_value_step(s: Seq<char>, i: int)
    requires
        0 <= i < s.len(),
        is_digit(s[i]),
    ensures
        digits_value(s.subrange(0, i + 1)) == digits_value(s.subrange(0, i)) * 10 + digit_value(s[i]),
{
    let pre = s.subrange(0, i + 1);
    assert(pre.drop_last() =~= s.subrange(0, i));
}

/// The magnitude of the digits `v[from..]`, capped: `(true, _)` where it is
/// above `cap`, `(false, value)` otherwise; `None` where a non-digit occurs or
/// the run is empty.
fn magnitude(v: &[char], from: usize, cap: u128) -> (r: Option<(bool, u128)>)
    requires
        from <= v@.len(),
        cap <= 0x1_0000_0000_0000_0000u128,
    ensures
        match r {
            None => !is_digits(v@.subrange(from as int, v@.len() as int)),
            Some((big, m)) => is_digits(v@.subrange(from as int, v@.len() as int)) && (big ==> digits_value(
                v@.subrange(from as int, v@.len() as int),
            ) > cap) && (!big ==> m == digits_value(v@.subrange(from as int, v@.len() as int)) && m <= cap),
        },
{
    let ghost d = v@.subrange(from as int, v@.len() as int);
    if from == v.len() {
        return None;
    }
    let mut acc: u128 = 0;
    let mut big = false;
    let mut i: usize = from;
    while i < v.len()
        invariant
            from <= i <= v@.len(),
            d == v@.subrange(from as int, v@.len() as int),
            cap <= 0x1_0000_0000_0000_0000u128,
            forall|j: int| 0 <= j < i - from ==> is_digit(#[trigger] d[j]),
            big ==> digits_value(d.subrange(0, i - from)) > cap,
            !big ==> acc == digits_value(d.subrange(0, i - from)) && acc <= cap,
        decreases v.len() - i,
    {
        let c = v[i];
        if !('0' <= c && c <= '9') {
            assert(d[i - from] == c);
            return None;
        }
        proof {
            assert(d[i - from] == c);
            lemma_digits_value_step(d, i - from);
        }
        if !big {
            let dv = (c as u32 - '0' as u32) as u128;
            let next = acc * 10 + dv;
            if next > cap {
                big = true;
            } else {
                acc = next;
            }
        }
        i = i + 1;
    }
    assert(d.subrange(0, d.len() as int) =~= d);
    Some((big, acc))
}

/// Parses decimal text into an `i64`: an optional `+` or `-`, then digits,
/// within range.
pub fn parse_i64(s: &str) -> (r: Option<i64>)
    ensures
        match r {
            Some(v) => spec_parse_i64(s@) == Some(v as int),
            None => spec_parse_i64(s@) is None,
        },
{
    let v = chars_of(s);
    if v.len() > 0 && (v[0] == '+' || v[0] == '-') {
        let neg = v[0] == '-';
        proof {
            assert(s@.drop_first() =~= v@.subrange(1, v@.len() as int));
        }
        let cap: u128 = if neg {
            0x8000_0000_0000_0000u128
        } else {
            0x7fff_ffff_ffff_ffffu128
        };
        match magnitude(v.as_slice(), 1, cap) {
            None => None,
            Some((big, m)) => {
                if big {
                    None
                } else if neg {
                    if m == 0x8000_0000_0000_0000u128 {
                        Some(i64::MIN)
                    } else {
                        Some(-(m as i64))
                    }
                } else {
                    Some(m as i64)
                }
            },
        }
    } else {
        proof {
            assert(s@ =~= v@.subrange(0, v@.len() as int));
        }
        match magnitude(v.as_slice(), 0, 0x7fff_ffff_ffff_ffffu128) {
            None => None,
            Some((big, m)) => {
                if big {
                    None
                } else {
                    Some(m as i64)
                }
            },
        }
    }
}

/// Parses decimal text into a `u64`: an optional `+`, then digits, within
/// range (`-0` is zero, any other negative is rejected).
pub fn parse_u64(s: &str) -> (r: Option<u64>)
    ensures
        match r {
            Some(v) => spec_parse_u64(s@) == Some(v as int),
            None => spec_parse_u64(s@) is None,
        },
{
    let v = chars_of(s);
    if v.len() > 0 && v[0] == '-' {
        return None;
    }
    if v.len() > 0 && (v[0] == '+' || v[0] == '-') {
        let neg = v[0] == '-';
        proof {
            assert(s@.drop_first() =~= v@.subrange(1, v@.len() as int));
        }
        let cap: u128 = if neg {
            0
        } else {
            0xffff_ffff_ffff_ffffu128
        };
        match magnitude(v.as_slice(), 1, cap) {
            None => None,
            Some((big, m)) => {
                if big {
                    None
                } else {
                    Some(m as u64)
                }
            },
        }
    } else {
        proof {
            assert(s@ =~= v@.subrange(0, v@.len() as int));
        }
        match magnitude(v.as_slice(), 0, 0xffff_ffff_ffff_ffffu128) {
            None => None,
            Some((big, m)) => {
                if big {
                    None
                } else {
                    Some(m as u64)
                }
            },
        }
    }
}

pub open spec fn digit_char(d: nat) -> char
    recommends
        d < 10,
{
    (d + ('0' as nat)) as char
}

/// The decimal digits of `n`, without leading zeros.
pub open spec fn spec_decimal(n: nat) -> Seq<char>
    decreases n,
{
    if n < 10 {
        seq![digit_char(n)]
    } else {
        spec_decimal(n / 10).push(digit_char(n % 10))
    }
}

fn digit_to_char(d: u8) -> (c: char)
    requires
        d < 10,
    ensures
        c == digit_char(d as nat),
{
    match d {
        0 => '0',
        1 => '1',
        2 => '2',
        3 => '3',
        4 => '4',
        5 => '5',
        6 => '6',
        7 => '7',
        8 => '8',
        _ => '9',
    }
}

/// The decimal text of `n`.
pub fn u64_to_decimal(n: u64) -> (r: String)
    ensures
        r@ == spec_decimal(n as nat),
    decreases n,
{
    let mut r = if n < 10 {
        String::new()
    } else {
        u64_to_decimal(n / 10)
    };
    let c = digit_to_char((n % 10) as u8);
    proof {
        assert(c == digit_char((n % 10) as nat));
        if n < 10 {
            assert(r@ =~= Seq::<char>::empty());
        }
    }
    push_char(&mut r, c);
    proof {
        if n < 10 {
            assert(r@ =~= seq![digit_char(n as nat)]);
        }
    }
    r
}

/// The decimal text of `n`, with `-` before a negative number.
pub open spec fn spec_signed_decimal(n: int) -> Seq<char> {
    if n < 0 {
        seq!['-'] + spec_decimal((-n) as nat)
    } else {
        spec_decimal(n as nat)
    }
}

/// The decimal text of `n`.
pub fn i64_to_decimal(n: i64) -> (r: String)
    ensures
        r@ == spec_signed_decimal(n as int),
{
    if n < 0 {
        let m: u64 = if n == i64::MIN {
            0x8000_0000_0000_0000u64
        } else {
            (-n) as u64
        };
        let digits = u64_to_decimal(m);
        let mut r = String::new();
        push_char(&mut r, '-');
        r.append(digits.as_str());
        proof {
            assert(r@ =~= seq!['-'] + spec_decimal((-n) as nat));
        }
        r
    } else {
        u64_to_decimal(n as u64)
    }
}

/// The decimal text of `n` is a run of digits standing for `n`.
pub proof fn lemma_decimal_digits(n: nat)
    ensures
        is_digits(spec_decimal(n)),
        digits_value(spec_decimal(n)) == n,
    decreases n,
{
    let d = (n % 10) as nat;
    assert(digit_value(digit_char(d)) == d);
    if n < 10 {
        let s = spec_decimal(n);
        assert(s.drop_last() =~= Seq::<char>::empty());
        assert(n % 10 == n);
        assert(digits_value(s) == digits_value(s.drop_last()) * 10 + digit_value(s.last()));
    } else {
        lemma_decimal_digits(n / 10);
        let p = spec_decimal(n / 10);
        let s = spec_decimal(n);
        assert(s.drop_last() =~= p);
        assert(s.last() == digit_char(n % 10));
        assert(digits_value(s) == digits_value(p) * 10 + digit_value(s.last()));
        assert(n == (n / 10) * 10 + n % 10);
        assert forall|i: int| 0 <= i < s.len() implies is_digit(#[trigger] s[i]) by {
            if i < p.len() {
                assert(s[i] == p[i]);
            }
        }
    }
}

/// Reading the decimal text of a `u64` gives it back.
pub proof fn lemma_parse_decimal(n: nat)
    requires
        n <= u64::MAX,
    ensures
        spec_parse_u64(spec_decimal(n)) == Some(n as int),
{
    lemma_decimal_digits(n);
    let s = spec_decimal(n);
    assert(s.len() > 0 && is_digit(s[0]));
}

} // verus!
