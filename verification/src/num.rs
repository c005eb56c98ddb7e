//! Decimal rendering and parsing of integers.
//!
//! Numbers travel through the attribute store as decimal strings to avoid
//! precision loss. This module renders an `i64` to its canonical decimal
//! form and parses such strings back, with parsing total over arbitrary
//! input: anything that is not an optional minus sign followed by digits,
//! or that does not fit an `i64`, parses to `None`.

use vstd::prelude::*;

verus! {

/// Whether `c` is a decimal digit.
pub open spec fn is_digit(c: char) -> bool {
    48 <= c as u32 <= 57
}

/// The numeric value of a digit character.
pub open spec fn digit_val(c: char) -> int {
    c as u32 - 48
}

/// The digit character for a value below ten.
pub open spec fn char_of_digit(d: int) -> char {
    if d == 0 {
        '0'
    } else if d == 1 {
        '1'
    } else if d == 2 {
        '2'
    } else if d == 3 {
        '3'
    } else if d == 4 {
        '4'
    } else if d == 5 {
        '5'
    } else if d == 6 {
        '6'
    } else if d == 7 {
        '7'
    } else if d == 8 {
        '8'
    } else {
        '9'
    }
}

/// The canonical decimal rendering of a natural number.
pub open spec fn spec_u64_dec(n: nat) -> Seq<char>
    decreases n,
{
    if n < 10 {
        seq![char_of_digit(n as int)]
    } else {
        spec_u64_dec(n / 10).push(char_of_digit((n % 10) as int))
    }
}

/// The canonical decimal rendering of an integer: a minus sign for
/// negative values, then the magnitude.
pub open spec fn spec_i64_dec(n: int) -> Seq<char> {
    if n >= 0 {
        spec_u64_dec(n as nat)
    } else {
        seq!['-'] + spec_u64_dec((-n) as nat)
    }
}

/// Whether every character of `s` is a decimal digit.
pub open spec fn all_digits(s: Seq<char>) -> bool {
    forall|i: int| 0 <= i < s.len() ==> is_digit(#[trigger] s[i])
}

/// The value of a digit string, most significant digit first.
pub open spec fn digits_val(s: Seq<char>) -> int
    decreases s.len(),
{
    if s.len() == 0 {
        0
    } else {
        digits_val(s.drop_last()) * 10 + digit_val(s.last())
    }
}

/// Total parse of a decimal string: `Some` exactly when the string is an
/// optional minus sign followed by one or more digits and the value fits
/// an `i64`.
pub open spec fn spec_parse_i64(s: Seq<char>) -> Option<int> {
    if s.len() >= 1 && s[0] == '-' {
        let d = s.subrange(1, s.len() as int);
        if d.len() >= 1 && all_digits(d) && -digits_val(d) >= i64::MIN {
            Some(-digits_val(d))
        } else {
            None
        }
    } else if s.len() >= 1 && all_digits(s) && digits_val(s) <= i64::MAX {
        Some(digits_val(s))
    } else {
        None
    }
}

proof fn lemma_digit_val_of_char(d: int)
    requires
        0 <= d < 10,
    ensures
        is_digit(char_of_digit(d)),
        digit_val(char_of_digit(d)) == d,
{
}

/// Every character of a decimal rendering is a digit.
pub proof fn lemma_dec_is_digits(n: nat)
    ensures
        spec_u64_dec(n).len() >= 1,
        all_digits(spec_u64_dec(n)),
    decreases n,
{
    if n < 10 {
        lemma_digit_val_of_char(n as int);
    } else {
        lemma_dec_is_digits(n / 10);
        lemma_digit_val_of_char((n % 10) as int);
        let s = spec_u64_dec(n);
        let p = spec_u64_dec(n / 10);
        assert forall|i: int| 0 <= i < s.len() implies is_digit(#[trigger] s[i]) by {
            if i < p.len() {
                assert(s[i] == p[i]);
            }
        }
    }
}

/// A decimal rendering evaluates back to the number it renders.
pub proof fn lemma_dec_val(n: nat)
    ensures
        digits_val(spec_u64_dec(n)) == n,
    decreases n,
{
    if n < 10 {
        let s = spec_u64_dec(n);
        assert(s.drop_last() =~= Seq::<char>::empty());
        assert(s.last() == char_of_digit(n as int));
        lemma_digit_val_of_char(n as int);
        assert(digits_val(s) == digits_val(s.drop_last()) * 10 + digit_val(s.last()));
    } else {
        lemma_dec_val(n / 10);
        let p = spec_u64_dec(n / 10);
        let s = spec_u64_dec(n);
        assert(s.drop_last() =~= p);
        assert(s.last() == char_of_digit((n % 10) as int));
        lemma_digit_val_of_char((n % 10) as int);
        assert(digits_val(s) == digits_val(p) * 10 + digit_val(s.last()));
        assert(n / 10 * 10 + n % 10 == n) by (nonlinear_arith);
    }
}

/// Parsing inverts rendering, for every value an `i64` can hold.
pub proof fn lemma_parse_of_dec(n: int)
    requires
        i64::MIN <= n <= i64::MAX,
    ensures
        spec_parse_i64(spec_i64_dec(n)) == Some(n),
{
    if n >= 0 {
        lemma_dec_is_digits(n as nat);
        lemma_dec_val(n as nat);
        let s = spec_i64_dec(n);
        assert(is_digit(s[0]));
        assert(s[0] != '-');
    } else {
        lemma_dec_is_digits((-n) as nat);
        lemma_dec_val((-n) as nat);
        let s = spec_i64_dec(n);
        let m = spec_u64_dec((-n) as nat);
        assert(s.subrange(1, s.len() as int) =~= m);
    }
}

/// Appending digits never shrinks a nonnegative digit-string value.
proof fn lemma_digits_val_extend_ge(p: Seq<char>, w: Seq<char>)
    requires
        all_digits(w),
        p.len() <= w.len(),
        p =~= w.subrange(0, p.len() as int),
        digits_val(p) >= 0,
    ensures
        digits_val(w) >= digits_val(p),
    decreases w.len() - p.len(),
{
    if p.len() == w.len() {
        assert(p =~= w);
    } else {
        let q = w.subrange(0, p.len() as int + 1);
        assert(q.drop_last() =~= p);
        assert(is_digit(w[p.len() as int]));
        assert(digits_val(q) == digits_val(p) * 10 + digit_val(q.last()));
        lemma_digits_val_extend_ge(q, w);
    }
}

/// A digit string has a nonnegative value.
proof fn lemma_digits_val_nonneg(s: Seq<char>)
    requires
        all_digits(s),
    ensures
        digits_val(s) >= 0,
    decreases s.len(),
{
    if s.len() > 0 {
        assert(all_digits(s.drop_last())) by {
            assert(forall|i: int|
                0 <= i < s.len() - 1 ==> #[trigger] s.drop_last()[i] == s[i]);
        }
        lemma_digits_val_nonneg(s.drop_last());
        assert(is_digit(s.last()));
    }
}

/// The digit character for `d`, as a one-character string slice.
fn digit_str(d: u8) -> (r: &'static str)
    requires
        d < 10,
    ensures
        r@ =~= seq![char_of_digit(d as int)],
{
    if d == 0 {
        let s = "0";
        proof { reveal_strlit("0"); }
        s
    } else if d == 1 {
        let s = "1";
        proof { reveal_strlit("1"); }
        s
    } else if d == 2 {
        let s = "2";
        proof { reveal_strlit("2"); }
        s
    } else if d == 3 {
        let s = "3";
        proof { reveal_strlit("3"); }
        s
    } else if d == 4 {
        let s = "4";
        proof { reveal_strlit("4"); }
        s
    } else if d == 5 {
        let s = "5";
        proof { reveal_strlit("5"); }
        s
    } else if d == 6 {
        let s = "6";
        proof { reveal_strlit("6"); }
        s
    } else if d == 7 {
        let s = "7";
        proof { reveal_strlit("7"); }
        s
    } else if d == 8 {
        let s = "8";
        proof { reveal_strlit("8"); }
        s
    } else {
        let s = "9";
        proof { reveal_strlit("9"); }
        s
    }
}

/// Renders a `u64` in decimal.
pub fn u64_to_dec_string(n: u64) -> (r: String)
    ensures
        r@ == spec_u64_dec(n as nat),
    decreases n,
{
    if n < 10 {
        digit_str(n as u8).to_owned()
    } else {
        let mut s = u64_to_dec_string(n / 10);
        s.append(digit_str((n % 10) as u8));
        proof {
            assert(s@ =~= spec_u64_dec(n as nat));
        }
        s
    }
}

/// Renders an `i64` in decimal, minus sign included.
pub fn i64_to_dec_string(n: i64) -> (r: String)
    ensures
        r@ == spec_i64_dec(n as int),
{
    if n >= 0 {
        u64_to_dec_string(n as u64)
    } else {
        let mag: u64 = ((-(n + 1)) as u64) + 1;
        let mut s = "-".to_owned();
        proof { reveal_strlit("-"); }
        s.append(u64_to_dec_string(mag).as_str());
        proof {
            assert(mag as int == -(n as int));
            assert(s@ =~= spec_i64_dec(n as int));
        }
        s
    }
}

/// Parses a decimal string into an `i64`; total over arbitrary input.
pub fn parse_dec_i64(s: &str) -> (r: Option<i64>)
    ensures
        match r {
            Some(v) => spec_parse_i64(s@) == Some(v as int),
            None => spec_parse_i64(s@) is None,
        },
{
    let len = s.unicode_len();
    let neg: bool = len > 0 && s.get_char(0) == '-';
    let start: usize = if neg { 1 } else { 0 };
    if start >= len {
        return None;
    }
    let ghost digits = s@.subrange(start as int, len as int);
    let limit: u64 = if neg { 9223372036854775808u64 } else { 9223372036854775807u64 };
    let mut acc: u64 = 0;
    let mut i: usize = start;
    while i < len
        invariant
            start <= i <= len,
            start < len,
            start == if neg { 1int } else { 0int },
            neg ==> s@[0] == '-',
            !neg ==> !(s@.len() >= 1 && s@[0] == '-'),
            len == s@.len(),
            limit == if neg { 9223372036854775808u64 } else { 9223372036854775807u64 },
            digits == s@.subrange(start as int, len as int),
            all_digits(s@.subrange(start as int, i as int)),
            acc as int == digits_val(s@.subrange(start as int, i as int)),
            acc <= limit,
        decreases len - i,
    {
        let c = s.get_char(i);
        let u = c as u32;
        if u < 48 || u > 57 {
            proof {
                assert(!is_digit(s@[i as int]));
                assert(!all_digits(digits)) by {
                    assert(digits[i - start] == s@[i as int]);
                }
                if neg {
                    assert(digits =~= s@.subrange(1, s@.len() as int));
                } else {
                    assert(digits =~= s@);
                }
            }
            return None;
        }
        let d = (u - 48) as u64;
        let ghost prev = s@.subrange(start as int, i as int);
        let ghost cur = s@.subrange(start as int, i + 1);
        proof {
            assert(cur.drop_last() =~= prev);
            assert(cur.last() == s@[i as int]);
            assert(all_digits(cur)) by {
                assert(forall|k: int| 0 <= k < prev.len() ==> cur[k] == #[trigger] prev[k]);
            }
        }
        if acc > (limit - d) / 10 {
            // The value already exceeds what an i64 can hold; later digits
            // only grow it, and a later non-digit makes the parse fail anyway.
            proof {
                assert(acc as int * 10 + d as int > limit as int) by (nonlinear_arith)
                    requires
                        acc as int > (limit as int - d as int) / 10,
                        0 <= d < 10,
                        limit as int >= d,
                ;
                if all_digits(digits) {
                    lemma_digits_val_nonneg(cur);
                    assert(digits_val(cur) == acc as int * 10 + d as int);
                    assert(all_digits(s@.subrange(start as int, len as int)));
                    assert(cur =~= digits.subrange(0, cur.len() as int));
                    lemma_digits_val_extend_ge(cur, digits);
                    assert(digits_val(digits) > limit as int);
                }
                if neg {
                    assert(digits =~= s@.subrange(1, s@.len() as int));
                } else {
                    assert(digits =~= s@);
                }
            }
            return None;
        }
        proof {
            assert(acc as int * 10 + d as int <= limit as int) by (nonlinear_arith)
                requires
                    acc as int <= (limit as int - d as int) / 10,
                    0 <= d < 10,
                    limit as int >= d,
            ;
        }
        acc = acc * 10 + d;
        i = i + 1;
        proof {
            assert(acc as int == digits_val(cur));
            assert(cur =~= s@.subrange(start as int, i as int));
        }
    }
    proof {
        assert(s@.subrange(start as int, i as int) =~= digits);
        if neg {
            assert(digits =~= s@.subrange(1, s@.len() as int));
        } else {
            assert(digits =~= s@);
        }
        lemma_digits_val_nonneg(digits);
    }
    if neg {
        if acc == 9223372036854775808u64 {
            proof {
                assert(-digits_val(digits) == i64::MIN);
            }
            Some(i64::MIN)
        } else {
            Some(-(acc as i64))
        }
    } else {
        Some(acc as i64)
    }
}

} // verus!
