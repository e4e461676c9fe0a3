//! Reading an integer literal.

use vstd::prelude::*;
use vstd::utf8::encode_utf8;
use crate::lexer::chars::{ascii_digit, is_ascii_digit};
use crate::lexer::text::{
    byte_offset, char_at, lemma_byte_offset_bounds, lemma_byte_offset_step, utf8_width,
};

verus! {

/// The value of a decimal digit.
pub open spec fn digit_value(c: char) -> int {
    c as int - '0' as int
}

/// Whether `s` holds decimal digits only.
pub open spec fn all_digits(s: Seq<char>) -> bool {
    forall|i: int| 0 <= i < s.len() ==> is_ascii_digit(#[trigger] s[i])
}

/// The number that a sequence of decimal digits spells.
pub open spec fn digits_value(digits: Seq<char>) -> int
    decreases digits.len(),
{
    if digits.len() == 0 {
        0
    } else {
        10 * digits_value(digits.drop_last()) + digit_value(digits.last())
    }
}

/// Whether `s` opens with a sign.
pub open spec fn is_signed(s: Seq<char>) -> bool {
    s.len() > 0 && (s[0] == '+' || s[0] == '-')
}

/// The digits of `s`: all of it but the sign.
pub open spec fn unsigned_part(s: Seq<char>) -> Seq<char> {
    if is_signed(s) {
        s.skip(1)
    } else {
        s
    }
}

/// The integer that `s` spells: an optional sign followed by one decimal
/// digit or more, and nothing else.
pub open spec fn integer_value(s: Seq<char>) -> Option<int> {
    let digits = unsigned_part(s);
    if digits.len() == 0 || !all_digits(digits) {
        None
    } else if s[0] == '-' {
        Some(-digits_value(digits))
    } else {
        Some(digits_value(digits))
    }
}

/// The 128-bit integer that `s` spells, if it spells an integer that fits.
pub open spec fn i128_value(s: Seq<char>) -> Option<i128> {
    match integer_value(s) {
        Some(v) => if i128::MIN <= v <= i128::MAX {
            Some(v as i128)
        } else {
            None
        },
        None => None,
    }
}

/// More digits never make the number smaller.
proof fn lemma_digits_value_grows(digits: Seq<char>, k: int)
    requires
        all_digits(digits),
        0 <= k <= digits.len(),
    ensures
        0 <= digits_value(digits.take(k)) <= digits_value(digits),
    decreases digits.len() - k,
{
    if k == 0 {
        assert(digits.take(0) =~= Seq::<char>::empty());
        lemma_digits_value_nonnegative(digits);
    } else if k < digits.len() {
        lemma_digits_value_grows(digits, k + 1);
        assert(digits.take(k + 1).drop_last() =~= digits.take(k));
        assert(is_ascii_digit(digits[k]));
        lemma_digits_value_nonnegative(digits.take(k));
    } else {
        assert(digits.take(k) =~= digits);
        lemma_digits_value_nonnegative(digits);
    }
}

/// Digits spell no negative number.
proof fn lemma_digits_value_nonnegative(digits: Seq<char>)
    requires
        all_digits(digits),
    ensures
        0 <= digits_value(digits),
    decreases digits.len(),
{
    if digits.len() > 0 {
        assert(is_ascii_digit(digits.last()));
        lemma_digits_value_nonnegative(digits.drop_last());
    }
}

/// Reads `s` as a 128-bit integer in decimal.
pub fn parse_i128(s: &str) -> (value: Option<i128>)
    ensures
        value == i128_value(s@),
{
    if s.as_bytes().len() == 0 {
        proof {
            lemma_byte_offset_bounds(s@, s@.len() as int);
        }
        return None;
    }
    proof {
        lemma_byte_offset_bounds(s@, 0);
    }
    let first = match char_at(s, 0, Ghost(0)) {
        Some(c) => c,
        None => {
            return None;
        },
    };
    let negative = first == '-';
    let ghost start: int = if is_signed(s@) { 1 } else { 0 };
    let ghost digits = unsigned_part(s@);
    let mut pos: usize = 0;
    if first == '-' || first == '+' {
        proof {
            lemma_byte_offset_step(s@, 0);
        }
        pos = utf8_width(first);
    }
    let mut count: usize = 0;
    let mut total: i128 = 0;
    proof {
        assert(digits.take(0) =~= Seq::<char>::empty());
    }
    loop
        invariant
            digits == s@.skip(start),
            digits == unsigned_part(s@),
            negative == (s@[0] == '-'),
            0 <= start <= start + count <= s@.len(),
            pos == byte_offset(s@, start + count),
            encode_utf8(s@).len() <= usize::MAX,
            all_digits(digits.take(count as int)),
            total == (if negative {
                -digits_value(digits.take(count as int))
            } else {
                digits_value(digits.take(count as int))
            }),
        ensures
            count == digits.len(),
        decreases s@.len() - (start + count),
    {
        let c = match char_at(s, pos, Ghost(start + count)) {
            Some(c) => c,
            None => {
                break ;
            },
        };
        if !ascii_digit(c) {
            assert(!is_ascii_digit(digits[count as int]));
            return None;
        }
        let digit = (c as u32 - '0' as u32) as i128;
        proof {
            let longer = digits.take(count + 1);
            assert(longer.drop_last() =~= digits.take(count as int));
            assert(longer.last() == c);
            assert(all_digits(longer));
            assert(digits_value(longer) == 10 * digits_value(digits.take(count as int))
                + digit);
            lemma_digits_value_nonnegative(digits.take(count as int));
            if all_digits(digits) {
                lemma_digits_value_grows(digits, count + 1);
            }
            lemma_byte_offset_step(s@, start + count);
            lemma_byte_offset_bounds(s@, start + count + 1);
        }
        let shifted = match total.checked_mul(10) {
            Some(shifted) => shifted,
            None => {
                return None;
            },
        };
        let next = if negative {
            shifted.checked_sub(digit)
        } else {
            shifted.checked_add(digit)
        };
        total =
        match next {
            Some(next) => next,
            None => {
                return None;
            },
        };
        pos += utf8_width(c);
        count += 1;
    }
    proof {
        assert(digits.take(count as int) =~= digits);
    }
    if count == 0 {
        None
    } else {
        Some(total)
    }
}

} // verus!
