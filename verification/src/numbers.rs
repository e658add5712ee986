use vstd::prelude::*;

use crate::errors::Error;

verus! {

pub open spec fn is_ascii_digit(c: char) -> bool {
    48 <= c as u32 <= 57
}

pub open spec fn digit_val(c: char) -> int {
    c as u32 - 48
}

/// The text is made of base-10 digits only, and is not empty.
pub open spec fn all_digits(s: Seq<char>) -> bool {
    s.len() > 0 && forall|i: int| 0 <= i < s.len() ==> is_ascii_digit(#[trigger] s[i])
}

/// The unsigned value of a digit string, most significant digit first.
pub open spec fn digits_val(s: Seq<char>) -> int
    decreases s.len(),
{
    if s.len() == 0 {
        0
    } else {
        10 * digits_val(s.drop_last()) + digit_val(s.last())
    }
}

/// The text is a well-formed base-10 signed integer literal: an optional
/// sign followed by at least one digit.
pub open spec fn number_text_wf(s: Seq<char>) -> bool {
    if s.len() == 0 {
        false
    } else if s[0] == '-' || s[0] == '+' {
        all_digits(s.skip(1))
    } else {
        all_digits(s)
    }
}

/// The mathematical value of a well-formed literal.
pub open spec fn number_text_val(s: Seq<char>) -> int {
    if s.len() > 0 && s[0] == '-' {
        -digits_val(s.skip(1))
    } else if s.len() > 0 && s[0] == '+' {
        digits_val(s.skip(1))
    } else {
        digits_val(s)
    }
}

pub proof fn lemma_digits_val_nonneg(s: Seq<char>)
    requires
        forall|i: int| 0 <= i < s.len() ==> is_ascii_digit(#[trigger] s[i]),
    ensures
        digits_val(s) >= 0,
    decreases s.len(),
{
    if s.len() > 0 {
        lemma_digits_val_nonneg(s.drop_last());
    }
}

/// Reading further digits never lowers the value.
pub proof fn lemma_digits_val_prefix(s: Seq<char>, i: int)
    requires
        forall|k: int| 0 <= k < s.len() ==> is_ascii_digit(#[trigger] s[k]),
        0 <= i <= s.len(),
    ensures
        digits_val(s.take(i)) <= digits_val(s),
    decreases s.len() - i,
{
    if i == s.len() {
        assert(s.take(i) =~= s);
    } else {
        assert(s.take(i + 1).drop_last() =~= s.take(i));
        lemma_digits_val_nonneg(s.take(i));
        assert(digits_val(s.take(i + 1)) == 10 * digits_val(s.take(i)) + digit_val(s[i]));
        lemma_digits_val_prefix(s, i + 1);
    }
}

/// Parses a base-10 signed integer literal into 32 signed bits, exactly as
/// the number grammar of the language reads it: an optional `+` or `-` sign,
/// then digits. Anything else, and any value outside the 32-bit signed
/// range, is a malformed literal.
pub fn parse_number_literal(s: &str) -> (r: Result<i32, Error>)
    ensures
        match r {
            Ok(v) => number_text_wf(s@) && -0x8000_0000 <= number_text_val(s@) <= 0x7fff_ffff
                && v as int == number_text_val(s@),
            Err(e) => e == Error::MalformedNumberLiteral && (!number_text_wf(s@) || !(-0x8000_0000
                <= number_text_val(s@) <= 0x7fff_ffff)),
        },
{
    let n = s.unicode_len();
    if n == 0 {
        return Err(Error::MalformedNumberLiteral);
    }
    let c0 = s.get_char(0);
    let neg = c0 == '-';
    let signed = neg || c0 == '+';
    let start: usize = if signed {
        1
    } else {
        0
    };
    let ghost region = s@.skip(start as int);
    if signed && n == 1 {
        assert(region.len() == 0);
        return Err(Error::MalformedNumberLiteral);
    }
    let mut acc: i64 = 0;
    let mut i = start;
    while i < n
        invariant
            start <= i <= n,
            n == s@.len(),
            start == 1 <==> (s@[0] == '-' || s@[0] == '+'),
            start == 0 || start == 1,
            neg <==> s@[0] == '-',
            region == s@.skip(start as int),
            region.len() > 0,
            forall|k: int| 0 <= k < i - start ==> is_ascii_digit(#[trigger] region[k]),
            acc == digits_val(region.take(i - start)),
            0 <= acc <= 0x8000_0000,
        decreases n - i,
    {
        let c = s.get_char(i);
        let d = c as u32;
        if d < 48 || d > 57 {
            assert(region[i - start] == s@[i as int]);
            assert(!all_digits(region));
            return Err(Error::MalformedNumberLiteral);
        }
        proof {
            assert(region.take(i - start + 1).drop_last() =~= region.take(i - start));
            assert(region.take(i - start + 1).last() == region[i - start]);
            assert(region[i - start] == s@[i as int]);
        }
        acc = acc * 10 + ((d - 48) as i64);
        if acc > 0x8000_0000 {
            proof {
                if start == 0 {
                    assert(region =~= s@);
                }
                if number_text_wf(s@) {
                    assert(all_digits(region));
                    assert(acc == digits_val(region.take(i - start + 1)));
                    lemma_digits_val_prefix(region, i - start + 1);
                    assert(digits_val(region) >= acc);
                    if s@[0] == '-' {
                        assert(number_text_val(s@) == -digits_val(region));
                    } else if s@[0] == '+' {
                        assert(number_text_val(s@) == digits_val(region));
                    } else {
                        assert(number_text_val(s@) == digits_val(region));
                    }
                }
            }
            return Err(Error::MalformedNumberLiteral);
        }
        i += 1;
    }
    proof {
        if start == 0 {
            assert(region =~= s@);
        }
        assert(region.take(i - start) =~= region);
        assert(all_digits(region));
        assert(number_text_wf(s@));
        assert(acc == digits_val(region));
        if s@[0] == '-' {
            assert(number_text_val(s@) == -digits_val(region));
        } else if s@[0] == '+' {
            assert(number_text_val(s@) == digits_val(region));
        } else {
            assert(number_text_val(s@) == digits_val(region));
        }
    }
    if neg {
        Ok((-acc) as i32)
    } else {
        if acc > 0x7fff_ffff {
            return Err(Error::MalformedNumberLiteral);
        }
        Ok(acc as i32)
    }
}

} // verus!
