//! Parsing of decimal `i64` text: an optional `+` or `-` sign
//! followed by one or more ASCII digits, rejected when any other
//! character appears or the value leaves the `i64` range.

use vstd::prelude::*;

verus! {

/// An ASCII decimal digit.
pub open spec fn spec_is_digit(c: char) -> bool {
    48 <= c as u32 <= 57
}

/// Every character of `s` is a decimal digit.
pub open spec fn spec_all_digits(s: Seq<char>) -> bool {
    forall|i: int| 0 <= i < s.len() ==> spec_is_digit(#[trigger] s[i])
}

/// The non-negative value of a digit string.
pub open spec fn spec_digits_value(s: Seq<char>) -> int
    decreases s.len(),
{
    if s.len() == 0 {
        0
    } else {
        spec_digits_value(s.drop_last()) * 10 + (s.last() as u32 - 48)
    }
}

/// The `i64` a string denotes: an optional sign, at least one digit,
/// nothing else, and a value within the `i64` range.
pub open spec fn spec_parse_i64(s: Seq<char>) -> Option<i64> {
    let signed = s.len() > 0 && (s[0] == '-' || s[0] == '+');
    let neg = s.len() > 0 && s[0] == '-';
    let digits = if signed {
        s.drop_first()
    } else {
        s
    };
    if digits.len() == 0 || !spec_all_digits(digits) {
        None
    } else {
        let v = spec_digits_value(digits);
        let sv = if neg {
            -v
        } else {
            v
        };
        if i64::MIN <= sv <= i64::MAX {
            Some(sv as i64)
        } else {
            None
        }
    }
}

pub proof fn lemma_digits_value_nonneg(s: Seq<char>)
    requires
        spec_all_digits(s),
    ensures
        spec_digits_value(s) >= 0,
    decreases s.len(),
{
    if s.len() > 0 {
        assert(spec_all_digits(s.drop_last()));
        lemma_digits_value_nonneg(s.drop_last());
        assert(spec_digits_value(s.drop_last()) * 10 >= 0) by (nonlinear_arith)
            requires
                spec_digits_value(s.drop_last()) >= 0,
        ;
    }
}

/// Parses decimal `i64` text, as the backends' numeric fields are
/// written.
pub fn parse_i64(s: &str) -> (r: Option<i64>)
    ensures
        r == spec_parse_i64(s@),
{
    let n = s.unicode_len();
    let mut neg = false;
    let mut start: usize = 0;
    if n > 0 {
        let c0 = s.get_char(0);
        if c0 == '-' {
            neg = true;
            start = 1;
        } else if c0 == '+' {
            start = 1;
        }
    }
    if start >= n {
        proof {
            if start == 1 {
                assert(s@.drop_first() =~= s@.subrange(1, n as int));
            }
        }
        return None;
    }
    let ghost digits = s@.subrange(start as int, n as int);
    proof {
        if start == 1 {
            assert(s@.drop_first() =~= digits);
        } else {
            assert(s@.subrange(0, n as int) =~= s@);
        }
    }
    // one past i64::MAX: any accumulator clamped here is out of range
    // for both signs except exactly -(i64::MIN)
    let sent: i128 = 9223372036854775808i128 + 1;
    let mut acc: i128 = 0;
    let mut i: usize = start;
    proof {
        assert(s@.subrange(start as int, start as int) =~= Seq::<char>::empty());
    }
    while i < n
        invariant
            start <= i <= n,
            n == s@.len(),
            digits == s@.subrange(start as int, n as int),
            start == 1 <==> (s@.len() > 0 && (s@[0] == '-' || s@[0] == '+')),
            start == 0 || start == 1,
            neg <==> (s@.len() > 0 && s@[0] == '-'),
            sent == 9223372036854775809,
            spec_all_digits(s@.subrange(start as int, i as int)),
            0 <= acc <= sent,
            spec_digits_value(s@.subrange(start as int, i as int)) <= sent ==> acc
                == spec_digits_value(s@.subrange(start as int, i as int)),
            spec_digits_value(s@.subrange(start as int, i as int)) > sent ==> acc == sent,
        decreases n - i,
    {
        let c = s.get_char(i);
        let cu = c as u32;
        if cu < 48 || cu > 57 {
            proof {
                assert(digits[i - start] == s@[i as int]);
                assert(!spec_is_digit(s@[i as int]));
                if start == 1 {
                    assert(s@.drop_first() =~= digits);
                } else {
                    assert(s@.subrange(0, n as int) =~= s@);
                }
            }
            return None;
        }
        let d: i128 = (cu - 48) as i128;
        let ghost pre = s@.subrange(start as int, i as int);
        let ghost post = s@.subrange(start as int, i + 1);
        proof {
            assert(post.drop_last() =~= pre);
            assert(post.last() == s@[i as int]);
            lemma_digits_value_nonneg(post);
            let v = spec_digits_value(pre);
            let v2 = spec_digits_value(post);
            assert(v2 == v * 10 + (s@[i as int] as u32 - 48));
            if v > sent {
                assert(v * 10 >= sent * 10) by (nonlinear_arith)
                    requires
                        v >= sent,
                ;
            } else {
                assert(v * 10 == acc * 10);
            }
        }
        let acc2: i128 = acc * 10 + d;
        acc = if acc2 > sent {
            sent
        } else {
            acc2
        };
        i = i + 1;
    }
    proof {
        assert(s@.subrange(start as int, n as int) =~= digits);
        lemma_digits_value_nonneg(digits);
    }
    if neg {
        if acc <= 9223372036854775808i128 {
            Some((-acc) as i64)
        } else {
            None
        }
    } else {
        if acc <= 9223372036854775807i128 {
            Some(acc as i64)
        } else {
            None
        }
    }
}

} // verus!
