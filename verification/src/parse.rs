//! Validation of count arguments: a supplied line or byte count must be a
//! positive integer that fits the machine.
//!
//! A valid count is an optional leading plus sign followed by one or more
//! decimal digits, with a value between one and `usize::MAX`. Anything else
//! is handed back unchanged as the error, for the caller's diagnostic.

use vstd::prelude::*;
use vstd::string::StrSliceExecFns;

verus! {

/// A decimal digit.
pub open spec fn is_digit(c: char) -> bool {
    48 <= c as u32 <= 57
}

/// The value of one decimal digit.
pub open spec fn digit_val(c: char) -> nat {
    ((c as u32) - 48) as nat
}

/// The numeric value of a digit string, most significant digit first.
pub open spec fn digits_val(s: Seq<char>) -> nat
    decreases s.len(),
{
    if s.len() == 0 {
        0
    } else {
        digits_val(s.drop_last()) * 10 + digit_val(s.last())
    }
}

/// Whether every character is a decimal digit.
pub open spec fn all_digits(s: Seq<char>) -> bool {
    forall|i: int| 0 <= i < s.len() ==> is_digit(#[trigger] s[i])
}

/// The digits of a numeral: an optional leading plus sign is dropped.
pub open spec fn numeral_part(s: Seq<char>) -> Seq<char> {
    if s.len() > 0 && s[0] == '+' {
        s.skip(1)
    } else {
        s
    }
}

/// A string that denotes a positive count the machine can hold: an optional
/// plus sign, then at least one digit, with a value between one and
/// `usize::MAX`.
pub open spec fn valid_count(s: Seq<char>) -> bool {
    let t = numeral_part(s);
    t.len() > 0 && all_digits(t) && 1 <= digits_val(t) <= usize::MAX
}

/// A longer digit string never has a smaller value.
proof fn lemma_digits_val_take(t: Seq<char>, j: int)
    requires
        0 <= j <= t.len(),
    ensures
        digits_val(t.take(j)) <= digits_val(t),
    decreases t.len() - j,
{
    if j < t.len() {
        assert(t.take(j + 1).drop_last() =~= t.take(j));
        assert(t.take(j + 1).last() == t[j]);
        assert(digits_val(t.take(j + 1)) == digits_val(t.take(j)) * 10 + digit_val(t[j]));
        assert(digits_val(t.take(j)) <= digits_val(t.take(j)) * 10) by (nonlinear_arith);
        lemma_digits_val_take(t, j + 1);
    } else {
        assert(t.take(j) =~= t);
    }
}

/// Parse a count argument. Returns the value when the string denotes a
/// positive integer that fits the machine, and the string itself otherwise.
pub fn parse_positive_int(s: String) -> (r: Result<usize, String>)
    ensures
        r is Ok <==> valid_count(s@),
        r matches Ok(n) ==> n as nat == digits_val(numeral_part(s@)),
        r matches Err(e) ==> e@ == s@,
{
    let len = s.as_str().unicode_len();
    let start: usize = if len > 0 && s.as_str().get_char(0) == '+' {
        1
    } else {
        0
    };
    let ghost t = numeral_part(s@);
    proof {
        if start == 1 {
            assert(t =~= s@.skip(1));
        }
        assert(t.len() == len - start);
        assert(forall|k: int| 0 <= k < t.len() ==> t[k] == s@[k + start]);
    }
    if len == start {
        return Err(s);
    }
    let mut val: usize = 0;
    let mut i: usize = start;
    proof {
        assert(t.take(0) =~= Seq::<char>::empty());
    }
    while i < len
        invariant
            start <= i <= len,
            len == s@.len(),
            t == numeral_part(s@),
            t.len() == len - start,
            forall|k: int| 0 <= k < t.len() ==> t[k] == s@[k + start],
            forall|k: int| 0 <= k < i - start ==> is_digit(#[trigger] t[k]),
            val as nat == digits_val(t.take(i - start)),
        decreases len - i,
    {
        let c = s.as_str().get_char(i);
        proof {
            assert(c == t[i - start]);
        }
        let cu = c as u32;
        if cu < 48 || cu > 57 {
            proof {
                assert(!is_digit(t[i - start]));
            }
            return Err(s);
        }
        let d = (cu - 48) as usize;
        proof {
            assert(d == digit_val(t[i - start]));
            assert(d <= 9);
            assert(t.take(i - start + 1).drop_last() =~= t.take(i - start));
            assert(t.take(i - start + 1).last() == t[i - start]);
            assert(digits_val(t.take(i - start + 1)) == digits_val(t.take(i - start)) * 10 + d);
        }
        if val > (usize::MAX - d) / 10 {
            proof {
                let q = ((usize::MAX - d) / 10) as int;
                vstd::arithmetic::div_mod::lemma_fundamental_div_mod(
                    (usize::MAX - d) as int,
                    10,
                );
                assert(val * 10 >= (q + 1) * 10) by (nonlinear_arith)
                    requires
                        val >= q + 1,
                ;
                assert(val as int * 10 + d > usize::MAX);
                lemma_digits_val_take(t, i - start + 1);
                assert(digits_val(t) > usize::MAX);
            }
            return Err(s);
        }
        proof {
            let q = ((usize::MAX - d) / 10) as int;
            vstd::arithmetic::div_mod::lemma_fundamental_div_mod((usize::MAX - d) as int, 10);
            assert(val * 10 <= q * 10) by (nonlinear_arith)
                requires
                    0 <= val <= q,
            ;
            assert(val as int * 10 + d <= usize::MAX);
        }
        val = val * 10 + d;
        i = i + 1;
    }
    proof {
        assert(t.take(t.len() as int) =~= t);
    }
    if val == 0 {
        return Err(s);
    }
    Ok(val)
}

} // verus!
