//! Startup configuration checks, and the integer parsing they rest on.
//!
//! The boundary hands every flag over as text. A refresh rate is accepted
//! when it reads as a whole number of at least 1000 milliseconds; a panel
//! height is rejected only when it reads as a negative number — text that
//! does not parse falls back to zero here, mirroring the defaulting at the
//! flag boundary.

use vstd::prelude::*;
use vstd::string::StrSliceExecFns;
use vstd::string::StringExecFns;

verus! {

pub open spec fn is_digit_char(c: char) -> bool {
    48 <= c as u32 <= 57
}

pub open spec fn digit_val(c: char) -> int {
    c as u32 - 48
}

pub open spec fn all_digits(s: Seq<char>) -> bool {
    forall|i: int| 0 <= i < s.len() ==> is_digit_char(#[trigger] s[i])
}

/// The number a digit string denotes, most significant digit first.
pub open spec fn digits_val(s: Seq<char>) -> int
    decreases s.len(),
{
    if s.len() == 0 {
        0
    } else {
        digits_val(s.drop_last()) * 10 + digit_val(s.last())
    }
}

/// What a run of characters parses to as an unsigned number: defined
/// exactly when it is non-empty, all digits, and fits in 64 bits.
pub open spec fn digits_parse_spec(s: Seq<char>) -> Option<u64> {
    if s.len() > 0 && all_digits(s) && digits_val(s) <= u64::MAX {
        Some(digits_val(s) as u64)
    } else {
        None
    }
}

proof fn lemma_digits_val_nonneg(s: Seq<char>)
    requires
        all_digits(s),
    ensures
        digits_val(s) >= 0,
    decreases s.len(),
{
    if s.len() > 0 {
        assert(all_digits(s.drop_last())) by {
            assert(forall|i: int| 0 <= i < s.len() - 1 ==> s.drop_last()[i] == s[i]);
        }
        lemma_digits_val_nonneg(s.drop_last());
        assert(is_digit_char(s.last()));
    }
}

/// More digits never shrink the value: a prefix denotes at most the whole.
proof fn lemma_digits_prefix_le(s: Seq<char>, j: int)
    requires
        all_digits(s),
        0 <= j <= s.len(),
    ensures
        digits_val(s.take(j)) <= digits_val(s),
    decreases s.len() - j,
{
    if j == s.len() {
        assert(s.take(j) =~= s);
    } else {
        lemma_digits_prefix_le(s, j + 1);
        let t = s.take(j + 1);
        assert(t.drop_last() =~= s.take(j));
        assert(t.last() == s[j]);
        assert(all_digits(s.take(j))) by {
            assert(forall|i: int| 0 <= i < j ==> s.take(j)[i] == s[i]);
        }
        lemma_digits_val_nonneg(s.take(j));
        assert(is_digit_char(s[j]));
        assert(digits_val(t) == digits_val(s.take(j)) * 10 + digit_val(s[j]));
        assert(digits_val(s.take(j)) * 10 >= digits_val(s.take(j)));
    }
}

/// Parse the characters of `s` from position `start` on as an unsigned
/// decimal number.
fn parse_digits_from(s: &str, start: usize) -> (r: Option<u64>)
    requires
        start <= s@.len(),
    ensures
        r == digits_parse_spec(s@.skip(start as int)),
{
    let ghost t = s@.skip(start as int);
    let n = s.unicode_len();
    if start == n {
        return None;
    }
    let mut acc: u64 = 0;
    let mut i: usize = start;
    while i < n
        invariant
            start <= i <= n,
            n == s@.len(),
            t == s@.skip(start as int),
            all_digits(t.take(i - start)),
            acc as int == digits_val(t.take(i - start)),
        decreases n - i,
    {
        let c = s.get_char(i);
        let cu = c as u32;
        proof {
            assert(t[i - start] == s@[i as int]);
        }
        if cu < 48 || cu > 57 {
            proof {
                assert(!is_digit_char(t[i - start]));
            }
            return None;
        }
        let d = (cu - 48) as u64;
        let overflowed = match acc.checked_mul(10) {
            Some(a) => match a.checked_add(d) {
                Some(b) => {
                    acc = b;
                    false
                },
                None => true,
            },
            None => true,
        };
        proof {
            assert(t.take(i + 1 - start).drop_last() =~= t.take(i - start));
            assert(t.take(i + 1 - start).last() == t[i - start]);
        }
        if overflowed {
            proof {
                if all_digits(t) && digits_val(t) <= u64::MAX {
                    lemma_digits_prefix_le(t, i + 1 - start);
                }
            }
            return None;
        }
        i = i + 1;
    }
    proof {
        assert(t.take(n - start) =~= t);
    }
    Some(acc)
}

/// What text parses to as a `u64`: an optional leading plus sign, then
/// digits.
pub open spec fn parse_u64_spec(s: Seq<char>) -> Option<u64> {
    if s.len() > 0 && s[0] == '+' {
        digits_parse_spec(s.skip(1))
    } else {
        digits_parse_spec(s)
    }
}

/// Parse text as a `u64`; `None` when it is empty, holds a non-digit, or
/// overflows.
pub fn parse_u64(s: &str) -> (r: Option<u64>)
    ensures
        r == parse_u64_spec(s@),
{
    let n = s.unicode_len();
    if n > 0 && s.get_char(0) == '+' {
        parse_digits_from(s, 1)
    } else {
        proof {
            assert(s@.skip(0) =~= s@);
        }
        parse_digits_from(s, 0)
    }
}

/// What text parses to as an `i64`: an optional sign, then digits, within
/// the 64-bit signed range.
pub open spec fn parse_i64_spec(s: Seq<char>) -> Option<i64> {
    if s.len() > 0 && s[0] == '-' {
        match digits_parse_spec(s.skip(1)) {
            Some(v) => if v <= 0x8000000000000000u64 {
                Some((-(v as int)) as i64)
            } else {
                None
            },
            None => None,
        }
    } else if s.len() > 0 && s[0] == '+' {
        match digits_parse_spec(s.skip(1)) {
            Some(v) => if v <= i64::MAX as u64 {
                Some(v as i64)
            } else {
                None
            },
            None => None,
        }
    } else {
        match digits_parse_spec(s) {
            Some(v) => if v <= i64::MAX as u64 {
                Some(v as i64)
            } else {
                None
            },
            None => None,
        }
    }
}

/// Parse text as an `i64`; `None` when it is empty, holds a non-digit
/// after the optional sign, or overflows.
pub fn parse_i64(s: &str) -> (r: Option<i64>)
    ensures
        r == parse_i64_spec(s@),
{
    let n = s.unicode_len();
    if n > 0 && s.get_char(0) == '-' {
        match parse_digits_from(s, 1) {
            Some(v) => {
                if v <= 0x8000000000000000u64 {
                    if v == 0x8000000000000000u64 {
                        Some(i64::MIN)
                    } else {
                        Some(-(v as i64))
                    }
                } else {
                    None
                }
            },
            None => None,
        }
    } else if n > 0 && s.get_char(0) == '+' {
        match parse_digits_from(s, 1) {
            Some(v) => if v <= i64::MAX as u64 {
                Some(v as i64)
            } else {
                None
            },
            None => None,
        }
    } else {
        proof {
            assert(s@.skip(0) =~= s@);
        }
        match parse_digits_from(s, 0) {
            Some(v) => if v <= i64::MAX as u64 {
                Some(v as i64)
            } else {
                None
            },
            None => None,
        }
    }
}

/// A refresh-rate flag is accepted exactly when it reads as a whole number
/// of at least 1000 milliseconds; anything else is rejected, with the
/// offending text echoed ahead of the explanation.
pub fn validate_refresh_rate(arg: String) -> (r: Result<(), String>)
    ensures
        r is Ok <==> parse_u64_spec(arg@) is Some && parse_u64_spec(arg@)->0 >= 1000,
        r is Err ==> r->Err_0@ == arg@ + " Enter a refresh rate that is at least 1000 ms"@,
{
    let val = match parse_u64(arg.as_str()) {
        Some(v) => v,
        None => 0,
    };
    if val >= 1000 {
        Ok(())
    } else {
        let mut msg = arg.clone();
        msg.append(" Enter a refresh rate that is at least 1000 ms");
        Err(msg)
    }
}

/// A panel-height flag is rejected exactly when it reads as a negative
/// number; text that does not read as a number falls back to zero rows and
/// passes.
pub fn validate_height(arg: String) -> (r: Result<(), String>)
    ensures
        r is Ok <==> !(parse_i64_spec(arg@) is Some && parse_i64_spec(arg@)->0 < 0),
        r is Err ==> r->Err_0@ == arg@ + " Enter a height greater than or equal to 0."@,
{
    let val = match parse_i64(arg.as_str()) {
        Some(v) => v,
        None => 0,
    };
    if val >= 0 {
        Ok(())
    } else {
        let mut msg = arg.clone();
        msg.append(" Enter a height greater than or equal to 0.");
        Err(msg)
    }
}

} // verus!
