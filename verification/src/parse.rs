//! Parsing a signed decimal integer from a line of text, specified down to
//! the characters.

use vstd::prelude::*;

verus! {

/// The value of one decimal digit character, or -1 for any other character.
pub open spec fn digit_val(c: char) -> int {
    if c == '0' {
        0
    } else if c == '1' {
        1
    } else if c == '2' {
        2
    } else if c == '3' {
        3
    } else if c == '4' {
        4
    } else if c == '5' {
        5
    } else if c == '6' {
        6
    } else if c == '7' {
        7
    } else if c == '8' {
        8
    } else if c == '9' {
        9
    } else {
        -1
    }
}

/// Whether a sequence is one or more decimal digits and nothing else.
pub open spec fn digits_ok(s: Seq<char>) -> bool {
    s.len() > 0 && forall|i: int| 0 <= i < s.len() ==> digit_val(s[i]) >= 0
}

/// The non-negative value of a digit sequence, most significant first.
pub open spec fn digits_int(s: Seq<char>) -> int
    decreases s.len(),
{
    if s.len() == 0 {
        0
    } else {
        digits_int(s.drop_last()) * 10 + digit_val(s.last())
    }
}

/// The digits of a numeral, after any single leading sign.
pub open spec fn int_body(s: Seq<char>) -> Seq<char> {
    if s.len() > 0 && (s[0] == '+' || s[0] == '-') {
        s.drop_first()
    } else {
        s
    }
}

/// Whether a sequence is a well-formed signed decimal numeral: an optional
/// `+` or `-` sign followed by one or more digits.
pub open spec fn numeral_ok(s: Seq<char>) -> bool {
    digits_ok(int_body(s))
}

/// The signed value of a well-formed numeral.
pub open spec fn numeral_int(s: Seq<char>) -> int {
    if s.len() > 0 && s[0] == '-' {
        -digits_int(int_body(s))
    } else {
        digits_int(int_body(s))
    }
}

/// What parsing a line as an `i64` yields: the value of a well-formed
/// numeral when it fits, nothing otherwise.
pub open spec fn spec_parse_i64(s: Seq<char>) -> Option<i64> {
    if numeral_ok(s) && i64::MIN <= numeral_int(s) <= i64::MAX {
        Some(numeral_int(s) as i64)
    } else {
        None
    }
}

/// The value of a digit sequence is never negative.
pub proof fn lemma_digits_int_nonneg(s: Seq<char>)
    requires
        forall|j: int| 0 <= j < s.len() ==> digit_val(s[j]) >= 0,
    ensures
        digits_int(s) >= 0,
    decreases s.len(),
{
    if s.len() > 0 {
        assert(forall|j: int|
            0 <= j < s.drop_last().len() ==> digit_val(s.drop_last()[j]) >= 0);
        lemma_digits_int_nonneg(s.drop_last());
    }
}

/// The value of one decimal digit character, if it is one.
fn digit_value(c: char) -> (r: Option<u64>)
    ensures
        r is Some <==> digit_val(c) >= 0,
        r is Some ==> r->0 == digit_val(c),
{
    match c {
        '0' => Some(0),
        '1' => Some(1),
        '2' => Some(2),
        '3' => Some(3),
        '4' => Some(4),
        '5' => Some(5),
        '6' => Some(6),
        '7' => Some(7),
        '8' => Some(8),
        '9' => Some(9),
        _ => None,
    }
}

/// Parses a line as an `i64`: an optional `+` or `-` sign followed by one
/// or more decimal digits, with anything else — and any value outside the
/// range of `i64` — rejected.
pub fn parse_i64(s: &str) -> (r: Option<i64>)
    ensures
        r == spec_parse_i64(s@),
{
    let n = s.unicode_len();
    if n == 0 {
        return None;
    }
    let first = s.get_char(0);
    let negative = first == '-';
    let has_sign = negative || first == '+';
    let start: usize = if has_sign {
        1
    } else {
        0
    };
    let ghost body = int_body(s@);
    proof {
        assert(body =~= s@.subrange(start as int, n as int));
    }
    if start == n {
        return None;
    }
    // The magnitude cap: one past the largest magnitude an i64 can carry.
    let lim: u128 = 9223372036854775808u128;
    let mut mag: u128 = 0;
    let mut overflow = false;
    let mut i: usize = start;
    while i < n
        invariant
            n == s@.len(),
            start <= i <= n,
            start < n,
            (start == 1 || start == 0) && (start == 1) == (s@.len() > 0 && (s@[0] == '+' || s@[0]
                == '-')),
            body == int_body(s@),
            body.len() == n - start,
            forall|j: int| 0 <= j < body.len() ==> body[j] == s@[start + j],
            forall|j: int| 0 <= j < i - start ==> digit_val(body[j]) >= 0,
            lim == 9223372036854775808u128,
            !overflow ==> mag == digits_int(body.subrange(0, i - start)) && mag <= lim,
            overflow ==> digits_int(body.subrange(0, i - start)) > lim,
        decreases n - i,
    {
        let c = s.get_char(i);
        let d = match digit_value(c) {
            Some(d) => d,
            None => {
                proof {
                    assert(body[i - start] == s@[i as int]);
                    assert(digit_val(body[i - start]) < 0);
                    assert(!digits_ok(body));
                }
                return None;
            },
        };
        let ghost k = i - start;
        proof {
            assert(body.subrange(0, k + 1).drop_last() =~= body.subrange(0, k as int));
            assert(body.subrange(0, k + 1).last() == body[k as int]);
            if overflow {
                lemma_digits_int_nonneg(body.subrange(0, k as int));
            }
        }
        if !overflow {
            let next = mag * 10 + (d as u128);
            if next > lim {
                overflow = true;
            } else {
                mag = next;
            }
            proof {
                assert(digits_int(body.subrange(0, k + 1)) == digits_int(body.subrange(0, k as int))
                    * 10 + digit_val(body[k as int]));
            }
        } else {
            proof {
                assert(digits_int(body.subrange(0, k + 1)) == digits_int(body.subrange(0, k as int))
                    * 10 + digit_val(body[k as int]));
            }
        }
        i = i + 1;
    }
    proof {
        assert(body.subrange(0, body.len() as int) =~= body);
        assert(digits_ok(body));
        assert(numeral_ok(s@));
    }
    if overflow {
        proof {
            assert(numeral_int(s@) > lim || numeral_int(s@) < -(lim as int));
        }
        return None;
    }
    if negative {
        if mag == lim {
            Some(i64::MIN)
        } else {
            Some(-(mag as i64))
        }
    } else {
        if mag > 9223372036854775807u128 {
            None
        } else {
            Some(mag as i64)
        }
    }
}

} // verus!
