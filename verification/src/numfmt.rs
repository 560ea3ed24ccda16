//! Decimal rendering of the integers that appear in diagnostics, verified
//! against a character-level specification.

use vstd::prelude::*;
use vstd::string::StringExecFns;

verus! {

/// The character for one decimal digit value.
pub open spec fn dec_digit_char(d: int) -> char {
    if d == 0 {
        '0'
    } else if d == 1 {
        '1'
    } else if d == 2 {
        '2'
    } else if d == 3 {
        '3'
    } else if d == 4 {
        '4'
    } else if d == 5 {
        '5'
    } else if d == 6 {
        '6'
    } else if d == 7 {
        '7'
    } else if d == 8 {
        '8'
    } else {
        '9'
    }
}

/// The decimal digits of a non-negative integer, most significant first,
/// with no leading zeros (a single `'0'` for zero).
pub open spec fn dec_chars(n: nat) -> Seq<char>
    decreases n,
{
    if n < 10 {
        seq![dec_digit_char(n as int)]
    } else {
        dec_chars(n / 10).push(dec_digit_char((n % 10) as int))
    }
}

/// The decimal rendering of an integer, with a leading `'-'` when negative.
pub open spec fn dec_of(n: int) -> Seq<char> {
    if n < 0 {
        seq!['-'] + dec_chars((-n) as nat)
    } else {
        dec_chars(n as nat)
    }
}

/// The decimal digit values of a non-negative integer, least significant
/// first: the order in which a division loop discovers them.
pub open spec fn digits_low(n: nat) -> Seq<u64>
    decreases n,
{
    if n < 10 {
        seq![n as u64]
    } else {
        seq![(n % 10) as u64] + digits_low(n / 10)
    }
}

proof fn lemma_digits_low_matches_chars(n: nat)
    ensures
        dec_chars(n).len() == digits_low(n).len(),
        forall|j: int|
            0 <= j < dec_chars(n).len() ==> dec_chars(n)[j] == dec_digit_char(
                digits_low(n)[digits_low(n).len() - 1 - j] as int,
            ),
        forall|j: int| 0 <= j < digits_low(n).len() ==> digits_low(n)[j] < 10,
    decreases n,
{
    if n >= 10 {
        lemma_digits_low_matches_chars(n / 10);
    }
}

/// Appends the character of one digit value.
fn append_digit(s: &mut String, d: u64)
    requires
        d < 10,
    ensures
        final(s)@ == old(s)@.push(dec_digit_char(d as int)),
{
    if d == 0 {
        s.append("0");
    } else if d == 1 {
        s.append("1");
    } else if d == 2 {
        s.append("2");
    } else if d == 3 {
        s.append("3");
    } else if d == 4 {
        s.append("4");
    } else if d == 5 {
        s.append("5");
    } else if d == 6 {
        s.append("6");
    } else if d == 7 {
        s.append("7");
    } else if d == 8 {
        s.append("8");
    } else {
        s.append("9");
    }
    proof {
        reveal_strlit("0");
        reveal_strlit("1");
        reveal_strlit("2");
        reveal_strlit("3");
        reveal_strlit("4");
        reveal_strlit("5");
        reveal_strlit("6");
        reveal_strlit("7");
        reveal_strlit("8");
        reveal_strlit("9");
        assert(final(s)@ =~= old(s)@.push(dec_digit_char(d as int)));
    }
}

/// The decimal rendering of a `u64`.
pub fn u64_to_string(n: u64) -> (r: String)
    ensures
        r@ == dec_chars(n as nat),
{
    let mut acc: Vec<u64> = Vec::new();
    let mut cur: u64 = n;
    acc.push(cur % 10);
    cur = cur / 10;
    proof {
        if cur == 0 {
            assert(digits_low(n as nat) =~= acc@);
        } else {
            assert(digits_low(n as nat) =~= acc@ + digits_low(cur as nat));
        }
    }
    while cur > 0
        invariant
            cur > 0 ==> digits_low(n as nat) == acc@ + digits_low(cur as nat),
            cur == 0 ==> digits_low(n as nat) == acc@,
        decreases cur,
    {
        acc.push(cur % 10);
        cur = cur / 10;
        proof {
            if cur == 0 {
                assert(digits_low(n as nat) =~= acc@);
            } else {
                assert(digits_low(n as nat) =~= acc@ + digits_low(cur as nat));
            }
        }
    }
    proof {
        lemma_digits_low_matches_chars(n as nat);
    }
    let ghost len = acc@.len() as int;
    let mut s = String::new();
    let mut k: usize = acc.len();
    while k > 0
        invariant
            k <= acc@.len(),
            acc@ == digits_low(n as nat),
            len == acc@.len() as int,
            dec_chars(n as nat).len() == len,
            forall|j: int|
                0 <= j < len ==> dec_chars(n as nat)[j] == dec_digit_char(
                    acc@[len - 1 - j] as int,
                ),
            forall|j: int| 0 <= j < len ==> acc@[j] < 10,
            s@.len() == len - k,
            forall|j: int| 0 <= j < s@.len() ==> s@[j] == dec_chars(n as nat)[j],
        decreases k,
    {
        k = k - 1;
        let d = acc[k];
        append_digit(&mut s, d);
    }
    proof {
        assert(s@ =~= dec_chars(n as nat));
    }
    s
}

/// The decimal rendering of a `usize`.
pub fn usize_to_string(n: usize) -> (r: String)
    ensures
        r@ == dec_chars(n as nat),
{
    u64_to_string(n as u64)
}

/// The decimal rendering of an `i64`, with a leading `'-'` when negative.
pub fn i64_to_string(n: i64) -> (r: String)
    ensures
        r@ == dec_of(n as int),
{
    if n >= 0 {
        u64_to_string(n as u64)
    } else {
        let mag: u64 = if n == i64::MIN {
            9223372036854775808u64
        } else {
            (-n) as u64
        };
        let mut s = String::from_str("-");
        let digits = u64_to_string(mag);
        s.append(digits.as_str());
        proof {
            reveal_strlit("-");
            assert(s@ =~= dec_of(n as int));
        }
        s
    }
}

} // verus!
