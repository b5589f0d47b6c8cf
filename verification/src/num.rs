//! The lexical form of the `expiration` field: a base-10 signed 64-bit
//! integer, with an optional leading `+` or `-`, exactly the tokens
//! `i64::from_str` accepts. The spec side defines validity and the value;
//! the executable parser is proved against it.

use vstd::prelude::*;

verus! {

pub open spec fn is_ascii_digit(c: char) -> bool {
    '0' <= c && c <= '9'
}

pub open spec fn digit_val(c: char) -> int {
    c as int - '0' as int
}

/// Whether `s` is one or more ASCII digits.
pub open spec fn all_digits(s: Seq<char>) -> bool {
    s.len() > 0 && forall|i: int| 0 <= i < s.len() ==> is_ascii_digit(#[trigger] s[i])
}

/// The non-negative integer a digit string denotes, most significant digit
/// first.
pub open spec fn digits_int(s: Seq<char>) -> int
    decreases s.len(),
{
    if s.len() == 0 {
        0
    } else {
        digits_int(s.drop_last()) * 10 + digit_val(s.last())
    }
}

/// `s` without its sign character, if it has one.
pub open spec fn magnitude_part(s: Seq<char>) -> Seq<char> {
    if s.len() > 0 && (s[0] == '+' || s[0] == '-') {
        s.drop_first()
    } else {
        s
    }
}

pub open spec fn is_neg_token(s: Seq<char>) -> bool {
    s.len() > 0 && s[0] == '-'
}

/// The integer a signed token denotes, ignoring range.
pub open spec fn token_int(s: Seq<char>) -> int {
    if is_neg_token(s) {
        -digits_int(magnitude_part(s))
    } else {
        digits_int(magnitude_part(s))
    }
}

/// Whether `s` is a token `i64::from_str` accepts: an optional sign, then
/// only digits, at least one, denoting a value that fits in an `i64`.
pub open spec fn valid_i64_token(s: Seq<char>) -> bool {
    all_digits(magnitude_part(s)) && i64::MIN <= token_int(s) <= i64::MAX
}

/// Digit strings denote non-negative values.
pub proof fn lemma_digits_int_nonneg(s: Seq<char>)
    requires
        forall|i: int| 0 <= i < s.len() ==> is_ascii_digit(#[trigger] s[i]),
    ensures
        digits_int(s) >= 0,
    decreases s.len(),
{
    if s.len() > 0 {
        lemma_digits_int_nonneg(s.drop_last());
    }
}

/// Appending digits never shrinks the denoted value, so once a prefix is out
/// of range the whole digit string is too.
pub proof fn lemma_digits_int_prefix_le(s: Seq<char>, k: int)
    requires
        forall|i: int| 0 <= i < s.len() ==> is_ascii_digit(#[trigger] s[i]),
        0 <= k <= s.len(),
    ensures
        digits_int(s.subrange(0, k)) <= digits_int(s),
    decreases s.len() - k,
{
    if k == s.len() {
        assert(s.subrange(0, k) =~= s);
    } else {
        lemma_digits_int_prefix_le(s, k + 1);
        let p = s.subrange(0, k + 1);
        assert(p.drop_last() =~= s.subrange(0, k));
        assert(digits_int(p) == digits_int(s.subrange(0, k)) * 10 + digit_val(s[k]));
        lemma_digits_int_nonneg(s.subrange(0, k));
    }
}

/// Parses `cs[a..b]` as a signed 64-bit integer, exactly as `str::parse::<i64>`
/// would: `Some` with the denoted value on a valid token, `None` on an empty
/// or signless-digitless token, a non-digit, or a value out of range.
pub fn parse_i64_range(cs: &Vec<char>, a: usize, b: usize) -> (r: Option<i64>)
    requires
        a <= b <= cs@.len(),
    ensures
        r is Some <==> valid_i64_token(cs@.subrange(a as int, b as int)),
        r matches Some(v) ==> v as int == token_int(cs@.subrange(a as int, b as int)),
{
    let ghost tok = cs@.subrange(a as int, b as int);
    let mut d: usize = a;
    let mut neg: bool = false;
    if a < b && (cs[a] == '+' || cs[a] == '-') {
        neg = cs[a] == '-';
        d = a + 1;
    }
    let ghost mag = cs@.subrange(d as int, b as int);
    proof {
        assert(mag =~= magnitude_part(tok));
        assert(neg == is_neg_token(tok));
    }
    if d == b {
        // no digits at all
        return None;
    }
    let limit: u128 = if neg {
        9223372036854775808u128
    } else {
        9223372036854775807u128
    };
    let mut acc: u128 = 0;
    let mut i: usize = d;
    while i < b
        invariant
            a <= d < b <= cs@.len(),
            d <= i <= b,
            tok == cs@.subrange(a as int, b as int),
            mag == cs@.subrange(d as int, b as int),
            mag == magnitude_part(tok),
            neg == is_neg_token(tok),
            forall|j: int| d <= j < i ==> is_ascii_digit(#[trigger] cs@[j]),
            acc as int == digits_int(mag.subrange(0, i - d)),
            acc <= limit,
            limit == if neg {
                9223372036854775808u128
            } else {
                9223372036854775807u128
            },
        decreases b - i,
    {
        let c = cs[i];
        if !('0' <= c && c <= '9') {
            proof {
                assert(mag[i - d] == cs@[i as int]);
                assert(!is_ascii_digit(mag[i - d]));
                assert(!valid_i64_token(tok));
            }
            return None;
        }
        let dv: u128 = (c as u32 - '0' as u32) as u128;
        let next: u128 = acc * 10 + dv;
        proof {
            let p = mag.subrange(0, i + 1 - d);
            assert(p.drop_last() =~= mag.subrange(0, i - d));
            assert(p.last() == cs@[i as int]);
            assert(next as int == digits_int(p));
        }
        if next > limit {
            // the value is already out of `i64` range; more digits only grow it
            proof {
                if all_digits(mag) {
                    lemma_digits_int_prefix_le(mag, i + 1 - d);
                    lemma_digits_int_nonneg(mag);
                    assert(digits_int(mag) >= digits_int(mag.subrange(0, i + 1 - d)));
                    assert(digits_int(mag) >= next as int);
                    assert(!(i64::MIN <= token_int(tok) <= i64::MAX));
                }
                assert(!valid_i64_token(tok));
            }
            return None;
        }
        acc = next;
        i = i + 1;
    }
    proof {
        assert(mag.subrange(0, b - d) =~= mag);
        assert(acc as int == digits_int(mag));
        assert(forall|k: int| 0 <= k < mag.len() ==> is_ascii_digit(#[trigger] mag[k]));
        assert(all_digits(mag));
        assert(valid_i64_token(tok));
    }
    if neg {
        if acc == 9223372036854775808u128 {
            Some(i64::MIN)
        } else {
            Some(-(acc as i64))
        }
    } else {
        Some(acc as i64)
    }
}

} // verus!
