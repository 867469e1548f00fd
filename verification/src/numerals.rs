//! Decimal numerals: parsing the two numeric command-line tokens and
//! formatting the final counter value.

use vstd::prelude::*;

verus! {

use vstd::arithmetic::div_mod::lemma_fundamental_div_mod;
use vstd::arithmetic::mul::lemma_mul_nonnegative;
use vstd::arithmetic::power::lemma_pow_positive;
use vstd::arithmetic::power::pow;

/// b is one of the ASCII bytes '0' through '9'.
pub open spec fn is_ascii_digit(b: u8) -> bool {
    48 <= b && b <= 57
}

/// Every byte of s is an ASCII digit.
pub open spec fn all_ascii_digits(s: Seq<u8>) -> bool {
    forall|k: int| 0 <= k < s.len() ==> is_ascii_digit(#[trigger] s[k])
}

/// The value of a sequence of ASCII digits read as a decimal numeral,
/// most significant digit first.
pub open spec fn dec_value(s: Seq<u8>) -> int
    decreases s.len(),
{
    if s.len() == 0 {
        0
    } else {
        dec_value(s.drop_last()) * 10 + (s.last() - 48)
    }
}

/// Where the digits of a numeric token begin: one leading '+' is allowed,
/// as in the unsigned integer syntax std accepts.
pub open spec fn digit_start(s: Seq<u8>) -> int {
    if s.len() > 0 && s[0] == 43 {
        1
    } else {
        0
    }
}

/// The digits of a token, with a leading '+' stripped.
pub open spec fn digit_part(s: Seq<u8>) -> Seq<u8> {
    s.subrange(digit_start(s), s.len() as int)
}

/// s is a well-formed unsigned decimal token: an optional '+', then at
/// least one digit, and nothing else.
pub open spec fn is_numeric_token(s: Seq<u8>) -> bool {
    digit_part(s).len() > 0 && all_ascii_digits(digit_part(s))
}

/// The numeric value of a well-formed token.
pub open spec fn token_value(s: Seq<u8>) -> int {
    dec_value(digit_part(s))
}

/// A numeral made of digits is never negative.
proof fn lemma_dec_value_nonneg(s: Seq<u8>)
    requires
        all_ascii_digits(s),
    ensures
        dec_value(s) >= 0,
    decreases s.len(),
{
    if s.len() > 0 {
        assert(all_ascii_digits(s.drop_last()));
        lemma_dec_value_nonneg(s.drop_last());
    }
}

/// Reading one more digit multiplies the prefix value by ten and adds it.
proof fn lemma_dec_value_take_step(s: Seq<u8>, m: int)
    requires
        0 <= m < s.len(),
    ensures
        dec_value(s.take(m + 1)) == dec_value(s.take(m)) * 10 + (s[m] - 48),
{
    assert(s.take(m + 1).drop_last() =~= s.take(m));
    assert(s.take(m + 1).last() == s[m]);
}

/// A prefix of a digit string never exceeds the whole string's value.
proof fn lemma_dec_value_take_le(s: Seq<u8>, m: int)
    requires
        0 <= m <= s.len(),
        all_ascii_digits(s),
    ensures
        dec_value(s.take(m)) <= dec_value(s),
    decreases s.len() - m,
{
    if m == s.len() {
        assert(s.take(m) =~= s);
    } else {
        lemma_dec_value_take_step(s, m);
        assert(all_ascii_digits(s.take(m)));
        lemma_dec_value_nonneg(s.take(m));
        lemma_dec_value_take_le(s, m + 1);
    }
}

/// Parse an unsigned decimal token, as the benchmark's two numeric
/// arguments demand it: Some exactly when the token is an optional '+'
/// followed by one or more digits whose value fits in a u64.
pub fn parse_u64(s: &Vec<u8>) -> (r: Option<u64>)
    ensures
        r is Some <==> (is_numeric_token(s@) && token_value(s@) <= u64::MAX),
        r matches Some(v) ==> v == token_value(s@),
{
    let start: usize = if s.len() > 0 && s[0] == 43u8 {
        1
    } else {
        0
    };
    if s.len() == start {
        return None;
    }
    let ghost digits = digit_part(s@);
    let mut acc: u64 = 0;
    let mut k: usize = start;
    while k < s.len()
        invariant
            start == digit_start(s@),
            start <= k <= s@.len(),
            s@.len() > start,
            digits == digit_part(s@),
            all_ascii_digits(digits.take(k - start)),
            acc == dec_value(digits.take(k - start)),
        decreases s@.len() - k,
    {
        let b = s[k];
        proof {
            assert(digits[k - start] == s@[k as int]);
        }
        if b < 48 || b > 57 {
            proof {
                assert(!is_ascii_digit(digits[k - start]));
            }
            return None;
        }
        let d: u64 = (b - 48) as u64;
        if acc > (u64::MAX - d) / 10 {
            proof {
                let m = (u64::MAX - d) as int;
                lemma_fundamental_div_mod(m, 10);
                assert(acc * 10 + d > u64::MAX);
                lemma_dec_value_take_step(digits, k - start);
                if is_numeric_token(s@) {
                    lemma_dec_value_take_le(digits, k - start + 1);
                }
            }
            return None;
        }
        proof {
            let m = (u64::MAX - d) as int;
            lemma_fundamental_div_mod(m, 10);
            assert(acc * 10 + d <= u64::MAX);
            lemma_dec_value_take_step(digits, k - start);
        }
        acc = acc * 10 + d;
        k = k + 1;
    }
    proof {
        assert(digits.take(k - start) =~= digits);
    }
    Some(acc)
}

/// Prepending a digit adds its value at the numeral's current magnitude.
proof fn lemma_dec_value_prepend(d: u8, s: Seq<u8>)
    ensures
        dec_value(seq![d] + s) == (d - 48) * pow(10, s.len() as nat) + dec_value(s),
    decreases s.len(),
{
    reveal(pow);
    let t = seq![d] + s;
    if s.len() == 0 {
        assert(t.drop_last() =~= Seq::<u8>::empty());
        assert(t.last() == d);
        assert(dec_value(Seq::<u8>::empty()) == 0);
        assert(pow(10, 0) == 1);
    } else {
        assert(t.drop_last() =~= seq![d] + s.drop_last());
        assert(t.last() == s.last());
        lemma_dec_value_prepend(d, s.drop_last());
        assert(pow(10, s.len() as nat) == 10 * pow(10, (s.len() - 1) as nat));
        assert(((d - 48) * pow(10, (s.len() - 1) as nat) + dec_value(s.drop_last())) * 10 + (
        s.last() - 48) == (d - 48) * (10 * pow(10, (s.len() - 1) as nat)) + (dec_value(
            s.drop_last(),
        ) * 10 + (s.last() - 48))) by (nonlinear_arith);
    }
}

/// Format n as its canonical decimal numeral: only digits, the exact value
/// n, and no leading zero unless n itself is zero.
pub fn format_u64(n: u64) -> (r: Vec<u8>)
    ensures
        r@.len() >= 1,
        all_ascii_digits(r@),
        dec_value(r@) == n,
        r@.len() > 1 ==> r@[0] != 48,
{
    if n == 0 {
        let mut r: Vec<u8> = Vec::new();
        r.push(48);
        proof {
            assert(r@.drop_last() =~= Seq::<u8>::empty());
            assert(dec_value(Seq::<u8>::empty()) == 0);
        }
        return r;
    }
    let mut r: Vec<u8> = Vec::new();
    let mut m: u64 = n;
    proof {
        reveal(pow);
        assert(pow(10, 0) == 1);
    }
    while m > 0
        invariant
            all_ascii_digits(r@),
            n as int == m * pow(10, r@.len() as nat) + dec_value(r@),
            dec_value(r@) >= 0,
            m == 0 ==> r@.len() > 0 && r@[0] != 48,
        decreases m,
    {
        let b: u8 = (m % 10) as u8 + 48;
        let ghost old_r = r@;
        let ghost old_m = m as int;
        r.insert(0, b);
        proof {
            reveal(pow);
            assert(r@ =~= seq![b] + old_r);
            lemma_dec_value_prepend(b, old_r);
            lemma_fundamental_div_mod(old_m, 10);
            lemma_pow_positive(10, old_r.len());
            lemma_mul_nonnegative(b - 48, pow(10, old_r.len()));
            assert(pow(10, old_r.len() + 1) == 10 * pow(10, old_r.len()));
            assert((10 * (old_m / 10) + (old_m % 10)) * pow(10, old_r.len()) == (old_m / 10) * (10
                * pow(10, old_r.len())) + (old_m % 10) * pow(10, old_r.len()))
                by (nonlinear_arith);
            if old_m / 10 == 0 {
                assert(old_m < 10);
                assert(b - 48 == old_m);
            }
        }
        m = m / 10;
    }
    proof {
        assert(0 * pow(10, r@.len() as nat) == 0) by (nonlinear_arith);
    }
    r
}

} // verus!
