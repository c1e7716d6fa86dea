//! Numbers written in digits: what a run of digits is worth, and the
//! conversion of such a run to an integer.

use vstd::arithmetic::power::pow;
use vstd::prelude::*;

verus! {

/// Every byte of `s` is a digit below `radix`, for a radix of at most ten.
pub open spec fn digits_below(s: Seq<u8>, radix: int) -> bool {
    forall|i: int| 0 <= i < s.len() ==> '0' as u8 <= #[trigger] s[i] < '0' as u8 + radix
}

/// The number that the digits of `s` spell in base `radix`, the most
/// significant digit first.
pub open spec fn digits_value(s: Seq<u8>, radix: int) -> int
    decreases s.len(),
{
    if s.len() == 0 {
        0
    } else {
        digits_value(s.drop_last(), radix) * radix + (s.last() - '0' as u8)
    }
}

/// A number of `n` digits is below the `n`-th power of the radix.
pub proof fn lemma_digits_value_below_power(s: Seq<u8>, radix: int)
    requires
        2 <= radix <= 10,
        digits_below(s, radix),
    ensures
        0 <= digits_value(s, radix) < pow(radix, s.len()),
    decreases s.len(),
{
    reveal(pow);
    if s.len() > 0 {
        let init = s.drop_last();
        assert forall|i: int| 0 <= i < init.len() implies '0' as u8 <= #[trigger] init[i]
            < '0' as u8 + radix by {
            assert(init[i] == s[i]);
        }
        lemma_digits_value_below_power(init, radix);
        let v = digits_value(init, radix);
        let p = pow(radix, init.len());
        assert(pow(radix, s.len()) == radix * p);
        assert(0 <= v * radix && v * radix + radix <= radix * p) by (nonlinear_arith)
            requires
                0 <= v < p,
                2 <= radix,
        ;
    }
}

/// One more digit at the end: the number so far times the radix, and the
/// digit.
pub proof fn lemma_digits_value_push(s: Seq<u8>, last: u8, radix: int)
    ensures
        digits_value(s.push(last), radix) == digits_value(s, radix) * radix + (last - '0' as u8),
{
    assert(s.push(last).drop_last() =~= s);
}

/// A zero at the head of a number changes nothing.
pub proof fn lemma_leading_zero(s: Seq<u8>, radix: int)
    requires
        s.len() > 0,
        s[0] == '0' as u8,
    ensures
        digits_value(s, radix) == digits_value(s.skip(1), radix),
    decreases s.len(),
{
    if s.len() == 1 {
        assert(s.drop_last() =~= Seq::<u8>::empty());
        assert(s.skip(1) =~= Seq::<u8>::empty());
        assert(digits_value(s.drop_last(), radix) == 0);
    } else {
        lemma_leading_zero(s.drop_last(), radix);
        assert(s.drop_last().skip(1) =~= s.skip(1).drop_last());
    }
}

/// `btoi::ParseIntegerError`, the error of a conversion. Nothing is known
/// here of what it holds.
#[verifier::external_type_specification]
#[verifier::external_body]
pub struct ExParseIntegerError(btoi::ParseIntegerError);

/// `btoi::btoi` at `u64`, taken on trust: its body is not verified, and
/// the contract says what `btoi` documents. Of a non-empty run of decimal
/// digits it returns the number that the digits spell where that number
/// fits in 64 bits, and an error where it does not.
#[verifier::external_body]
fn btoi_u64(bytes: &[u8]) -> (r: Result<u64, btoi::ParseIntegerError>)
    requires
        bytes@.len() > 0,
        digits_below(bytes@, 10),
    ensures
        r is Ok <==> digits_value(bytes@, 10) <= u64::MAX,
        r matches Ok(v) ==> v == digits_value(bytes@, 10),
{
    btoi::btoi::<u64>(bytes)
}

/// `btoi::btoi_radix` at `u32`, for a radix from two to ten, taken on
/// trust like `btoi_u64`. Of a non-empty run of digits below the radix it
/// returns the number that the digits spell in that base where the number
/// fits in 32 bits, and an error where it does not.
#[verifier::external_body]
fn btoi_radix_u32(bytes: &[u8], radix: u32) -> (r: Result<u32, btoi::ParseIntegerError>)
    requires
        2 <= radix <= 10,
        bytes@.len() > 0,
        digits_below(bytes@, radix as int),
    ensures
        r is Ok <==> digits_value(bytes@, radix as int) <= u32::MAX,
        r matches Ok(v) ==> v == digits_value(bytes@, radix as int),
{
    btoi::btoi_radix::<u32>(bytes, radix)
}

/// The number that a non-empty run of decimal digits spells, or `None`
/// where it exceeds 64 bits.
pub(crate) fn decimal(digits: &[u8]) -> (r: Option<u64>)
    requires
        digits@.len() > 0,
        digits_below(digits@, 10),
    ensures
        0 <= digits_value(digits@, 10),
        r == if digits_value(digits@, 10) <= u64::MAX {
            Some(digits_value(digits@, 10) as u64)
        } else {
            None
        },
{
    proof {
        lemma_digits_value_below_power(digits@, 10);
    }
    match btoi_u64(digits) {
        Ok(v) => Some(v),
        Err(_) => None,
    }
}

/// The number that a non-empty run of digits spells in base `radix`, or
/// `None` where it exceeds 32 bits.
pub(crate) fn in_radix(digits: &[u8], radix: u32) -> (r: Option<u32>)
    requires
        2 <= radix <= 10,
        digits@.len() > 0,
        digits_below(digits@, radix as int),
    ensures
        0 <= digits_value(digits@, radix as int),
        r == if digits_value(digits@, radix as int) <= u32::MAX {
            Some(digits_value(digits@, radix as int) as u32)
        } else {
            None
        },
{
    proof {
        lemma_digits_value_below_power(digits@, radix as int);
    }
    match btoi_radix_u32(digits, radix) {
        Ok(v) => Some(v),
        Err(_) => None,
    }
}

/// The digit that stands for `d`, which is below ten.
pub open spec fn digit(d: int) -> u8 {
    ('0' as u8 + d) as u8
}

/// The decimal digits of `n`, the most significant first and no zero
/// before it; zero is one digit.
pub open spec fn spec_decimal(n: nat) -> Seq<u8>
    decreases n,
{
    if n < 10 {
        seq![digit(n as int)]
    } else {
        spec_decimal(n / 10).push(digit((n % 10) as int))
    }
}

/// The digits of a number are digits, at least one, and spell the number.
pub proof fn lemma_decimal(n: nat)
    ensures
        spec_decimal(n).len() > 0,
        digits_below(spec_decimal(n), 10),
        digits_value(spec_decimal(n), 10) == n,
    decreases n,
{
    let s = spec_decimal(n);
    if n < 10 {
        assert(s.drop_last() =~= Seq::<u8>::empty());
        assert(digits_value(s.drop_last(), 10) == 0);
    } else {
        lemma_decimal(n / 10);
        let init = spec_decimal(n / 10);
        assert(s.drop_last() =~= init);
        assert forall|i: int| 0 <= i < s.len() implies '0' as u8 <= #[trigger] s[i] < '0' as u8
            + 10 by {
            if i < init.len() {
                assert(s[i] == init[i]);
            }
        }
    }
}

/// Appends the decimal digits of `n` to `out`.
pub fn push_decimal(out: &mut Vec<u8>, n: u64)
    ensures
        final(out)@ == old(out)@ + spec_decimal(n as nat),
    decreases n,
{
    if n >= 10 {
        push_decimal(out, n / 10);
    }
    out.push('0' as u8 + (n % 10) as u8);
    assert(out@ =~= old(out)@ + spec_decimal(n as nat));
}

} // verus!
