//! Hexadecimal numerals and their values.

use std::num::ParseIntError;
use vstd::prelude::*;

verus! {

/// The error of std's integer parsing, carried through as it comes.
#[verifier::external_type_specification]
#[verifier::external_body]
pub struct ExParseIntError(ParseIntError);

/// `c` is one of `0`-`9`, `a`-`f`, `A`-`F`.
pub open spec fn is_hex_digit(c: char) -> bool {
    ('0' <= c && c <= '9') || ('a' <= c && c <= 'f') || ('A' <= c && c <= 'F')
}

/// The number that the hexadecimal digit `c` stands for.
pub open spec fn hex_digit_value(c: char) -> nat {
    if '0' <= c && c <= '9' {
        (c as int - '0' as int) as nat
    } else if 'a' <= c && c <= 'f' {
        (c as int - 'a' as int + 10) as nat
    } else {
        (c as int - 'A' as int + 10) as nat
    }
}

/// Every character of `s` is a hexadecimal digit.
pub open spec fn all_hex(s: Seq<char>) -> bool {
    forall|i: int| 0 <= i < s.len() ==> is_hex_digit(#[trigger] s[i])
}

/// The number that the hexadecimal numeral `s` stands for, most significant
/// digit first.
pub open spec fn hex_value(s: Seq<char>) -> nat
    decreases s.len(),
{
    if s.len() == 0 {
        0
    } else {
        16 * hex_value(s.drop_last()) + hex_digit_value(s.last())
    }
}

/// 16 to the power `n`.
pub open spec fn pow16(n: nat) -> nat
    decreases n,
{
    if n == 0 {
        1
    } else {
        16 * pow16((n - 1) as nat)
    }
}

/// A numeral of `n` hexadecimal digits stands for a number below 16 to the
/// power `n`.
pub proof fn lemma_hex_value_bound(s: Seq<char>)
    requires
        all_hex(s),
    ensures
        hex_value(s) < pow16(s.len()),
    decreases s.len(),
{
    if s.len() > 0 {
        let init = s.drop_last();
        assert forall|i: int| 0 <= i < init.len() implies is_hex_digit(#[trigger] init[i]) by {
            assert(init[i] == s[i]);
        }
        lemma_hex_value_bound(init);
        assert(is_hex_digit(s.last()));
        assert(hex_digit_value(s.last()) < 16);
    }
}

/// Up to sixteen hexadecimal digits stand for a number that fits in 64 bits.
pub proof fn lemma_hex_value_fits(s: Seq<char>)
    requires
        all_hex(s),
        s.len() <= 16,
    ensures
        hex_value(s) <= u64::MAX,
{
    lemma_hex_value_bound(s);
    reveal_with_fuel(pow16, 17);
    assert(pow16(16) == 0x1_0000_0000_0000_0000);
    lemma_pow16_increases(s.len(), 16);
}

/// `pow16` grows with its argument.
pub proof fn lemma_pow16_increases(a: nat, b: nat)
    requires
        a <= b,
    ensures
        pow16(a) <= pow16(b),
    decreases b,
{
    if a < b {
        lemma_pow16_increases(a, (b - 1) as nat);
    }
}

/// `s` is a numeral of one to sixteen hexadecimal digits.
pub open spec fn is_short_numeral(s: Seq<char>) -> bool {
    0 < s.len() <= 16 && all_hex(s)
}

/// `u64::from_str_radix` with radix 16. Of a numeral of one to sixteen
/// hexadecimal digits and nothing else, it returns the number that the numeral
/// stands for; nothing is claimed of other strings.
#[verifier::external_body]
pub(crate) fn parse_hex(digits: &str) -> (r: Result<u64, ParseIntError>)
    ensures
        is_short_numeral(digits@) ==> r.is_ok() && r.unwrap() == hex_value(digits@),
{
    u64::from_str_radix(digits, 16)
}

} // verus!
