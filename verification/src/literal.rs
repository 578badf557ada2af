//! Decimal integer literals.

use vstd::prelude::*;

verus! {

/// The character of a decimal digit below 10.
pub open spec fn decimal_digit(d: nat) -> char {
    seq!['0', '1', '2', '3', '4', '5', '6', '7', '8', '9'][d as int]
}

/// The decimal digits of `n`, most significant first: no sign, no leading
/// zero (but for zero itself), no suffix.
pub open spec fn decimal(n: nat) -> Seq<char>
    decreases n,
{
    if n < 10 {
        seq![decimal_digit(n)]
    } else {
        decimal(n / 10).push(decimal_digit(n % 10))
    }
}

/// The text of an integer literal without a type suffix.
///
/// Trusted: this makes the token with `proc_macro2::Literal::u64_unsuffixed`
/// and takes its text. The contract claims that the text is the value's
/// decimal digits and nothing else, which is what the token's constructor
/// stores and what its `Display` prints.
#[verifier::external_body]
pub(crate) fn unsuffixed_literal(value: u64) -> (text: String)
    ensures
        text@ == decimal(value as nat),
{
    proc_macro2::Literal::u64_unsuffixed(value).to_string()
}

/// Every decimal text has at least one digit.
pub proof fn lemma_decimal_not_empty(n: nat)
    ensures
        decimal(n).len() >= 1,
    decreases n,
{
    if n >= 10 {
        lemma_decimal_not_empty(n / 10);
    }
}

/// Different numbers have different decimal texts.
pub proof fn lemma_decimal_injective(a: nat, b: nat)
    requires
        decimal(a) == decimal(b),
    ensures
        a == b,
    decreases a,
{
    if a < 10 && b < 10 {
        assert(decimal(a)[0] == decimal_digit(a));
        assert(decimal(b)[0] == decimal_digit(b));
    } else if a < 10 {
        lemma_decimal_not_empty(b / 10);
    } else if b < 10 {
        lemma_decimal_not_empty(a / 10);
    } else {
        let front_a = decimal(a / 10);
        let front_b = decimal(b / 10);
        assert(front_a.push(decimal_digit(a % 10)).drop_last() =~= front_a);
        assert(front_b.push(decimal_digit(b % 10)).drop_last() =~= front_b);
        assert(front_a.push(decimal_digit(a % 10)).last() == decimal_digit(a % 10));
        assert(front_b.push(decimal_digit(b % 10)).last() == decimal_digit(b % 10));
        lemma_decimal_injective(a / 10, b / 10);
        assert(a % 10 == b % 10);
    }
}

/// A decimal text holds decimal digits only.
pub proof fn lemma_decimal_is_digits(n: nat)
    ensures
        forall|i: int| 0 <= i < decimal(n).len() ==> '0' <= #[trigger] decimal(n)[i] <= '9',
    decreases n,
{
    let text = decimal(n);
    if n >= 10 {
        lemma_decimal_is_digits(n / 10);
    }
    assert forall|i: int| 0 <= i < text.len() implies '0' <= #[trigger] text[i] <= '9' by {
        if n < 10 {
            assert(text[i] == decimal_digit(n));
        } else {
            let front = decimal(n / 10);
            if i < front.len() {
                assert(text[i] == front[i]);
            } else {
                assert(text[i] == decimal_digit(n % 10));
            }
        }
    }
}

} // verus!
