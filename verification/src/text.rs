//! Text helpers: the canonical form of identifiers and building strings.

use vstd::prelude::*;

verus! {

/// The lower-case form of a text, as `str::to_lowercase` computes it from the
/// Unicode case tables. Identifiers are compared in this form.
pub uninterp spec fn lowercase(text: Seq<char>) -> Seq<char>;

/// `str::to_lowercase` of the standard library. The contract names its result
/// [`lowercase`] of the argument and claims nothing else of it.
#[verifier::external_body]
pub(crate) fn to_lowercase(text: &String) -> (lowered: String)
    ensures
        lowered@ == lowercase(text@),
{
    text.to_lowercase()
}

/// The upper-case form of a text, as `str::to_uppercase` computes it from the
/// Unicode case tables. Reserved words are recognized in this form.
pub uninterp spec fn uppercase(text: Seq<char>) -> Seq<char>;

/// `str::to_uppercase` of the standard library. The contract names its result
/// [`uppercase`] of the argument and claims nothing else of it.
#[verifier::external_body]
pub(crate) fn to_uppercase(text: &String) -> (raised: String)
    ensures
        raised@ == uppercase(text@),
{
    text.to_uppercase()
}

/// `String::push` of the standard library, which appends one character.
#[verifier::external_body]
pub(crate) fn push_char(text: &mut String, c: char)
    ensures
        final(text)@ == old(text)@.push(c),
{
    text.push(c)
}

/// The character for a digit below ten.
pub open spec fn digit_char(digit: nat) -> char
    recommends
        digit < 10,
{
    ((48 + digit) as u8) as char
}

/// The decimal numeral of a number, without leading zeros.
pub open spec fn decimal(n: nat) -> Seq<char>
    decreases n,
{
    if n < 10 {
        seq![digit_char(n)]
    } else {
        decimal(n / 10).push(digit_char(n % 10))
    }
}

/// Appends the decimal numeral of `n` to `text`.
pub fn push_decimal(text: &mut String, n: usize)
    ensures
        final(text)@ == old(text)@ + decimal(n as nat),
    decreases n,
{
    if n >= 10 {
        push_decimal(text, n / 10);
    }
    let digit: u8 = (n % 10) as u8;
    push_char(text, (48 + digit) as char);
    proof {
        if n < 10 {
            assert(old(text)@.push(digit_char(n as nat)) =~= old(text)@ + decimal(n as nat));
        } else {
            assert((old(text)@ + decimal((n / 10) as nat)).push(digit_char((n % 10) as nat))
                =~= old(text)@ + decimal(n as nat));
        }
    }
}

} // verus!
