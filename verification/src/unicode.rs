//! Unicode general categories of chars.
use vstd::prelude::*;
use unicode_categories::UnicodeCategories;

verus! {

/// Membership of a char in the Unicode general category "Letter, Lowercase" (Ll),
/// as the tables of the `unicode_categories` crate give it.
pub uninterp spec fn letter_lowercase(c: char) -> bool;

/// Membership in "Letter, Modifier" (Lm), per the `unicode_categories` tables.
pub uninterp spec fn letter_modifier(c: char) -> bool;

/// Membership in "Letter, Other" (Lo), per the `unicode_categories` tables.
pub uninterp spec fn letter_other(c: char) -> bool;

/// Membership in "Letter, Uppercase" (Lu), per the `unicode_categories` tables.
pub uninterp spec fn letter_uppercase(c: char) -> bool;

/// Membership in "Number, Letter" (Nl), per the `unicode_categories` tables.
pub uninterp spec fn number_letter(c: char) -> bool;

/// Membership in "Mark, Nonspacing" (Mn), per the `unicode_categories` tables.
pub uninterp spec fn mark_nonspacing(c: char) -> bool;

/// Membership in "Mark, Spacing Combining" (Mc), per the `unicode_categories` tables.
pub uninterp spec fn mark_spacing_combining(c: char) -> bool;

/// Membership in "Number, Decimal Digit" (Nd), per the `unicode_categories` tables.
pub uninterp spec fn number_decimal_digit(c: char) -> bool;

/// Membership in "Punctuation, Connector" (Pc), per the `unicode_categories` tables.
pub uninterp spec fn punctuation_connector(c: char) -> bool;

/// Calls `UnicodeCategories::is_letter_lowercase`, a binary search in a
/// static table; the result is taken to be `letter_lowercase(c)`, a name for
/// that table's contents, which nothing here restates beyond ASCII.
/// Among ASCII chars: its table starts with `a`..`z` and holds no other ASCII char.
#[verifier::external_body]
pub(crate) fn is_letter_lowercase(c: char) -> (r: bool)
    ensures
        r == letter_lowercase(c),
        (c as int) < 0x80 ==> (r <==> ('a' <= c && c <= 'z')),
{
    c.is_letter_lowercase()
}

/// Calls `UnicodeCategories::is_letter_modifier`; the result is named `letter_modifier(c)`.
/// Among ASCII chars: its table starts at U+02B0.
#[verifier::external_body]
pub(crate) fn is_letter_modifier(c: char) -> (r: bool)
    ensures
        r == letter_modifier(c),
        (c as int) < 0x80 ==> !r,
{
    c.is_letter_modifier()
}

/// Calls `UnicodeCategories::is_letter_other`; the result is named `letter_other(c)`.
/// Among ASCII chars: its table starts at U+00AA and its ranges at U+3400.
#[verifier::external_body]
pub(crate) fn is_letter_other(c: char) -> (r: bool)
    ensures
        r == letter_other(c),
        (c as int) < 0x80 ==> !r,
{
    c.is_letter_other()
}

/// Calls `UnicodeCategories::is_letter_uppercase`; the result is named `letter_uppercase(c)`.
/// Among ASCII chars: its table starts with `A`..`Z` and holds no other ASCII char.
#[verifier::external_body]
pub(crate) fn is_letter_uppercase(c: char) -> (r: bool)
    ensures
        r == letter_uppercase(c),
        (c as int) < 0x80 ==> (r <==> ('A' <= c && c <= 'Z')),
{
    c.is_letter_uppercase()
}

/// Calls `UnicodeCategories::is_number_letter`; the result is named `number_letter(c)`.
/// Among ASCII chars: its table starts at U+16EE.
#[verifier::external_body]
pub(crate) fn is_number_letter(c: char) -> (r: bool)
    ensures
        r == number_letter(c),
        (c as int) < 0x80 ==> !r,
{
    c.is_number_letter()
}

/// Calls `UnicodeCategories::is_mark_nonspacing`; the result is named `mark_nonspacing(c)`.
/// Among ASCII chars: its table starts at U+0300.
#[verifier::external_body]
pub(crate) fn is_mark_nonspacing(c: char) -> (r: bool)
    ensures
        r == mark_nonspacing(c),
        (c as int) < 0x80 ==> !r,
{
    c.is_mark_nonspacing()
}

/// Calls `UnicodeCategories::is_mark_spacing_combining`; the result is named
/// `mark_spacing_combining(c)`.
/// Among ASCII chars: its table starts at U+0903.
#[verifier::external_body]
pub(crate) fn is_mark_spacing_combining(c: char) -> (r: bool)
    ensures
        r == mark_spacing_combining(c),
        (c as int) < 0x80 ==> !r,
{
    c.is_mark_spacing_combining()
}

/// Calls `UnicodeCategories::is_number_decimal_digit`; the result is named
/// `number_decimal_digit(c)`.
/// Among ASCII chars: its table starts with `0`..`9` and holds no other ASCII char.
#[verifier::external_body]
pub(crate) fn is_number_decimal_digit(c: char) -> (r: bool)
    ensures
        r == number_decimal_digit(c),
        (c as int) < 0x80 ==> (r <==> ('0' <= c && c <= '9')),
{
    c.is_number_decimal_digit()
}

/// Calls `UnicodeCategories::is_punctuation_connector`; the result is named
/// `punctuation_connector(c)`.
/// Among ASCII chars: its table starts with `_` and holds no other ASCII char.
#[verifier::external_body]
pub(crate) fn is_punctuation_connector(c: char) -> (r: bool)
    ensures
        r == punctuation_connector(c),
        (c as int) < 0x80 ==> (r <==> c == '_'),
{
    c.is_punctuation_connector()
}

} // verus!
