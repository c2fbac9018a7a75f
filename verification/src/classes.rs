use vstd::prelude::*;
use crate::text::{ascii_lower_seq, ascii_upper_seq, is_ascii_digit, is_ascii_seq};

verus! {

/// Membership in the class `\d` of the `regex` crate (Unicode decimal digits, `\p{Nd}`).
pub uninterp spec fn regex_digit_class(c: char) -> bool;

/// Membership in the class `\w` of the `regex` crate (Unicode word characters).
pub uninterp spec fn regex_word_class(c: char) -> bool;

/// What `str::to_uppercase` returns.
pub uninterp spec fn unicode_upper(s: Seq<char>) -> Seq<char>;

/// What `str::to_lowercase` returns.
pub uninterp spec fn unicode_lower(s: Seq<char>) -> Seq<char>;

/// What `char::is_alphanumeric` returns.
pub uninterp spec fn unicode_alphanumeric(c: char) -> bool;

pub open spec fn is_ascii_alnum(c: char) -> bool {
    is_ascii_digit(c) || ('a' <= c <= 'z') || ('A' <= c <= 'Z')
}

/// Matches the one-character string `c` against the `regex` pattern `\A\d\z`. The contract
/// claims that the answer depends on `c` alone and that, among ASCII characters, exactly
/// `'0'..='9'` are in the class (the Unicode tables of `regex-syntax` show it).
#[verifier::external_body]
pub(crate) fn regex_digit(c: char) -> (r: bool)
    ensures
        r == regex_digit_class(c),
        (c as u32) < 128 ==> (r == is_ascii_digit(c)),
{
    let mut buf = [0u8; 4];
    regex::Regex::new(r"\A\d\z").unwrap().is_match(c.encode_utf8(&mut buf))
}

/// Matches the one-character string `c` against the `regex` pattern `\A\w\z`. The contract
/// claims that the answer depends on `c` alone and that, among ASCII characters, exactly the
/// letters, the digits and `_` are in the class.
#[verifier::external_body]
pub(crate) fn regex_word(c: char) -> (r: bool)
    ensures
        r == regex_word_class(c),
        (c as u32) < 128 ==> (r == (is_ascii_alnum(c) || c == '_')),
{
    let mut buf = [0u8; 4];
    regex::Regex::new(r"\A\w\z").unwrap().is_match(c.encode_utf8(&mut buf))
}

/// `str::to_uppercase`; the contract names the result. Of ASCII text it claims what the
/// documentation of the case mappings gives: each letter `a`-`z` becomes `A`-`Z` (its
/// one-to-one mapping in the Unicode data), and every other ASCII character has no mapping
/// and stays.
#[verifier::external_body]
pub(crate) fn to_uppercase(s: &str) -> (r: String)
    ensures
        r@ == unicode_upper(s@),
        is_ascii_seq(s@) ==> r@ == ascii_upper_seq(s@),
{
    s.to_uppercase()
}

/// `str::to_lowercase`; the contract names the result. Of ASCII text it claims what the
/// documentation of the case mappings gives: each letter `A`-`Z` becomes `a`-`z` (its
/// one-to-one mapping in the Unicode data), and every other ASCII character has no mapping
/// and stays.
#[verifier::external_body]
pub(crate) fn to_lowercase(s: &str) -> (r: String)
    ensures
        r@ == unicode_lower(s@),
        is_ascii_seq(s@) ==> r@ == ascii_lower_seq(s@),
{
    s.to_lowercase()
}

/// `char::is_alphanumeric`; the contract names the result. Of an ASCII character it claims
/// what the documentation gives: it is alphabetic or numeric, which among ASCII characters
/// are exactly the letters and the digits.
#[verifier::external_body]
pub(crate) fn is_alphanumeric(c: char) -> (r: bool)
    ensures
        r == unicode_alphanumeric(c),
        (c as u32) < 128 ==> (r == is_ascii_alnum(c)),
{
    c.is_alphanumeric()
}

} // verus!
