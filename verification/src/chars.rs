//! Character classes used by the marker scanners: identifier-safe characters,
//! reference-safe characters, and whitespace.

use vstd::prelude::*;

verus! {

/// Whether a character counts as Unicode whitespace.
pub uninterp spec fn whitespace_char(c: char) -> bool;

/// Whether a character is Unicode alphanumeric.
pub uninterp spec fn alphanumeric_char(c: char) -> bool;

/// Relies on char::is_whitespace: whether the character has the Unicode
/// White_Space property, a function of the character alone.
#[verifier::external_body]
pub(crate) fn is_whitespace_char(c: char) -> (r: bool)
    ensures
        r == whitespace_char(c),
{
    c.is_whitespace()
}

/// Relies on char::is_alphanumeric: whether the character is in the Unicode
/// categories Letter or Number, a function of the character alone.
#[verifier::external_body]
pub(crate) fn is_alphanumeric_char(c: char) -> (r: bool)
    ensures
        r == alphanumeric_char(c),
{
    c.is_alphanumeric()
}

/// Characters allowed in a fragment identifier: alphanumerics plus a small
/// allow-list of separators.
pub open spec fn id_safe_char(c: char) -> bool {
    alphanumeric_char(c) || c == '/' || c == '_' || c == '-'
}

/// Characters allowed in a metadata property name: alphanumerics only.
pub open spec fn ref_safe_char(c: char) -> bool {
    alphanumeric_char(c)
}

pub(crate) fn is_id_safe_char(c: char) -> (r: bool)
    ensures
        r == id_safe_char(c),
{
    is_alphanumeric_char(c) || c == '/' || c == '_' || c == '-'
}

pub(crate) fn is_ref_safe_char(c: char) -> (r: bool)
    ensures
        r == ref_safe_char(c),
{
    is_alphanumeric_char(c)
}

} // verus!
