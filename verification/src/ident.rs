//! Identifiers of tasks and of audit entries.
//!
//! An identifier is the 128-bit value of a UUID. The library keeps the
//! number; the `uuid` crate draws fresh ones and renders them as text.

use vstd::prelude::*;
use vstd::arithmetic::power::pow;

verus! {

/// The lower-case hexadecimal digit for `n`, where `0 <= n < 16`.
pub open spec fn hex_digit(n: int) -> char {
    "0123456789abcdef"@[n]
}

/// The `k`-th hexadecimal digit of `value`, counted from the most
/// significant one, for `0 <= k < 32`.
pub open spec fn nibble(value: u128, k: int) -> int {
    (value as int / pow(16, (31 - k) as nat)) % 16
}

/// Whether position `i` of the 36-character text holds a hyphen.
pub open spec fn is_hyphen_at(i: int) -> bool {
    i == 8 || i == 13 || i == 18 || i == 23
}

/// How many hyphens stand before position `i` of the text.
pub open spec fn hyphens_before(i: int) -> int {
    if i > 23 {
        4
    } else if i > 18 {
        3
    } else if i > 13 {
        2
    } else if i > 8 {
        1
    } else {
        0
    }
}

/// The text of an identifier: its 32 lower-case hexadecimal digits, most
/// significant first, in groups of 8, 4, 4, 4 and 12 joined by hyphens.
pub open spec fn id_text(id: u128) -> Seq<char> {
    Seq::new(
        36,
        |i: int|
            if is_hyphen_at(i) {
                '-'
            } else {
                hex_digit(nibble(id, i - hyphens_before(i)))
            },
    )
}

/// Whether `id` carries the marks of a randomly drawn UUID: version 4 in
/// digit 12 and the RFC 4122 variant in the top two bits of digit 16.
pub open spec fn is_random_id(id: u128) -> bool {
    nibble(id, 12) == 4 && 8 <= nibble(id, 16) <= 11
}

/// Draws a fresh identifier with `uuid::Uuid::new_v4` and takes its value
/// with `Uuid::as_u128`. Trusted: the value is random, and all that is
/// claimed of it is the version and variant that `new_v4` always sets.
#[verifier::external_body]
pub(crate) fn fresh_id() -> (id: u128)
    ensures
        is_random_id(id),
{
    uuid::Uuid::new_v4().as_u128()
}

/// Renders an identifier with `uuid::Uuid::from_u128` and the `Display` of
/// `Uuid`. Trusted: the text is the hyphenated lower-case form that
/// [`id_text`] spells out.
#[verifier::external_body]
pub(crate) fn id_to_string(id: u128) -> (text: String)
    ensures
        text@ == id_text(id),
{
    uuid::Uuid::from_u128(id).to_string()
}

} // verus!
