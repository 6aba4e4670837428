//! Account identifiers: 128-bit values with a textual form.

use vstd::prelude::*;

verus! {

/// A 128-bit identifier of an account.
#[derive(Debug, Clone, Copy, PartialEq, Eq, Hash, Structural)]
pub struct Uuid(pub u128);

impl Uuid {
    /// The identifier whose bits are all zero.
    pub fn nil() -> (id: Uuid)
        ensures
            id == Uuid(0),
    {
        Uuid(0)
    }
}

impl Default for Uuid {
    fn default() -> (id: Uuid)
        ensures
            id == Uuid(0),
    {
        Uuid(0)
    }
}

/// The lower-case hexadecimal digit of a value below sixteen.
pub open spec fn hex_digit(nibble: u128) -> char {
    if nibble < 10 {
        (0x30 + nibble) as char
    } else {
        (0x61 + nibble - 10) as char
    }
}

/// The hyphenated form of an identifier: 32 lower-case hexadecimal digits,
/// most significant first, in groups of 8, 4, 4, 4 and 12 with a hyphen
/// between them.
pub open spec fn uuid_text(value: u128) -> Seq<char> {
    Seq::new(
        36,
        |i: int|
            if i == 8 || i == 13 || i == 18 || i == 23 {
                '-'
            } else {
                let hyphens: int = if i > 23 {
                    4
                } else if i > 18 {
                    3
                } else if i > 13 {
                    2
                } else if i > 8 {
                    1
                } else {
                    0
                };
                hex_digit((value >> ((124 - 4 * (i - hyphens)) as u128)) & 0xf)
            },
    )
}

/// The value that a text stands for as an identifier, if it is one in any of
/// the accepted notations.
pub uninterp spec fn uuid_parse(text: Seq<char>) -> Option<u128>;

/// The identifier that a text stands for, if any.
pub open spec fn parsed_uuid(text: Seq<char>) -> Option<Uuid> {
    match uuid_parse(text) {
        Some(value) => Some(Uuid(value)),
        None => None,
    }
}

/// `Uuid::parse_str` of the `uuid` crate: reads an identifier in simple,
/// hyphenated, braced or URN notation. Whether a text is accepted, and as
/// which value, depends on the text alone; nothing more is claimed.
#[verifier::external_body]
pub(crate) fn parse_uuid(text: &String) -> (id: Option<Uuid>)
    ensures
        id == (match uuid_parse(text@) {
            Some(value) => Some(Uuid(value)),
            None => None,
        }),
{
    match uuid::Uuid::parse_str(text.as_str()) {
        Ok(id) => Some(Uuid(id.as_u128())),
        Err(_) => None,
    }
}

/// `Display` of the `uuid` crate's `Uuid`, which writes the hyphenated
/// lower-case form. `Uuid::parse_str` reads that form back as the same
/// identifier.
#[verifier::external_body]
pub(crate) fn uuid_to_string(id: Uuid) -> (text: String)
    ensures
        text@ == uuid_text(id.0),
        uuid_parse(text@) == Some(id.0),
{
    uuid::Uuid::from_u128(id.0).to_string()
}

} // verus!
