//! Identifiers of hosts, sessions and operations.
use vstd::prelude::*;

verus! {

/// A UUID by its 128-bit value.
#[derive(Clone, Copy, Debug, PartialEq, Eq, Structural, Hash, PartialOrd, Ord)]
pub struct Id {
    pub value: u128,
}

/// The value carries the version number of random UUIDs and the variant of RFC 9562.
pub open spec fn is_random_id(value: u128) -> bool {
    &&& (value >> 76u128) & 0xfu128 == 4u128
    &&& (value >> 62u128) & 0x3u128 == 2u128
}

/// All identities are random ones.
pub open spec fn all_random(ids: Seq<Id>) -> bool {
    forall|i: int| 0 <= i < ids.len() ==> is_random_id((#[trigger] ids[i]).value)
}

/// Draws a value with `uuid::Uuid::new_v4`. The random bits are free; `new_v4` masks in the
/// version and the variant.
#[verifier::external_body]
fn draw_random_value() -> (r: u128)
    ensures
        is_random_id(r),
{
    uuid::Uuid::new_v4().as_u128()
}

/// What `uuid::Uuid::parse_str` reads from a text, as a value.
pub uninterp spec fn parsed_uuid(text: Seq<char>) -> Option<u128>;

/// Reads a UUID with `uuid::Uuid::parse_str`; the outcome depends on the text alone.
#[verifier::external_body]
fn parse_uuid(text: &str) -> (r: Option<u128>)
    ensures
        r == parsed_uuid(text@),
{
    uuid::Uuid::parse_str(text).ok().map(|id| id.as_u128())
}

/// A hexadecimal digit in lower case.
pub open spec fn hex_char(d: u128) -> char {
    if d < 10 {
        ((0x30 + d) as u32) as char
    } else {
        ((0x57 + d) as u32) as char
    }
}

/// The hyphenated notation: groups of 8, 4, 4, 4 and 12 hexadecimal digits, most significant
/// first.
pub open spec fn uuid_text(value: u128) -> Seq<char> {
    Seq::new(
        36,
        |i: int|
            if i == 8 || i == 13 || i == 18 || i == 23 {
                '-'
            } else {
                let hyphens: int = if i < 8 {
                    0
                } else if i < 13 {
                    1
                } else if i < 18 {
                    2
                } else if i < 23 {
                    3
                } else {
                    4
                };
                hex_char((value >> ((4 * (31 - (i - hyphens))) as u128)) & 0xfu128)
            },
    )
}

/// Writes a value as `uuid::Uuid` displays it, hyphenated and in lower case; `parse_str` reads
/// the value back from that text.
#[verifier::external_body]
fn format_uuid(value: u128) -> (r: String)
    ensures
        r@ == uuid_text(value),
        parsed_uuid(r@) == Some(value),
{
    uuid::Uuid::from_u128(value).to_string()
}

impl Id {
    /// A fresh random identifier.
    pub fn new_v4() -> (r: Id)
        ensures
            is_random_id(r.value),
    {
        Id { value: draw_random_value() }
    }

    /// The identifier whose bits are all zero.
    pub fn nil() -> (r: Id)
        ensures
            r.value == 0,
    {
        Id { value: 0 }
    }

    /// The identifier written in a text, if there is one.
    pub fn parse(text: &str) -> (r: Option<Id>)
        ensures
            match parsed_uuid(text@) {
                Some(value) => r == Some(Id { value }),
                None => r is None,
            },
    {
        match parse_uuid(text) {
            Some(value) => Some(Id { value }),
            None => None,
        }
    }

    /// The hyphenated text; `parse` reads the identifier back from it.
    pub fn text(&self) -> (r: String)
        ensures
            r@ == uuid_text(self.value),
                parsed_uuid(r@) == Some(self.value),
    {
        format_uuid(self.value)
    }
}

} // verus!
