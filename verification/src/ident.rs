//! Streak identities.
//!
//! An identity is the 128-bit value of a UUID. New ones are drawn at random
//! by the `uuid` crate, which also writes an identity in its canonical
//! hyphenated form; the first five characters of that form are the short
//! ident by which people name a streak.

use vstd::prelude::*;
use vstd::string::StringExecFns;

verus! {

/// Number of characters of the canonical form that make up a short ident.
pub const IDENT_LEN: usize = 5;

/// The canonical lower-case hyphenated text that `uuid` writes for the
/// identity with the given value.
pub uninterp spec fn hyphenated_text(id: u128) -> Seq<char>;

/// The first `IDENT_LEN` characters of `text`, or all of it when it is
/// shorter.
pub open spec fn short_prefix_model(text: Seq<char>) -> Seq<char> {
    if text.len() >= IDENT_LEN as int {
        text.subrange(0, IDENT_LEN as int)
    } else {
        text
    }
}

/// The short ident of an identity.
pub open spec fn ident_model(id: u128) -> Seq<char> {
    short_prefix_model(hyphenated_text(id))
}

/// Trusted: `uuid::Uuid::new_v4`, handed back through `Uuid::as_u128`. The
/// value is random, so nothing is claimed of it.
#[verifier::external_body]
pub(crate) fn uuid_new_v4() -> u128 {
    uuid::Uuid::new_v4().as_u128()
}

/// Trusted: `Display` of `uuid::Uuid`, on the UUID that `Uuid::from_u128`
/// makes of `id`. The text depends on `id` alone and is the named
/// `hyphenated_text`; nothing more is claimed of it.
#[verifier::external_body]
fn uuid_to_string(id: u128) -> (r: String)
    ensures
        r@ == hyphenated_text(id),
{
    uuid::Uuid::from_u128(id).to_string()
}

/// The leading `IDENT_LEN` characters of a canonical text.
pub fn short_prefix(text: &str) -> (r: String)
    ensures
        r@ == short_prefix_model(text@),
{
    let n: usize = text.unicode_len();
    if n >= IDENT_LEN {
        String::from_str(text.substring_char(0, IDENT_LEN))
    } else {
        String::from_str(text)
    }
}

/// The short ident of an identity.
pub fn short_ident(id: u128) -> (r: String)
    ensures
        r@ == ident_model(id),
{
    let text = uuid_to_string(id);
    short_prefix(text.as_str())
}

} // verus!
