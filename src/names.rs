use vstd::prelude::*;

verus! {

/// The display text of a player identifier: the identifier written as a
/// hyphenated lower-case UUID.
pub uninterp spec fn uuid_text(id: u128) -> Seq<char>;

/// Relies on `uuid::Uuid::from_u128` and uuid's `Display` impl: the text
/// depends on the identifier alone.
#[verifier::external_body]
pub(crate) fn get_player_name(id: u128) -> (r: String)
    ensures
        r@ == uuid_text(id),
{
    uuid::Uuid::from_u128(id).to_string()
}

} // verus!
