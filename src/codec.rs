//! Candid encoding of records.
//!
//! Every record is written as a candid argument pair: the sequence of its
//! integer fields and the sequence of its text fields.
use vstd::prelude::*;

verus! {

/// The text fields of a record, as character sequences.
pub open spec fn texts_view(s: Seq<String>) -> Seq<Seq<char>> {
    s.map_values(|t: String| t@)
}

/// The bytes that candid produces for the argument pair `(nums, texts)`.
pub uninterp spec fn candid_of(nums: Seq<u64>, texts: Seq<Seq<char>>) -> Seq<u8>;

/// Relies on `candid::encode_args`: the candid message for the pair
/// `(nums, texts)`. The serializer fails only on empty or recursive types,
/// and a pair of integer and text vectors is neither.
#[verifier::external_body]
pub(crate) fn encode_fields(nums: Vec<u64>, texts: Vec<String>) -> (r: Option<Vec<u8>>)
    ensures
        r is Some,
        r is Some ==> r->0@ == candid_of(nums@, texts_view(texts@)),
{
    candid::encode_args((nums, texts)).ok()
}

/// Relies on `candid::decode_args`: a message that candid wrote for a pair of
/// these types reads back as that same pair.
#[verifier::external_body]
pub(crate) fn decode_fields(bytes: &Vec<u8>) -> (r: Option<(Vec<u64>, Vec<String>)>)
    ensures
        forall|nums: Seq<u64>, texts: Seq<Seq<char>>|
            #[trigger] candid_of(nums, texts) == bytes@ ==> {
                &&& r is Some
                &&& (r->0).0@ == nums
                &&& texts_view((r->0).1@) == texts
            },
{
    candid::decode_args::<(Vec<u64>, Vec<String>)>(bytes.as_slice()).ok()
}

} // verus!
