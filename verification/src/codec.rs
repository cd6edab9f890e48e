use vstd::prelude::*;
use crate::data::Data;
use crate::entries::{collected, distinct_paths, model};

verus! {

/// The error type of the `bincode` crate.
#[verifier::external_type_specification]
#[verifier::external_body]
pub struct ExErrorKind(bincode::ErrorKind);

/// The bytes that `bincode` writes for a list of paths with their weights, in
/// its fixed-width little-endian form.
pub uninterp spec fn bincode_encoded(pairs: Seq<(Seq<char>, u64)>) -> Seq<u8>;

/// The list of paths with their weights that `bincode` reads from the front
/// of `bytes`; `None` where it reads none.
pub uninterp spec fn bincode_decoded(bytes: Seq<u8>) -> Option<Seq<(Seq<char>, u64)>>;

/// Why bytes could not be turned into an index, or an index into bytes.
#[derive(Clone, Copy, Debug, PartialEq, Eq, Structural)]
pub enum CodecError {
    /// The bytes do not hold a list of paths and weights.
    Decode,
    /// The index could not be written out.
    Encode,
}

impl CodecError {
    /// A sentence for the user.
    pub fn message(&self) -> (text: &'static str)
        ensures
            text@ == match self {
                CodecError::Decode => "the stored index cannot be read"@,
                CodecError::Encode => "the index cannot be written"@,
            },
    {
        match self {
            CodecError::Decode => "the stored index cannot be read",
            CodecError::Encode => "the index cannot be written",
        }
    }
}

/// `bincode::serialize_into` with a vector as the writer: the call succeeds,
/// and the encoding of `pairs` has been added at the end of `out`. The crate
/// sets no limit on the size, a list always gives its length, and every other
/// failure would come from the writer, which a vector never refuses.
#[verifier::external_body]
pub(crate) fn encode_pairs(out: &mut Vec<u8>, pairs: &Vec<(String, u64)>) -> (r: Result<
    (),
    Box<bincode::ErrorKind>,
>)
    ensures
        r is Ok,
        final(out)@ == old(out)@ + bincode_encoded(model(pairs@)),
{
    bincode::serialize_into(out, pairs)
}

/// `bincode::deserialize`: the result is the crate's reading of `bytes`, and
/// bytes that are the encoding of a list are read as that list.
#[verifier::external_body]
pub(crate) fn decode_pairs(bytes: &[u8]) -> (r: Result<Vec<(String, u64)>, Box<bincode::ErrorKind>>)
    ensures
        match r {
            Ok(pairs) => bincode_decoded(bytes@) == Some(model(pairs@)),
            Err(_) => bincode_decoded(bytes@) is None,
        },
        forall|pairs: Seq<(Seq<char>, u64)>|
            bytes@ == #[trigger] bincode_encoded(pairs) ==> r is Ok && model(r->Ok_0@) == pairs,
{
    bincode::deserialize(bytes)
}

/// Reads the index from a stored stream. A stream that cannot be read gives
/// the empty index.
pub fn load(stream: &[u8]) -> (index: Data)
    ensures
        index@ == match bincode_decoded(stream@) {
            Some(pairs) => collected(pairs),
            None => Seq::empty(),
        },
        forall|saved: Seq<(Seq<char>, u64)>|
            distinct_paths(saved) && stream@ == #[trigger] bincode_encoded(saved) ==> index@
                == saved,
{
    match Data::deserialize_from(stream) {
        Ok(index) => index,
        Err(_) => Data::new(),
    }
}

/// Writes the index to a stream in place of whatever the stream held. Writing
/// to a vector always succeeds.
pub fn save(index: &Data, stream: &mut Vec<u8>) -> (r: Result<(), CodecError>)
    ensures
        r is Ok,
        final(stream)@ == bincode_encoded(index@),
        distinct_paths(index@),
{
    stream.clear();
    index.serialize_into(stream)
}

/// Saves the index and loads what was saved: the index comes back entry for
/// entry.
pub fn reload(index: &Data) -> (r: Result<Data, CodecError>)
    ensures
        r is Ok,
        r->Ok_0@ == index@,
{
    let mut stream: Vec<u8> = Vec::new();
    match save(index, &mut stream) {
        Ok(_) => Ok(load(stream.as_slice())),
        Err(e) => Err(e),
    }
}

} // verus!
