use vstd::prelude::*;

verus! {

/// What `inflate::inflate_bytes_zlib` makes of a byte string: the inflated
/// bytes, or `None` where it reports an error.
pub uninterp spec fn zlib_inflated(compressed: Seq<u8>) -> Option<Seq<u8>>;

/// Calls `inflate::inflate_bytes_zlib`, dropping the text of its error.
///
/// Nothing is claimed of what the decoder accepts or produces: the contract
/// only gives its result the name `zlib_inflated`. That rests on the decoder
/// being a function of its input alone (a fresh decoder runs over the whole
/// input in each call and reads nothing else) and on its returning for every
/// input.
#[verifier::external_body]
pub(crate) fn inflate_zlib(compressed: &[u8]) -> (r: Option<Vec<u8>>)
    ensures
        match r {
            Some(v) => zlib_inflated(compressed@) == Some(v@),
            None => zlib_inflated(compressed@) is None,
        },
{
    inflate::inflate_bytes_zlib(compressed).ok()
}

} // verus!
