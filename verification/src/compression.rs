//! The zstd frame that carries a region's slot table and chunk bytes.
//!
//! Compression is the work of the `zstd` crate. This module gives what it
//! returns a name, so that contracts can speak of it, and states the one
//! thing the codec relies on: a frame that zstd wrote decodes to the bytes
//! it was written from.

use vstd::prelude::*;

verus! {

/// The error in which zstd reports a failure. Nothing is read from it.
#[verifier::external_type_specification]
#[verifier::external_body]
pub struct ExIoError(std::io::Error);

/// The frame that `zstd::stream::encode_all` returns for `data` at `level`,
/// or `None` where it returns an error.
pub uninterp spec fn zstd_encoded(data: Seq<u8>, level: i32) -> Option<Seq<u8>>;

/// The bytes that `zstd::stream::decode_all` returns for `frame`, or `None`
/// where it returns an error, as it does when `frame` is not made of whole
/// zstd frames.
pub uninterp spec fn zstd_decoded(frame: Seq<u8>) -> Option<Seq<u8>>;

/// Calls `zstd::stream::encode_all`, which compresses all of `data` into one
/// zstd frame at the given level; any level is taken, zstd brings it into
/// its range. The contract names the result and adds that zstd is lossless:
/// the frame it returned decodes to `data`.
#[verifier::external_body]
pub(crate) fn zstd_encode_all(data: &[u8], level: i32) -> (r: Result<Vec<u8>, std::io::Error>)
    ensures
        match r {
            Ok(frame) => zstd_encoded(data@, level) == Some(frame@) && zstd_decoded(frame@)
                == Some(data@),
            Err(_) => zstd_encoded(data@, level).is_none(),
        },
{
    zstd::stream::encode_all(data, level)
}

/// Calls `zstd::stream::decode_all`, which decompresses the zstd frames that
/// `frame` is made of and fails on anything else. The contract names the
/// result.
#[verifier::external_body]
pub(crate) fn zstd_decode_all(frame: &[u8]) -> (r: Result<Vec<u8>, std::io::Error>)
    ensures
        match r {
            Ok(data) => zstd_decoded(frame@) == Some(data@),
            Err(_) => zstd_decoded(frame@).is_none(),
        },
{
    zstd::stream::decode_all(frame)
}

} // verus!
