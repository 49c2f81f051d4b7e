//! Compression negotiation: a request-supplied content-encoding indicator
//! selects the codec, and decompression enforces a caller-supplied bound on
//! the expanded size. The identity path (no indicator) returns the payload
//! unchanged. Codecs dispatch on the negotiated tag, so further codecs are
//! addable without touching call sites.

use vstd::prelude::*;
use crate::bytes::{push_all, slices_eq};
use crate::error::CodecError;

verus! {

/// The codec a submission's payload is compressed with, as negotiated from
/// its content-encoding indicator. The brotli variant carries the
/// request-supplied expected size of the decompressed payload, which bounds
/// how far decompression may expand.
#[derive(Clone, Copy, Debug, PartialEq, Eq, Structural)]
pub enum ContentEncoding {
    Identity,
    Brotli { buffer_size: usize },
}

/// What brotli decompression yields on a byte sequence: `None` when the
/// bytes are not a well-formed brotli stream.
pub uninterp spec fn brotli_inflate(data: Seq<u8>) -> Option<Seq<u8>>;

/// Relies on `brotli::Decompressor` (crate `brotli`), which reads a whole
/// in-memory compressed slice and yields the decompressed bytes: the result,
/// and whether decompression succeeds, are functions of the compressed bytes
/// alone — the buffer size tunes internal chunking only (the crate replaces
/// a zero size with its default). Fails exactly on inputs that are not a
/// well-formed brotli stream.
#[verifier::external_body]
fn brotli_decompress(data: &[u8], buffer_size: usize) -> (r: Result<Vec<u8>, ()>)
    ensures
        r is Ok <==> brotli_inflate(data@) is Some,
        r is Ok ==> r->Ok_0@ == brotli_inflate(data@)->Some_0,
{
    let mut reader = brotli::Decompressor::new(data, buffer_size);
    let mut out = Vec::new();
    match std::io::Read::read_to_end(&mut reader, &mut out) {
        Ok(_) => Ok(out),
        Err(_) => Err(()),
    }
}

/// The bytes of the one codec indicator recognized today.
pub open spec fn spec_brotli_tag() -> Seq<u8> {
    seq![98u8, 114u8, 111u8, 116u8, 108u8, 105u8]
}

/// Selects the codec named by an optional content-encoding indicator. No
/// indicator means the payload is uncompressed; the recognized indicator is
/// `brotli`, which takes the request's expected decompressed size; anything
/// else is refused before any byte of the payload is consumed.
pub fn negotiate_encoding(indicator: Option<&[u8]>, buffer_size: usize) -> (r: Result<
    ContentEncoding,
    CodecError,
>)
    ensures
        match indicator {
            None => r == Ok::<ContentEncoding, CodecError>(ContentEncoding::Identity),
            Some(tag) => if tag@ == spec_brotli_tag() {
                r == Ok::<ContentEncoding, CodecError>(
                    ContentEncoding::Brotli { buffer_size },
                )
            } else {
                r == Err::<ContentEncoding, CodecError>(CodecError::UnknownEncoding)
            },
        },
{
    match indicator {
        None => Ok(ContentEncoding::Identity),
        Some(tag) => {
            let expected: [u8; 6] = [98, 114, 111, 116, 108, 105];
            proof {
                assert(expected@ =~= spec_brotli_tag());
            }
            if slices_eq(tag, expected.as_slice()) {
                Ok(ContentEncoding::Brotli { buffer_size })
            } else {
                Err(CodecError::UnknownEncoding)
            }
        },
    }
}

/// The decompressed payload an encoding yields: the identity path returns
/// the payload unchanged; the brotli path decompresses and refuses an
/// expansion beyond the negotiated expected size.
pub open spec fn spec_decompress(enc: ContentEncoding, payload: Seq<u8>) -> Result<
    Seq<u8>,
    CodecError,
> {
    match enc {
        ContentEncoding::Identity => Ok(payload),
        ContentEncoding::Brotli { buffer_size } => match brotli_inflate(payload) {
            None => Err(CodecError::CorruptStream),
            Some(out) => if out.len() > buffer_size {
                Err(CodecError::ExpandedTooLarge)
            } else {
                Ok(out)
            },
        },
    }
}

/// Applies the negotiated codec to one payload.
pub fn decompress_payload(enc: &ContentEncoding, payload: &[u8]) -> (r: Result<Vec<u8>, CodecError>)
    ensures
        match spec_decompress(*enc, payload@) {
            Ok(out) => r is Ok && r->Ok_0@ == out,
            Err(e) => r == Err::<Vec<u8>, CodecError>(e),
        },
{
    match enc {
        ContentEncoding::Identity => {
            let mut out: Vec<u8> = Vec::new();
            push_all(&mut out, payload);
            Ok(out)
        },
        ContentEncoding::Brotli { buffer_size } => {
            match brotli_decompress(payload, *buffer_size) {
                Err(_) => Err(CodecError::CorruptStream),
                Ok(out) => {
                    if out.len() > *buffer_size {
                        Err(CodecError::ExpandedTooLarge)
                    } else {
                        Ok(out)
                    }
                },
            }
        },
    }
}

} // verus!
