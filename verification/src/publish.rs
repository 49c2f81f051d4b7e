//! Streamed meta/data-pair framing: repeated `[4-byte little-endian length]
//! [metadata]` `[4-byte little-endian length][data]` pairs, terminated by a
//! zero-length metadata frame. Metadata must be JSON and is capped at 4 MiB;
//! data is opaque and capped at 32 MiB; a declared length over either cap
//! rejects the whole submission before the frame's bytes are buffered.

use vstd::prelude::*;
use vstd::slice::slice_subrange;
use crate::bytes::{le32_val, push_all, read_le32};
use crate::error::PublishError;

verus! {

/// Cap on one metadata frame: 4 MiB.
pub const META_FRAME_MAX: u32 = 0x400000;

/// Cap on one data frame: 32 MiB.
pub const DATA_FRAME_MAX: u32 = 0x2000000;

/// One item of a publish submission: structured metadata (a JSON document,
/// kept as its bytes) plus an opaque data blob.
#[derive(Debug)]
pub struct PublishItem {
    pub meta: Vec<u8>,
    pub data: Vec<u8>,
}

/// The mathematical model of a publish item.
pub struct PublishItemModel {
    pub meta: Seq<u8>,
    pub data: Seq<u8>,
}

impl View for PublishItem {
    type V = PublishItemModel;

    open spec fn view(&self) -> PublishItemModel {
        PublishItemModel { meta: self.meta@, data: self.data@ }
    }
}

/// Whether a byte sequence holds one well-formed JSON document.
pub uninterp spec fn json_wf(bytes: Seq<u8>) -> bool;

/// Relies on `serde_json::from_slice` parsing to `serde_json::Value`:
/// whether the bytes form one JSON document is a function of the bytes
/// alone.
#[verifier::external_body]
pub fn json_is_valid(bytes: &[u8]) -> (r: bool)
    ensures
        r == json_wf(bytes@),
{
    serde_json::from_slice::<serde_json::Value>(bytes).is_ok()
}

/// Outcome of parsing a publish stream from a position.
pub enum PublishParse {
    /// The stream so far ends mid-frame; more bytes are needed.
    Incomplete,
    /// A metadata frame declared more than the metadata cap.
    TooLargeMeta,
    /// A data frame declared more than the data cap.
    TooLargeData,
    /// A metadata frame is not a JSON document.
    BadMeta,
    /// The terminating sentinel was reached; these items precede it.
    Done(Seq<PublishItemModel>),
}

/// Parses meta/data pairs from `pos` until the zero-length metadata
/// sentinel. Each declared length is checked against its cap as soon as the
/// length word is read — an oversized declaration rejects the stream even
/// when none of the declared bytes have arrived.
pub open spec fn spec_publish_parse(buf: Seq<u8>, pos: int) -> PublishParse
    decreases buf.len() - pos,
{
    if pos < 0 || pos + 4 > buf.len() {
        PublishParse::Incomplete
    } else {
        let meta_len = le32_val(buf[pos], buf[pos + 1], buf[pos + 2], buf[pos + 3]);
        if meta_len > META_FRAME_MAX {
            PublishParse::TooLargeMeta
        } else if meta_len == 0 {
            PublishParse::Done(Seq::empty())
        } else if pos + 4 + meta_len > buf.len() {
            PublishParse::Incomplete
        } else {
            let meta = buf.subrange(pos + 4, pos + 4 + meta_len);
            if !json_wf(meta) {
                PublishParse::BadMeta
            } else {
                let dpos = pos + 4 + meta_len;
                if dpos + 4 > buf.len() {
                    PublishParse::Incomplete
                } else {
                    let data_len = le32_val(buf[dpos], buf[dpos + 1], buf[dpos + 2], buf[dpos + 3]);
                    if data_len > DATA_FRAME_MAX {
                        PublishParse::TooLargeData
                    } else if dpos + 4 + data_len > buf.len() {
                        PublishParse::Incomplete
                    } else {
                        let item = PublishItemModel {
                            meta,
                            data: buf.subrange(dpos + 4, dpos + 4 + data_len),
                        };
                        match spec_publish_parse(buf, dpos + 4 + data_len) {
                            PublishParse::Done(items) => PublishParse::Done(seq![item] + items),
                            other => other,
                        }
                    }
                }
            }
        }
    }
}

/// A rejection is decided by the bytes already received: a stream refused
/// for an oversized declared length or non-JSON metadata stays refused
/// however many bytes arrive after it. In particular an oversized data
/// declaration rejects the submission before any of the declared bytes are
/// buffered.
pub proof fn lemma_rejection_needs_no_more_bytes(buf: Seq<u8>, ext: Seq<u8>, pos: int)
    requires
        0 <= pos,
        spec_publish_parse(buf, pos) == PublishParse::TooLargeMeta || spec_publish_parse(buf, pos)
            == PublishParse::TooLargeData || spec_publish_parse(buf, pos) == PublishParse::BadMeta,
    ensures
        spec_publish_parse(buf + ext, pos) == spec_publish_parse(buf, pos),
    decreases buf.len() - pos,
{
    let big = buf + ext;
    assert(pos + 4 <= buf.len());
    assert(big[pos] == buf[pos] && big[pos + 1] == buf[pos + 1] && big[pos + 2] == buf[pos + 2]
        && big[pos + 3] == buf[pos + 3]);
    let meta_len = le32_val(buf[pos], buf[pos + 1], buf[pos + 2], buf[pos + 3]);
    if meta_len > META_FRAME_MAX {
    } else {
        assert(meta_len != 0);
        assert(pos + 4 + meta_len <= buf.len());
        let meta = buf.subrange(pos + 4, pos + 4 + meta_len);
        assert(big.subrange(pos + 4, pos + 4 + meta_len) =~= meta);
        if !json_wf(meta) {
        } else {
            let dpos = pos + 4 + meta_len;
            assert(dpos + 4 <= buf.len());
            assert(big[dpos] == buf[dpos] && big[dpos + 1] == buf[dpos + 1] && big[dpos + 2]
                == buf[dpos + 2] && big[dpos + 3] == buf[dpos + 3]);
            let data_len = le32_val(buf[dpos], buf[dpos + 1], buf[dpos + 2], buf[dpos + 3]);
            if data_len > DATA_FRAME_MAX {
            } else {
                assert(dpos + 4 + data_len <= buf.len());
                assert(big.subrange(dpos + 4, dpos + 4 + data_len) =~= buf.subrange(
                    dpos + 4,
                    dpos + 4 + data_len,
                ));
                lemma_rejection_needs_no_more_bytes(buf, ext, dpos + 4 + data_len);
            }
        }
    }
}

/// Decodes a fully received publish stream into its items.
///
/// The whole submission fails on the first malformation: an oversized
/// declared length (before the frame's bytes are consumed), metadata that is
/// not JSON, a stream that ends before its sentinel, or a stream whose
/// sentinel arrives with no item before it.
pub fn decode_publish_stream(buf: &[u8]) -> (r: Result<Vec<PublishItem>, PublishError>)
    ensures
        match spec_publish_parse(buf@, 0) {
            PublishParse::Incomplete => r == Err::<Vec<PublishItem>, PublishError>(
                PublishError::Truncated,
            ),
            PublishParse::TooLargeMeta => r == Err::<Vec<PublishItem>, PublishError>(
                PublishError::MetadataTooLarge,
            ),
            PublishParse::TooLargeData => r == Err::<Vec<PublishItem>, PublishError>(
                PublishError::DataTooLarge,
            ),
            PublishParse::BadMeta => r == Err::<Vec<PublishItem>, PublishError>(
                PublishError::MetadataNotJson,
            ),
            PublishParse::Done(items) => if items.len() == 0 {
                r == Err::<Vec<PublishItem>, PublishError>(PublishError::NothingToPublish)
            } else {
                r is Ok && r->Ok_0@.map_values(|it: PublishItem| it@) == items
            },
        },
{
    let n = buf.len();
    let mut pos: usize = 0;
    let mut acc: Vec<PublishItem> = Vec::new();
    loop
        invariant
            pos <= n,
            n == buf@.len(),
            (match spec_publish_parse(buf@, pos as int) {
                PublishParse::Incomplete => spec_publish_parse(buf@, 0)
                    == PublishParse::Incomplete,
                PublishParse::TooLargeMeta => spec_publish_parse(buf@, 0)
                    == PublishParse::TooLargeMeta,
                PublishParse::TooLargeData => spec_publish_parse(buf@, 0)
                    == PublishParse::TooLargeData,
                PublishParse::BadMeta => spec_publish_parse(buf@, 0) == PublishParse::BadMeta,
                PublishParse::Done(rest) => spec_publish_parse(buf@, 0) == PublishParse::Done(
                    acc@.map_values(|it: PublishItem| it@) + rest,
                ),
            }),
        decreases n - pos,
    {
        let ghost acc_views = acc@.map_values(|it: PublishItem| it@);
        if n - pos < 4 {
            return Err(PublishError::Truncated);
        }
        let meta_len_32 = read_le32(buf[pos], buf[pos + 1], buf[pos + 2], buf[pos + 3]);
        if meta_len_32 > META_FRAME_MAX {
            return Err(PublishError::MetadataTooLarge);
        }
        if meta_len_32 == 0 {
            proof {
                assert(spec_publish_parse(buf@, pos as int) == PublishParse::Done(
                    Seq::<PublishItemModel>::empty(),
                ));
                assert(acc_views + Seq::<PublishItemModel>::empty() =~= acc_views);
            }
            if acc.len() == 0 {
                return Err(PublishError::NothingToPublish);
            }
            return Ok(acc);
        }
        let meta_len = meta_len_32 as usize;
        if n - (pos + 4) < meta_len {
            return Err(PublishError::Truncated);
        }
        let mut meta: Vec<u8> = Vec::new();
        push_all(&mut meta, slice_subrange(buf, pos + 4, pos + 4 + meta_len));
        if !json_is_valid(meta.as_slice()) {
            return Err(PublishError::MetadataNotJson);
        }
        let dpos = pos + 4 + meta_len;
        if n - dpos < 4 {
            return Err(PublishError::Truncated);
        }
        let data_len_32 = read_le32(buf[dpos], buf[dpos + 1], buf[dpos + 2], buf[dpos + 3]);
        if data_len_32 > DATA_FRAME_MAX {
            return Err(PublishError::DataTooLarge);
        }
        let data_len = data_len_32 as usize;
        if n - (dpos + 4) < data_len {
            return Err(PublishError::Truncated);
        }
        let mut data: Vec<u8> = Vec::new();
        push_all(&mut data, slice_subrange(buf, dpos + 4, dpos + 4 + data_len));
        let ghost item_model = PublishItemModel {
            meta: buf@.subrange(pos as int + 4, pos as int + 4 + meta_len as int),
            data: buf@.subrange(dpos as int + 4, dpos as int + 4 + data_len as int),
        };
        let item = PublishItem { meta, data };
        proof {
            assert(item@ == item_model);
        }
        acc.push(item);
        pos = dpos + 4 + data_len;
        proof {
            assert(acc@.map_values(|it: PublishItem| it@) =~= acc_views.push(item_model));
            if let PublishParse::Done(rest) = spec_publish_parse(buf@, pos as int) {
                assert((acc_views.push(item_model)) + rest =~= acc_views + (seq![item_model]
                    + rest));
            }
        }
    }
}

} // verus!
