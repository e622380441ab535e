//! Slicing one complete frame off the front of a direction's buffer.
use vstd::prelude::*;
use vstd::slice::{slice_subrange, slice_to_vec};
use crate::header::{Header, HeaderParse, LARGE_HEADER_SIZE, parse_header, spec_parse_header};

verus! {

/// One complete frame: its header and exactly `payload_length` payload bytes.
pub struct Message {
    pub header: Header,
    pub payload: Vec<u8>,
}

/// A message as a mathematical value.
pub struct MessageView {
    pub header: Header,
    pub payload: Seq<u8>,
}

impl View for Message {
    type V = MessageView;

    open spec fn view(&self) -> MessageView {
        MessageView { header: self.header, payload: self.payload@ }
    }
}

/// What the front of a buffer holds.
pub enum Decoded {
    /// A whole frame, and the bytes it took (header and payload).
    Frame { message: Message, consumed: usize },
    /// The frame at the front is not complete yet.
    NeedMoreData,
    /// The front is not a frame of this protocol, or declares too long a payload.
    Malformed,
}

pub enum DecodedView {
    Frame { message: MessageView, consumed: nat },
    NeedMoreData,
    Malformed,
}

impl View for Decoded {
    type V = DecodedView;

    open spec fn view(&self) -> DecodedView {
        match self {
            Decoded::Frame { message, consumed } => DecodedView::Frame {
                message: message@,
                consumed: *consumed as nat,
            },
            Decoded::NeedMoreData => DecodedView::NeedMoreData,
            Decoded::Malformed => DecodedView::Malformed,
        }
    }
}

/// The frame decoder's answer on buffer `b` with payload limit `max`.
pub open spec fn spec_decode(b: Seq<u8>, max: u64) -> DecodedView {
    match spec_parse_header(b) {
        HeaderParse::NotThisProtocol => DecodedView::Malformed,
        HeaderParse::NeedMoreData(_) => DecodedView::NeedMoreData,
        HeaderParse::Complete { header, header_size } => {
            let total = header_size + header.payload_length;
            if header.payload_length > max {
                DecodedView::Malformed
            } else if b.len() < total {
                DecodedView::NeedMoreData
            } else {
                DecodedView::Frame {
                    message: MessageView {
                        header,
                        payload: b.subrange(header_size as int, total),
                    },
                    consumed: total as nat,
                }
            }
        },
    }
}

/// A frame always takes bytes, never more than are there; a buffer still
/// waiting for its frame is shorter than the largest header plus `max`.
pub proof fn lemma_decode_bounds(b: Seq<u8>, max: u64)
    ensures
        spec_decode(b, max) matches DecodedView::Frame { consumed, .. } ==> 0 < consumed <= b.len(),
        spec_decode(b, max) is NeedMoreData ==> b.len() < LARGE_HEADER_SIZE + max,
{
}

/// Bytes after a decided front do not change the decision: once the front
/// of a buffer is a frame or is malformed, more bytes behind it leave it so.
pub proof fn lemma_decode_prefix(b: Seq<u8>, more: Seq<u8>, max: u64)
    requires
        !(spec_decode(b, max) is NeedMoreData),
    ensures
        spec_decode(b + more, max) == spec_decode(b, max),
{
    let c = b + more;
    assert forall|i: int| 0 <= i < b.len() implies c[i] == b[i] by {}
    if let HeaderParse::Complete { header, header_size } = spec_parse_header(b) {
        let total = header_size + header.payload_length;
        if header.payload_length <= max && total <= b.len() {
            assert(c.subrange(header_size as int, total) =~= b.subrange(header_size as int, total));
        }
    }
}

/// Takes the frame at the front of `b`, if it is all there. Nothing sized by
/// the declared length is allocated before that length is checked against
/// `max` and found present in `b`.
pub fn decode_frame(b: &[u8], max: u64) -> (r: Decoded)
    ensures
        r@ == spec_decode(b@, max),
        r matches Decoded::Frame { message, consumed } ==> 0 < consumed <= b@.len()
            && message.payload@.len() == message.header.payload_length,
{
    match parse_header(b) {
        HeaderParse::NotThisProtocol => Decoded::Malformed,
        HeaderParse::NeedMoreData(_) => Decoded::NeedMoreData,
        HeaderParse::Complete { header, header_size } => {
            if header.payload_length > max {
                return Decoded::Malformed;
            }
            let avail = b.len() - header_size;
            if (avail as u64) < header.payload_length {
                return Decoded::NeedMoreData;
            }
            let end = header_size + header.payload_length as usize;
            let payload = slice_to_vec(slice_subrange(b, header_size, end));
            Decoded::Frame { message: Message { header, payload }, consumed: end }
        },
    }
}

} // verus!
