//! The fields a transaction contributes to a structured log record.
use vstd::prelude::*;
use vstd::slice::slice_subrange;
use crate::transaction::{ZabbixTransaction, TxView, spec_data, spec_flags};

verus! {

/// Payload bytes shown in a log record by default.
pub const DEFAULT_LOG_DATA_MAX: usize = 256;

/// The text that lossy UTF-8 decoding makes of some bytes.
pub uninterp spec fn utf8_lossy(b: Seq<u8>) -> Seq<char>;

/// Relies on `String::from_utf8_lossy`: invalid sequences become U+FFFD, and
/// the text depends on the bytes alone; no bytes give no text.
#[verifier::external_body]
fn decode_lossy(b: &[u8]) -> (r: String)
    ensures
        r@ == utf8_lossy(b@),
        b@.len() == 0 ==> r@.len() == 0,
{
    String::from_utf8_lossy(b).into_owned()
}

pub struct LogRecord {
    pub flags: u64,
    pub data: String,
}

/// At most `max` bytes from the front of `d`.
pub open spec fn prefix_within(d: Seq<u8>, max: usize) -> Seq<u8> {
    if d.len() < max {
        d
    } else {
        d.subrange(0, max as int)
    }
}

/// The payload bytes a log record shows: at most `max` from the front.
pub open spec fn logged_bytes(t: TxView, max: usize) -> Seq<u8> {
    prefix_within(spec_data(t), max)
}

/// At most `max` bytes from the front of `data`, decoded as lossy UTF-8.
pub fn log_data_prefix(data: &[u8], max: usize) -> (r: String)
    ensures
        r@ == utf8_lossy(prefix_within(data@, max)),
{
    let shown = if data.len() < max {
        data
    } else {
        slice_subrange(data, 0, max)
    };
    decode_lossy(shown)
}

/// The transaction's flags, and its payload (request first) cut to `max_data`
/// bytes and decoded as lossy UTF-8.
pub fn to_log_record(tx: &ZabbixTransaction, max_data: usize) -> (r: LogRecord)
    ensures
        r.flags == spec_flags(tx@) as u64,
        r.data@ == utf8_lossy(logged_bytes(tx@, max_data)),
{
    LogRecord { flags: tx.flags() as u64, data: log_data_prefix(tx.data(), max_data) }
}

} // verus!
