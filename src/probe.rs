//! The cheap first-bytes check that decides whether a flow speaks Zabbix.
use vstd::prelude::*;
use crate::header::{HeaderParse, MAGIC_LEN, is_magic, parse_header, spec_parse_header};

verus! {

#[derive(Clone, Copy, Debug, PartialEq, Eq, Structural)]
pub enum Direction {
    ToServer,
    ToClient,
}

#[derive(Clone, Copy, Debug, PartialEq, Eq, Structural)]
pub enum ProbeResult {
    Matched,
    NotMatched,
    NeedMoreData,
}

pub open spec fn spec_probe(b: Seq<u8>, max: u64) -> ProbeResult {
    if b.len() < MAGIC_LEN {
        ProbeResult::NeedMoreData
    } else if !is_magic(b) {
        ProbeResult::NotMatched
    } else {
        match spec_parse_header(b) {
            HeaderParse::Complete { header, .. } => if header.payload_length <= max {
                ProbeResult::Matched
            } else {
                ProbeResult::NotMatched
            },
            HeaderParse::NeedMoreData(_) => ProbeResult::NeedMoreData,
            HeaderParse::NotThisProtocol => ProbeResult::NotMatched,
        }
    }
}

/// Decides from a flow's first bytes, in either direction, whether it
/// carries this protocol. The declared length is only compared with `max`; nothing is allocated.
pub fn probe(b: &[u8], _direction: Direction, max: u64) -> (r: ProbeResult)
    ensures
        r == spec_probe(b@, max),
{
    if b.len() < MAGIC_LEN {
        return ProbeResult::NeedMoreData;
    }
    match parse_header(b) {
        HeaderParse::Complete { header, .. } => if header.payload_length <= max {
            ProbeResult::Matched
        } else {
            ProbeResult::NotMatched
        },
        HeaderParse::NeedMoreData(_) => ProbeResult::NeedMoreData,
        HeaderParse::NotThisProtocol => ProbeResult::NotMatched,
    }
}

} // verus!
