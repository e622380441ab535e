//! Transactions: a request, a response, or both, paired in arrival order.
use vstd::prelude::*;
use crate::frame::{Message, MessageView};

verus! {

pub struct ZabbixTransaction {
    pub id: u64,
    pub request: Option<Message>,
    pub response: Option<Message>,
    pub complete: bool,
}

pub struct TxView {
    pub id: u64,
    pub request: Option<MessageView>,
    pub response: Option<MessageView>,
    pub complete: bool,
}

pub open spec fn opt_view(m: Option<Message>) -> Option<MessageView> {
    match m {
        Some(m) => Some(m@),
        None => None,
    }
}

impl View for ZabbixTransaction {
    type V = TxView;

    open spec fn view(&self) -> TxView {
        TxView {
            id: self.id,
            request: opt_view(self.request),
            response: opt_view(self.response),
            complete: self.complete,
        }
    }
}

#[derive(Clone, Copy, Debug, PartialEq, Eq, Structural)]
pub enum Progress {
    RequestOnly,
    ResponseOnly,
    Both,
}

/// The message whose fields a transaction exposes: the request when there is
/// one, else the response.
pub open spec fn shown_message(t: TxView) -> Option<MessageView> {
    if t.request is Some {
        t.request
    } else {
        t.response
    }
}

pub open spec fn spec_flags(t: TxView) -> u8 {
    match shown_message(t) {
        Some(m) => m.header.flags,
        None => 0,
    }
}

pub open spec fn spec_data(t: TxView) -> Seq<u8> {
    match shown_message(t) {
        Some(m) => m.payload,
        None => Seq::empty(),
    }
}

impl ZabbixTransaction {
    /// Which directions this transaction holds a message for.
    pub fn get_progress(&self) -> (r: Progress)
        requires
            self.request is Some || self.response is Some,
        ensures
            r == (if self.request is Some && self.response is Some {
                Progress::Both
            } else if self.request is Some {
                Progress::RequestOnly
            } else {
                Progress::ResponseOnly
            }),
    {
        match (&self.request, &self.response) {
            (Some(_), Some(_)) => Progress::Both,
            (Some(_), None) => Progress::RequestOnly,
            _ => Progress::ResponseOnly,
        }
    }

    /// Header flags of the request, or of the response when there is no request.
    pub fn flags(&self) -> (r: u8)
        ensures
            r == spec_flags(self@),
    {
        match &self.request {
            Some(m) => m.header.flags,
            None => match &self.response {
                Some(m) => m.header.flags,
                None => 0,
            },
        }
    }

    /// Payload of the request, or of the response when there is no request.
    pub fn data(&self) -> (r: &[u8])
        ensures
            r@ == spec_data(self@),
    {
        match &self.request {
            Some(m) => m.payload.as_slice(),
            None => match &self.response {
                Some(m) => m.payload.as_slice(),
                None => &[],
            },
        }
    }
}

} // verus!
