//! Per-flow state: the two reassembly buffers and the transaction sequence,
//! with the incremental `parse` entry point.
use vstd::prelude::*;
use vstd::slice::slice_subrange;
use crate::frame::{Decoded, DecodedView, MessageView, Message, decode_frame, lemma_decode_bounds, spec_decode};
use crate::header::LARGE_HEADER_SIZE;
use crate::probe::Direction;
use crate::transaction::{TxView, ZabbixTransaction};

verus! {

/// Largest payload accepted by default (16 MiB).
pub const DEFAULT_MAX_PAYLOAD: u64 = 0x100_0000;

/// Most transactions kept per flow by default.
pub const DEFAULT_MAX_TRANSACTIONS: u64 = 0x10_0000;

/// Read-only settings shared by every flow.
#[derive(Clone, Copy, Debug, PartialEq, Eq, Structural)]
pub struct ZabbixConfig {
    /// Frames declaring a longer payload make the flow malformed.
    pub max_payload: u64,
    /// A frame that would open a transaction beyond this count makes the flow malformed.
    pub max_transactions: u64,
}

impl Default for ZabbixConfig {
    fn default() -> (r: ZabbixConfig)
        ensures
            r.max_payload == DEFAULT_MAX_PAYLOAD,
            r.max_transactions == DEFAULT_MAX_TRANSACTIONS,
    {
        ZabbixConfig { max_payload: DEFAULT_MAX_PAYLOAD, max_transactions: DEFAULT_MAX_TRANSACTIONS }
    }
}

#[derive(Clone, Copy, Debug, PartialEq, Eq, Structural)]
pub enum ParseError {
    /// The flow presented an undecodable header, an oversized payload length,
    /// or more transactions than allowed; it is no longer decoded.
    Malformed,
}

#[derive(Debug)]
pub struct ParseResult {
    /// Bytes of the chunk taken: all of them unless `error` is set.
    pub consumed: usize,
    pub error: Option<ParseError>,
}

pub struct ZabbixState {
    config: ZabbixConfig,
    pending_to_server: Vec<u8>,
    pending_to_client: Vec<u8>,
    transactions: Vec<ZabbixTransaction>,
    n_complete: usize,
    malformed: bool,
}

/// A flow's state as a mathematical value.
pub struct FlowView {
    pub config: ZabbixConfig,
    pub pending_to_server: Seq<u8>,
    pub pending_to_client: Seq<u8>,
    pub txs: Seq<TxView>,
    /// Transactions before this index are complete, the others open.
    pub n_complete: nat,
    pub malformed: bool,
}

impl FlowView {
    pub open spec fn fresh(config: ZabbixConfig) -> FlowView {
        FlowView {
            config,
            pending_to_server: Seq::empty(),
            pending_to_client: Seq::empty(),
            txs: Seq::empty(),
            n_complete: 0,
            malformed: false,
        }
    }

    pub open spec fn pending(self, d: Direction) -> Seq<u8> {
        match d {
            Direction::ToServer => self.pending_to_server,
            Direction::ToClient => self.pending_to_client,
        }
    }

    pub open spec fn with_pending(self, d: Direction, p: Seq<u8>) -> FlowView {
        match d {
            Direction::ToServer => FlowView { pending_to_server: p, ..self },
            Direction::ToClient => FlowView { pending_to_client: p, ..self },
        }
    }

    pub open spec fn into_malformed(self) -> FlowView {
        FlowView {
            pending_to_server: Seq::empty(),
            pending_to_client: Seq::empty(),
            malformed: true,
            ..self
        }
    }

    /// A message in direction `d` opens a new transaction.
    pub open spec fn needs_new_tx(self, d: Direction) -> bool {
        d == Direction::ToServer || self.n_complete >= self.txs.len()
    }

    pub open spec fn has_room(self, d: Direction) -> bool {
        !self.needs_new_tx(d) || self.txs.len() < self.config.max_transactions
    }

    /// A request opens a transaction; a response completes the oldest open
    /// one, or stands alone when none is open.
    pub open spec fn apply(self, d: Direction, m: MessageView) -> FlowView {
        let id = (self.txs.len() + 1) as u64;
        if d == Direction::ToServer {
            FlowView {
                txs: self.txs.push(TxView { id, request: Some(m), response: None, complete: false }),
                ..self
            }
        } else if self.n_complete < self.txs.len() {
            let t = self.txs[self.n_complete as int];
            FlowView {
                txs: self.txs.update(
                    self.n_complete as int,
                    TxView { response: Some(m), complete: true, ..t },
                ),
                n_complete: self.n_complete + 1,
                ..self
            }
        } else {
            FlowView {
                txs: self.txs.push(TxView { id, request: None, response: Some(m), complete: true }),
                n_complete: self.n_complete + 1,
                ..self
            }
        }
    }

    /// Every open transaction marked complete.
    pub open spec fn finalized(self) -> FlowView {
        FlowView {
            txs: Seq::new(self.txs.len(), |i: int| TxView { complete: true, ..self.txs[i] }),
            n_complete: self.txs.len(),
            ..self
        }
    }

    pub open spec fn wf(self) -> bool {
        &&& self.n_complete <= self.txs.len()
        &&& self.txs.len() <= self.config.max_transactions
        &&& forall|i: int| 0 <= i < self.txs.len() ==> #[trigger] self.txs[i].id == i + 1
        &&& forall|i: int| 0 <= i < self.txs.len() ==> (#[trigger] self.txs[i].complete <==> i < self.n_complete)
        &&& forall|i: int| 0 <= i < self.txs.len() ==> (#[trigger] self.txs[i]).request is Some || self.txs[i].response is Some
        &&& forall|i: int| 0 <= i < self.txs.len() ==> (#[trigger] self.txs[i]).response is Some ==> self.txs[i].complete
        &&& self.pending_to_server.len() < LARGE_HEADER_SIZE + self.config.max_payload
        &&& self.pending_to_client.len() < LARGE_HEADER_SIZE + self.config.max_payload
        &&& self.malformed ==> self.pending_to_server.len() == 0 && self.pending_to_client.len() == 0
    }
}

/// The state after draining every complete frame off the front of `b`, which
/// stands in direction `d`'s buffer.
pub open spec fn feed_buf(s: FlowView, d: Direction, b: Seq<u8>) -> FlowView
    decreases b.len(),
{
    match spec_decode(b, s.config.max_payload) {
        DecodedView::NeedMoreData => s.with_pending(d, b),
        DecodedView::Malformed => s.into_malformed(),
        DecodedView::Frame { message, consumed } => if !s.has_room(d) {
            s.into_malformed()
        } else if 0 < consumed <= b.len() {
            feed_buf(s.apply(d, message), d, b.subrange(consumed as int, b.len() as int))
        } else {
            s
        },
    }
}

/// How many bytes at the front of `b` went into frames before draining stopped.
pub open spec fn framed_len(s: FlowView, d: Direction, b: Seq<u8>) -> nat
    decreases b.len(),
{
    match spec_decode(b, s.config.max_payload) {
        DecodedView::Frame { message, consumed } => if s.has_room(d) && 0 < consumed <= b.len() {
            consumed + framed_len(s.apply(d, message), d, b.subrange(consumed as int, b.len() as int))
        } else {
            0
        },
        _ => 0,
    }
}

/// The state after chunk `bytes` arrives in direction `d`.
pub open spec fn feed(s: FlowView, d: Direction, bytes: Seq<u8>) -> FlowView {
    if s.malformed {
        s
    } else {
        feed_buf(s.with_pending(d, Seq::empty()), d, s.pending(d) + bytes)
    }
}

/// Bytes of chunk `bytes` that `parse` reports as consumed.
pub open spec fn feed_consumed(s: FlowView, d: Direction, bytes: Seq<u8>) -> nat {
    if s.malformed {
        0
    } else if !feed(s, d, bytes).malformed {
        bytes.len()
    } else {
        let k = framed_len(s.with_pending(d, Seq::empty()), d, s.pending(d) + bytes);
        if k >= s.pending(d).len() {
            (k - s.pending(d).len()) as nat
        } else {
            0
        }
    }
}

impl View for ZabbixState {
    type V = FlowView;

    closed spec fn view(&self) -> FlowView {
        FlowView {
            config: self.config,
            pending_to_server: self.pending_to_server@,
            pending_to_client: self.pending_to_client@,
            txs: self.transactions@.map_values(|t: ZabbixTransaction| t@),
            n_complete: self.n_complete as nat,
            malformed: self.malformed,
        }
    }
}


impl ZabbixState {
    pub closed spec fn wf(&self) -> bool {
        self@.wf()
    }

    /// A new flow: empty buffers, no transactions, first id 1.
    pub fn new(config: ZabbixConfig) -> (r: ZabbixState)
        ensures
            r.wf(),
            r@ == FlowView::fresh(config),
    {
        let r = ZabbixState {
            config,
            pending_to_server: Vec::new(),
            pending_to_client: Vec::new(),
            transactions: Vec::new(),
            n_complete: 0,
            malformed: false,
        };
        assert(r@.txs =~= Seq::<TxView>::empty());
        r
    }

    pub fn config(&self) -> (r: ZabbixConfig)
        ensures
            r == self@.config,
    {
        self.config
    }

    /// The flow stopped being decoded after a malformed frame.
    pub fn is_malformed(&self) -> (r: bool)
        ensures
            r == self@.malformed,
    {
        self.malformed
    }

    /// Bytes held back in direction `d` for a frame not yet complete.
    pub fn pending_len(&self, d: Direction) -> (r: usize)
        ensures
            r == self@.pending(d).len(),
    {
        match d {
            Direction::ToServer => self.pending_to_server.len(),
            Direction::ToClient => self.pending_to_client.len(),
        }
    }

    pub fn transaction_count(&self) -> (r: u64)
        requires
            self.wf(),
        ensures
            r == self@.txs.len(),
    {
        self.transactions.len() as u64
    }

    /// The transaction at `index` (its id is `index + 1`), if there is one.
    pub fn get_transaction(&self, index: usize) -> (r: Option<&ZabbixTransaction>)
        requires
            self.wf(),
        ensures
            match r {
                Some(t) => {
                    &&& index < self@.txs.len()
                    &&& t@ == self@.txs[index as int]
                    &&& t.id == index + 1
                    &&& t.request is Some || t.response is Some
                },
                None => index >= self@.txs.len(),
            },
    {
        if index < self.transactions.len() {
            let ghost t = self@.txs[index as int];
            assert(self.transactions@[index as int]@ == t);
            assert(t.id == index + 1);
            assert(t.request is Some || t.response is Some);
            Some(&self.transactions[index])
        } else {
            None
        }
    }

    fn take_pending(&mut self, d: Direction) -> (r: Vec<u8>)
        ensures
            r@ == old(self)@.pending(d),
            final(self)@ == old(self)@.with_pending(d, Seq::empty()),
            final(self).transactions == old(self).transactions,
    {
        let mut r = Vec::new();
        match d {
            Direction::ToServer => std::mem::swap(&mut r, &mut self.pending_to_server),
            Direction::ToClient => std::mem::swap(&mut r, &mut self.pending_to_client),
        }
        r
    }

    fn set_pending(&mut self, d: Direction, p: Vec<u8>)
        ensures
            final(self)@ == old(self)@.with_pending(d, p@),
            final(self).transactions == old(self).transactions,
    {
        match d {
            Direction::ToServer => self.pending_to_server = p,
            Direction::ToClient => self.pending_to_client = p,
        }
    }

    fn mark_malformed(&mut self)
        ensures
            final(self)@ == old(self)@.into_malformed(),
            final(self).transactions == old(self).transactions,
    {
        self.malformed = true;
        self.pending_to_server = Vec::new();
        self.pending_to_client = Vec::new();
    }

    fn has_room(&self, d: Direction) -> (r: bool)
        requires
            self.wf(),
        ensures
            r == self@.has_room(d),
    {
        let n = self.transactions.len();
        let opens = match d {
            Direction::ToServer => true,
            Direction::ToClient => self.n_complete >= n,
        };
        !opens || (n as u64) < self.config.max_transactions
    }

    /// Hands one complete message to the transaction sequence.
    fn apply_message(&mut self, d: Direction, m: Message)
        requires
            old(self).wf(),
            old(self)@.has_room(d),
        ensures
            final(self).wf(),
            final(self)@ == old(self)@.apply(d, m@),
    {
        let ghost s0 = self@;
        let n = self.transactions.len();
        match d {
            Direction::ToServer => {
                let id = n as u64 + 1;
                self.transactions.push(
                    ZabbixTransaction { id, request: Some(m), response: None, complete: false },
                );
            },
            Direction::ToClient => {
                if self.n_complete < n {
                    let i = self.n_complete;
                    let mut t = self.transactions.remove(i);
                    t.response = Some(m);
                    t.complete = true;
                    self.transactions.insert(i, t);
                    self.n_complete = i + 1;
                } else {
                    let id = n as u64 + 1;
                    self.transactions.push(
                        ZabbixTransaction { id, request: None, response: Some(m), complete: true },
                    );
                    self.n_complete = self.transactions.len();
                }
            },
        }
        assert(self@.txs =~= s0.apply(d, m@).txs);
    }

    /// Appends `bytes` to direction `d`'s buffer and drains every complete
    /// frame from it into transactions. On a malformed frame the flow stops
    /// being decoded; transactions already made stay.
    pub fn parse(&mut self, d: Direction, bytes: &[u8]) -> (r: ParseResult)
        requires
            old(self).wf(),
        ensures
            final(self).wf(),
            final(self)@ == feed(old(self)@, d, bytes@),
            r.consumed == feed_consumed(old(self)@, d, bytes@),
            r.error == (if final(self)@.malformed {
                Some(ParseError::Malformed)
            } else {
                None::<ParseError>
            }),
    {
        if self.malformed {
            return ParseResult { consumed: 0, error: Some(ParseError::Malformed) };
        }
        let ghost s0 = self@;
        let mut buf = self.take_pending(d);
        let prior = buf.len();
        buf.extend_from_slice(bytes);
        let ghost full = buf@;
        let ghost start = self@;
        assert(full == s0.pending(d) + bytes@);
        assert(full.subrange(0, full.len() as int) =~= full);
        let mut pos: usize = 0;
        loop
            invariant
                self.wf(),
                s0 == old(self)@,
                !s0.malformed,
                !self@.malformed,
                self@.config == s0.config,
                start == s0.with_pending(d, Seq::empty()),
                full == s0.pending(d) + bytes@,
                prior == s0.pending(d).len(),
                buf@ == full,
                pos <= buf.len(),
                self@.pending(d) == Seq::<u8>::empty(),
                feed_buf(start, d, full) == feed_buf(self@, d, full.subrange(pos as int, full.len() as int)),
                framed_len(start, d, full) == pos + framed_len(self@, d, full.subrange(pos as int, full.len() as int)),
            decreases buf.len() - pos,
        {
            let ghost rest = full.subrange(pos as int, full.len() as int);
            let slice = slice_subrange(buf.as_slice(), pos, buf.len());
            proof {
                lemma_decode_bounds(rest, self@.config.max_payload);
            }
            match decode_frame(slice, self.config.max_payload) {
                Decoded::NeedMoreData => {
                    let tail = buf.split_off(pos);
                    assert(tail@ == rest);
                    assert(spec_decode(rest, self@.config.max_payload) is NeedMoreData);
                    assert(feed_buf(self@, d, rest) == self@.with_pending(d, rest));
                    self.set_pending(d, tail);
                    return ParseResult { consumed: bytes.len(), error: None };
                },
                Decoded::Malformed => {
                    self.mark_malformed();
                    let consumed = if pos > prior {
                        pos - prior
                    } else {
                        0
                    };
                    return ParseResult { consumed, error: Some(ParseError::Malformed) };
                },
                Decoded::Frame { message, consumed } => {
                    if !self.has_room(d) {
                        self.mark_malformed();
                        let c = if pos > prior {
                            pos - prior
                        } else {
                            0
                        };
                        return ParseResult { consumed: c, error: Some(ParseError::Malformed) };
                    }
                    self.apply_message(d, message);
                    assert(rest.subrange(consumed as int, rest.len() as int) =~= full.subrange(
                        pos + consumed,
                        full.len() as int,
                    ));
                    pos = pos + consumed;
                },
            }
        }
    }

    /// Flow teardown: every open transaction becomes complete, keeping what
    /// it holds, and stays enumerable.
    pub fn finalize(&mut self)
        requires
            old(self).wf(),
        ensures
            final(self).wf(),
            final(self)@ == old(self)@.finalized(),
    {
        let ghost s0 = self@;
        let n = self.transactions.len();
        let mut i = self.n_complete;
        assert forall|j: int| 0 <= j < n implies (#[trigger] self.transactions@[j])@ == (if j < i {
            TxView { complete: true, ..s0.txs[j] }
        } else {
            s0.txs[j]
        }) by {
            assert(s0.txs[j] == self.transactions@[j]@);
            assert(s0.txs[j].complete <==> j < s0.n_complete);
        }
        while i < n
            invariant
                s0.wf(),
                self.config == s0.config,
                self.malformed == s0.malformed,
                self.pending_to_server@ == s0.pending_to_server,
                self.pending_to_client@ == s0.pending_to_client,
                self.n_complete == s0.n_complete,
                s0.n_complete <= i <= n,
                n == s0.txs.len(),
                self.transactions@.len() == n,
                forall|j: int| 0 <= j < n ==> (#[trigger] self.transactions@[j])@ == (if j < i {
                    TxView { complete: true, ..s0.txs[j] }
                } else {
                    s0.txs[j]
                }),
            decreases n - i,
        {
            let mut t = self.transactions.remove(i);
            t.complete = true;
            self.transactions.insert(i, t);
            i = i + 1;
        }
        self.n_complete = n;
        assert(self@.txs =~= s0.finalized().txs);
    }
}

} // verus!
