//! Properties of the decoder that relate several deliveries of bytes.
use vstd::prelude::*;
use crate::frame::{DecodedView, MessageView, lemma_decode_bounds, lemma_decode_prefix, spec_decode};
use crate::probe::Direction;
use crate::state::{FlowView, feed, feed_buf};
use crate::header::{HeaderParse, header_size_for, spec_parse_header};
use crate::transaction::{TxView, spec_data};

verus! {

/// The state after the chunks `cs` arrive one at a time in direction `d`.
pub open spec fn feed_chunks(s: FlowView, d: Direction, cs: Seq<Seq<u8>>) -> FlowView
    decreases cs.len(),
{
    if cs.len() == 0 {
        s
    } else {
        feed_chunks(feed(s, d, cs[0]), d, cs.drop_first())
    }
}

/// `f` is exactly one frame whose payload is within `max`.
pub open spec fn is_frame(f: Seq<u8>, max: u64) -> bool {
    spec_decode(f, max) matches DecodedView::Frame { consumed, .. } && consumed == f.len()
}

/// The message that a single frame decodes to.
pub open spec fn frame_message(f: Seq<u8>, max: u64) -> MessageView {
    match spec_decode(f, max) {
        DecodedView::Frame { message, .. } => message,
        _ => MessageView { header: crate::header::Header { flags: 0, payload_length: 0 }, payload: Seq::empty() },
    }
}

proof fn lemma_feed_buf_append(t: FlowView, d: Direction, buf: Seq<u8>, more: Seq<u8>)
    requires
        t.pending(d) == Seq::<u8>::empty(),
        !t.malformed,
    ensures
        feed(feed_buf(t, d, buf), d, more) == feed_buf(t, d, buf + more),
    decreases buf.len(),
{
    let max = t.config.max_payload;
    lemma_decode_bounds(buf, max);
    match spec_decode(buf, max) {
        DecodedView::NeedMoreData => {
            let s1 = t.with_pending(d, buf);
            assert(s1.with_pending(d, Seq::empty()) == t);
        },
        DecodedView::Malformed => {
            lemma_decode_prefix(buf, more, max);
        },
        DecodedView::Frame { message, consumed } => {
            lemma_decode_prefix(buf, more, max);
            if t.has_room(d) {
                let rest = buf.subrange(consumed as int, buf.len() as int);
                let all = buf + more;
                assert(all.subrange(consumed as int, all.len() as int) =~= rest + more);
                lemma_feed_buf_append(t.apply(d, message), d, rest, more);
            }
        },
    }
}

/// Delivering `a` and then `b` leaves a flow exactly as delivering `a + b`
/// at once: chunk boundaries, including one inside a header, do not matter.
pub proof fn lemma_chunk_boundary(s: FlowView, d: Direction, a: Seq<u8>, b: Seq<u8>)
    ensures
        feed(feed(s, d, a), d, b) == feed(s, d, a + b),
{
    if !s.malformed {
        let t = s.with_pending(d, Seq::empty());
        lemma_feed_buf_append(t, d, s.pending(d) + a, b);
        assert(s.pending(d) + a + b =~= s.pending(d) + (a + b));
    }
}

/// Delivering a stream in any number of chunks, one at a time, leaves a flow
/// exactly as delivering all of it at once.
pub proof fn lemma_chunks_flatten(s: FlowView, d: Direction, cs: Seq<Seq<u8>>)
    requires
        cs.len() > 0,
    ensures
        feed_chunks(s, d, cs) == feed(s, d, cs.flatten()),
    decreases cs.len(),
{
    let rest = cs.drop_first();
    if cs.len() == 1 {
        assert(rest.flatten() == Seq::<u8>::empty());
        assert(cs.flatten() =~= cs[0]);
        assert(feed_chunks(s, d, cs) == feed_chunks(feed(s, d, cs[0]), d, rest));
    } else {
        lemma_chunks_flatten(feed(s, d, cs[0]), d, rest);
        lemma_chunk_boundary(s, d, cs[0], rest.flatten());
    }
}

proof fn lemma_frames_become_requests(t: FlowView, fs: Seq<Seq<u8>>)
    requires
        t.pending(Direction::ToServer) == Seq::<u8>::empty(),
        !t.malformed,
        forall|i: int| 0 <= i < fs.len() ==> is_frame(#[trigger] fs[i], t.config.max_payload),
        t.txs.len() + fs.len() <= t.config.max_transactions,
    ensures
        ({
            let r = feed_buf(t, Direction::ToServer, fs.flatten());
            &&& !r.malformed
            &&& r.pending(Direction::ToServer) == Seq::<u8>::empty()
            &&& r.txs.len() == t.txs.len() + fs.len()
            &&& forall|i: int| 0 <= i < t.txs.len() ==> r.txs[i] == t.txs[i]
            &&& forall|i: int| 0 <= i < fs.len() ==> #[trigger] r.txs[t.txs.len() + i] == TxView {
                id: (t.txs.len() + i + 1) as u64,
                request: Some(frame_message(fs[i], t.config.max_payload)),
                response: None,
                complete: false,
            }
        }),
    decreases fs.len(),
{
    let d = Direction::ToServer;
    let max = t.config.max_payload;
    if fs.len() == 0 {
        assert(t.with_pending(d, Seq::empty()) == t);
    } else {
        let rest = fs.drop_first();
        let flat = fs.flatten();
        assert(flat == fs[0] + rest.flatten());
        assert(is_frame(fs[0], max));
        lemma_decode_prefix(fs[0], rest.flatten(), max);
        let m0 = frame_message(fs[0], max);
        assert(flat.subrange(fs[0].len() as int, flat.len() as int) =~= rest.flatten());
        let t1 = t.apply(d, m0);
        assert forall|i: int| 0 <= i < rest.len() implies is_frame(#[trigger] rest[i], max) by {
            assert(rest[i] == fs[i + 1]);
        }
        lemma_frames_become_requests(t1, rest);
        let r = feed_buf(t, d, flat);
        assert(r == feed_buf(t1, d, rest.flatten()));
        assert forall|i: int| 0 <= i < fs.len() implies #[trigger] r.txs[t.txs.len() + i] == TxView {
            id: (t.txs.len() + i + 1) as u64,
            request: Some(frame_message(fs[i], max)),
            response: None,
            complete: false,
        } by {
            if i == 0 {
                assert(t1.txs[t.txs.len() as int] == r.txs[t.txs.len() as int]);
            } else {
                assert(rest[i - 1] == fs[i]);
                assert(r.txs[t1.txs.len() + (i - 1)] == r.txs[t.txs.len() + i]);
            }
        }
    }
}

/// Any number of well-formed frames, concatenated and cut into chunks at any
/// offsets, delivered one chunk at a time toward the server, give one
/// request per frame, in order, with ids from 1 and the frame's own flags and
/// payload bytes.
pub proof fn lemma_round_trip(
    config: crate::state::ZabbixConfig,
    fs: Seq<Seq<u8>>,
    cs: Seq<Seq<u8>>,
)
    requires
        forall|i: int| 0 <= i < fs.len() ==> is_frame(#[trigger] fs[i], config.max_payload),
        cs.flatten() == fs.flatten(),
        fs.len() <= config.max_transactions,
    ensures
        ({
            let r = feed_chunks(FlowView::fresh(config), Direction::ToServer, cs);
            &&& !r.malformed
            &&& r.txs.len() == fs.len()
            &&& forall|i: int| 0 <= i < fs.len() ==> {
                let t = #[trigger] r.txs[i];
                &&& t.id == i + 1
                &&& t.request == Some(frame_message(fs[i], config.max_payload))
                &&& t.response is None
                &&& t.request.unwrap().header.flags == fs[i][4]
                &&& t.request.unwrap().payload == fs[i].subrange(
                    header_size_for(fs[i][4]),
                    fs[i].len() as int,
                )
            }
        }),
{
    let d = Direction::ToServer;
    let fresh = FlowView::fresh(config);
    if cs.len() == 0 {
        if fs.len() > 0 {
            lemma_decode_bounds(fs[0], config.max_payload);
            assert(fs.flatten() == fs[0] + fs.drop_first().flatten());
            assert(false);
        }
    } else {
        lemma_chunks_flatten(fresh, d, cs);
        assert(fresh.with_pending(d, Seq::empty()) == fresh);
        assert(fresh.pending(d) + cs.flatten() =~= fs.flatten());
        lemma_frames_become_requests(fresh, fs);
        let r = feed_chunks(fresh, d, cs);
        assert(r == feed_buf(fresh, d, fs.flatten()));
        assert forall|i: int| 0 <= i < fs.len() implies {
            let t = #[trigger] r.txs[i];
            &&& t.id == i + 1
            &&& t.request == Some(frame_message(fs[i], config.max_payload))
            &&& t.response is None
            &&& t.request.unwrap().header.flags == fs[i][4]
            &&& t.request.unwrap().payload == fs[i].subrange(
                header_size_for(fs[i][4]),
                fs[i].len() as int,
            )
        } by {
            assert(r.txs[0 + i] == r.txs[i]);
            assert(is_frame(fs[i], config.max_payload));
        }
    }
}

/// A frame declaring an empty payload is a whole frame, and on a new flow it
/// makes one transaction whose data is empty.
pub proof fn lemma_empty_payload(config: crate::state::ZabbixConfig, f: Seq<u8>)
    requires
        spec_parse_header(f) matches HeaderParse::Complete { header, header_size }
            && header.payload_length == 0 && f.len() == header_size,
        config.max_transactions >= 1,
    ensures
        is_frame(f, config.max_payload),
        ({
            let r = feed(FlowView::fresh(config), Direction::ToServer, f);
            &&& !r.malformed
            &&& r.txs.len() == 1
            &&& spec_data(r.txs[0]) == Seq::<u8>::empty()
        }),
{
    let fs = seq![f];
    assert(fs.flatten() =~= f) by {
        assert(fs.drop_first().flatten() == Seq::<u8>::empty());
    }
    assert(is_frame(f, config.max_payload));
    lemma_round_trip(config, fs, fs);
    lemma_chunks_flatten(FlowView::fresh(config), Direction::ToServer, fs);
    assert(fs[0].subrange(header_size_for(f[4]), f.len() as int) =~= Seq::<u8>::empty());
}

/// A header declaring a payload longer than the flow's limit makes the flow
/// malformed at once: no transaction is added, nothing is held back.
pub proof fn lemma_oversized_rejected(s: FlowView, d: Direction, b: Seq<u8>)
    requires
        !s.malformed,
        spec_parse_header(s.pending(d) + b) matches HeaderParse::Complete { header, .. }
            && header.payload_length > s.config.max_payload,
    ensures
        feed(s, d, b) == s.with_pending(d, Seq::empty()).into_malformed(),
{
}

/// A response frame arriving while no transaction is open stands alone: a
/// complete transaction with no request, appended with the next id.
pub proof fn lemma_response_without_request(s: FlowView, f: Seq<u8>)
    requires
        s.wf(),
        !s.malformed,
        s.n_complete == s.txs.len(),
        s.pending(Direction::ToClient) == Seq::<u8>::empty(),
        is_frame(f, s.config.max_payload),
        s.txs.len() < s.config.max_transactions,
    ensures
        ({
            let r = feed(s, Direction::ToClient, f);
            &&& !r.malformed
            &&& r.txs == s.txs.push(TxView {
                id: (s.txs.len() + 1) as u64,
                request: None,
                response: Some(frame_message(f, s.config.max_payload)),
                complete: true,
            })
        }),
{
    let d = Direction::ToClient;
    let t = s.with_pending(d, Seq::empty());
    assert(Seq::<u8>::empty() + f =~= f);
    let m = frame_message(f, s.config.max_payload);
    let t1 = t.apply(d, m);
    let rest = f.subrange(f.len() as int, f.len() as int);
    assert(rest =~= Seq::<u8>::empty());
    assert(feed_buf(t, d, f) == feed_buf(t1, d, rest));
}

/// At teardown every transaction becomes complete, keeps its request and
/// response, and stays where it was; an open one keeps no response.
pub proof fn lemma_teardown(s: FlowView, i: int)
    requires
        s.wf(),
        0 <= i < s.txs.len(),
    ensures
        s.finalized().wf(),
        s.finalized().txs.len() == s.txs.len(),
        s.finalized().txs[i].complete,
        s.finalized().txs[i].id == s.txs[i].id,
        s.finalized().txs[i].request == s.txs[i].request,
        s.finalized().txs[i].response == s.txs[i].response,
        !s.txs[i].complete ==> s.finalized().txs[i].request is Some
            && s.finalized().txs[i].response is None,
{
}

} // verus!
