use vstd::prelude::*;

use crate::client::{ClientV, GoogleAiClient};
use crate::sse::{bytes_text, lemma_chunking_invariant, lemma_decode_utf8_concat, lines_after, line_payload, payloads, rest_after, SseDecoder};
use crate::stream::{after_events, lemma_payloads_after, lemma_payloads_fold_append};
use vstd::utf8::{decode_utf8, valid_utf8};
use crate::stream::{payload_step, payloads_fold, ChunkState, StartedBlocks};
use crate::types::{events_view, EventV, MessageStopEvent, StreamEvent};

verus! {

/// What reading a streamed answer has come to: the start of the line not yet
/// ended and the text blocks started and not yet stopped.
pub struct SessionV {
    pub line: Seq<char>,
    pub started: Seq<u32>,
}

/// The decisions of reading a streamed answer. The caller reads the answer's
/// bytes as they arrive, hands each piece to `on_bytes` and sends on the events
/// that come back, then calls `on_end` once the answer has ended.
pub struct StreamSession {
    decoder: SseDecoder,
    started: StartedBlocks,
}

impl View for StreamSession {
    type V = SessionV;

    closed spec fn view(&self) -> SessionV {
        SessionV { line: self.decoder@, started: self.started@ }
    }
}

/// The state before the payloads of one piece are read.
pub open spec fn session_start(started: Seq<u32>, client: ClientV) -> ChunkState {
    ChunkState { events: Seq::empty(), started, tool_calls: client.tool_calls }
}

/// One piece of a streamed answer read: the events of the `data:` lines that it
/// completes, in order; the session afterwards; the tool calls remembered.
pub open spec fn read_piece(
    s: SessionV,
    calls: Seq<(Seq<char>, (Seq<char>, Option<Seq<char>>))>,
    bytes: Seq<u8>,
) -> (Seq<EventV>, SessionV, Seq<(Seq<char>, (Seq<char>, Option<Seq<char>>))>) {
    let text = bytes_text(bytes);
    let ps = payloads(lines_after(text, s.line));
    let st = payloads_fold(ChunkState { events: Seq::empty(), started: s.started, tool_calls: calls }, ps, ps.len());
    (st.events, SessionV { line: rest_after(text, s.line), started: st.started }, st.tool_calls)
}

/// The pieces read in turn: the events of each, one after the other.
pub open spec fn read_pieces(
    s: SessionV,
    calls: Seq<(Seq<char>, (Seq<char>, Option<Seq<char>>))>,
    pieces: Seq<Seq<u8>>,
) -> (Seq<EventV>, SessionV, Seq<(Seq<char>, (Seq<char>, Option<Seq<char>>))>)
    decreases pieces.len(),
{
    if pieces.len() == 0 {
        (Seq::empty(), s, calls)
    } else {
        let r = read_pieces(s, calls, pieces.drop_last());
        let q = read_piece(r.1, r.2, pieces.last());
        (r.0 + q.0, q.1, q.2)
    }
}

/// The end of the answer: the events of the line left open, when it is a
/// `data:` line, then the message stop.
pub open spec fn read_end(
    s: SessionV,
    calls: Seq<(Seq<char>, (Seq<char>, Option<Seq<char>>))>,
) -> (Seq<EventV>, SessionV, Seq<(Seq<char>, (Seq<char>, Option<Seq<char>>))>) {
    let st0 = ChunkState { events: Seq::empty(), started: s.started, tool_calls: calls };
    let st = match line_payload(s.line) {
        Some(p) => payload_step(st0, p),
        None => st0,
    };
    (st.events.push(EventV::MessageStop), SessionV { line: Seq::empty(), started: st.started }, st.tool_calls)
}

/// The bytes of the pieces, joined.
pub open spec fn joined(pieces: Seq<Seq<u8>>) -> Seq<u8>
    decreases pieces.len(),
{
    if pieces.len() == 0 {
        Seq::empty()
    } else {
        joined(pieces.drop_last()) + pieces.last()
    }
}

impl StreamSession {
    /// Nothing read yet.
    pub fn new() -> (s: StreamSession)
        ensures
            s@ == (SessionV { line: Seq::empty(), started: Seq::empty() }),
    {
        StreamSession { decoder: SseDecoder::new(), started: StartedBlocks::new() }
    }

    /// Reads one piece of the answer: the events of the `data:` lines that it
    /// completes, in order; the start of the line it leaves open is kept.
    pub fn on_bytes(&mut self, client: &mut GoogleAiClient, bytes: &[u8]) -> (events: Vec<StreamEvent>)
        ensures
            ({
                let r = read_piece(old(self)@, old(client)@.tool_calls, bytes@);
                &&& events_view(events@) == r.0
                &&& final(self)@ == r.1
                &&& final(client)@ == ClientV { tool_calls: r.2, ..old(client)@ }
            }),
    {
        let ghost client0 = client@;
        let ghost st0 = session_start(self.started@, client@);
        let ps = self.decoder.push_bytes(bytes);
        let ghost pv = ps@.map_values(|p: String| p@);
        let ghost line_after = self.decoder@;
        let mut events: Vec<StreamEvent> = Vec::new();
        proof {
            assert(events_view(events@) =~= Seq::<EventV>::empty());
        }
        let mut i: usize = 0;
        while i < ps.len()
            invariant
                i <= ps.len(),
                pv == ps@.map_values(|p: String| p@),
                self.decoder@ == line_after,
                ({
                    let st = payloads_fold(st0, pv, i as nat);
                    &&& events_view(events@) == st.events
                    &&& self.started@ == st.started
                    &&& client@ == ClientV { tool_calls: st.tool_calls, ..client0 }
                }),
            decreases ps.len() - i,
        {
            client.translate_payload_into(ps[i].as_str(), &mut self.started, &mut events);
            proof {
                assert(pv[i as int] == ps@[i as int]@);
            }
            i = i + 1;
        }
        events
    }

    /// Ends the answer: the events of the line left open, when it is a `data:`
    /// line, then the message stop.
    pub fn on_end(&mut self, client: &mut GoogleAiClient) -> (events: Vec<StreamEvent>)
        ensures
            ({
                let r = read_end(old(self)@, old(client)@.tool_calls);
                &&& events_view(events@) == r.0
                &&& final(self)@ == r.1
                &&& final(client)@ == ClientV { tool_calls: r.2, ..old(client)@ }
            }),
    {
        let mut events: Vec<StreamEvent> = Vec::new();
        proof {
            assert(events_view(events@) =~= Seq::<EventV>::empty());
        }
        match self.decoder.finish() {
            Some(p) => client.translate_payload_into(p.as_str(), &mut self.started, &mut events),
            None => {},
        }
        let ghost before = events_view(events@);
        events.push(StreamEvent::MessageStop(MessageStopEvent {}));
        proof {
            assert(events_view(events@) =~= before.push(EventV::MessageStop));
        }
        events
    }
}

/// Two valid UTF-8 pieces read one after the other give the events, the
/// session and the tool calls that the two read as one piece give.
pub proof fn lemma_read_two_pieces(
    s: SessionV,
    calls: Seq<(Seq<char>, (Seq<char>, Option<Seq<char>>))>,
    a: Seq<u8>,
    b: Seq<u8>,
)
    requires
        valid_utf8(a),
        valid_utf8(b),
    ensures
        ({
            let r1 = read_piece(s, calls, a);
            let r2 = read_piece(r1.1, r1.2, b);
            read_piece(s, calls, a + b) == (r1.0 + r2.0, r2.1, r2.2)
        }),
{
    lemma_decode_utf8_concat(a, b);
    let ta = decode_utf8(a);
    let tb = decode_utf8(b);
    assert(bytes_text(a + b) == ta + tb);
    lemma_chunking_invariant(ta, tb, s.line);
    let pa = payloads(lines_after(ta, s.line));
    let pb = payloads(lines_after(tb, rest_after(ta, s.line)));
    let st0 = ChunkState { events: Seq::empty(), started: s.started, tool_calls: calls };
    lemma_payloads_fold_append(st0, pa, pb, pb.len());
    let s1 = payloads_fold(st0, pa, pa.len());
    let e1 = ChunkState { events: Seq::empty(), started: s1.started, tool_calls: s1.tool_calls };
    assert(after_events(s1.events, e1) == s1) by {
        assert(s1.events + Seq::<EventV>::empty() =~= s1.events);
    }
    lemma_payloads_after(s1.events, e1, pb, pb.len());
    assert((pa + pb).len() == pa.len() + pb.len());
}

/// However a valid UTF-8 answer is cut into pieces, as long as every piece is
/// valid UTF-8 (cut between characters), reading the pieces in turn gives the
/// events, the session and the tool calls that reading the whole answer gives:
/// so two cuttings of one answer give the same events, before and after its end.
pub proof fn lemma_read_pieces_joined(
    s: SessionV,
    calls: Seq<(Seq<char>, (Seq<char>, Option<Seq<char>>))>,
    pieces: Seq<Seq<u8>>,
)
    requires
        forall|k: int| 0 <= k < pieces.len() ==> valid_utf8(#[trigger] pieces[k]),
    ensures
        valid_utf8(joined(pieces)),
        read_pieces(s, calls, pieces) == read_piece(s, calls, joined(pieces)),
    decreases pieces.len(),
{
    if pieces.len() == 0 {
        assert(decode_utf8(Seq::<u8>::empty()) =~= Seq::<char>::empty());
        assert(lines_after(Seq::<char>::empty(), s.line) =~= Seq::<Seq<char>>::empty());
        assert(payloads(Seq::<Seq<char>>::empty()) =~= Seq::<Seq<char>>::empty());
    } else {
        let init = pieces.drop_last();
        assert forall|k: int| 0 <= k < init.len() implies valid_utf8(#[trigger] init[k]) by {
            assert(init[k] == pieces[k]);
        }
        lemma_read_pieces_joined(s, calls, init);
        let last = pieces.last();
        assert(valid_utf8(last)) by {
            assert(pieces[pieces.len() - 1] == last);
        }
        lemma_decode_utf8_concat(joined(init), last);
        lemma_read_two_pieces(s, calls, joined(init), last);
        let r = read_piece(s, calls, joined(init));
        assert(r.0 + Seq::<EventV>::empty() =~= r.0);
    }
}

}

