use vstd::prelude::*;

use crate::assoc::assoc_insert;
use crate::cache::ToolCallMeta;
use crate::client::{ClientV, GoogleAiClient};
use crate::json::{
    get_v, items_view, json_parse, json_text, parse_json, then_array, then_get, then_i64, then_str, then_u64, Json, JsonV,
};
use crate::text::same_text;
use crate::tool_ids::{call_base, push_call_base, push_delim, stream_tool_id};
use crate::types::{
    events_view, ContentBlockDelta, ContentBlockDeltaEvent, ContentBlockStartEvent, ContentBlockStopEvent,
    DeltaV, EventV, MessageDelta, MessageDeltaEvent, OutputBlockV, OutputContentBlock, StreamEvent, Usage,
};

verus! {

/// The indices of the content blocks that have been started and not yet
/// stopped, in the order they were started. No index occurs twice.
#[derive(Debug)]
pub struct StartedBlocks {
    indices: Vec<u32>,
}

impl View for StartedBlocks {
    type V = Seq<u32>;

    closed spec fn view(&self) -> Seq<u32> {
        self.indices@
    }
}

impl StartedBlocks {
    /// No block started.
    pub fn new() -> (s: StartedBlocks)
        ensures
            s@ == Seq::<u32>::empty(),
    {
        StartedBlocks { indices: Vec::new() }
    }

    /// Whether block `idx` has been started.
    pub fn contains(&self, idx: u32) -> (r: bool)
        ensures
            r == self@.contains(idx),
    {
        let mut i: usize = 0;
        while i < self.indices.len()
            invariant
                i <= self.indices.len(),
                forall|k: int| 0 <= k < i ==> self@[k] != idx,
            decreases self.indices.len() - i,
        {
            if self.indices[i] == idx {
                return true;
            }
            i = i + 1;
        }
        false
    }

    /// The number of started blocks.
    pub fn len(&self) -> (n: usize)
        ensures
            n == self@.len(),
    {
        self.indices.len()
    }

    /// The `k`-th started block.
    pub fn at(&self, k: usize) -> (idx: u32)
        requires
            k < self@.len(),
        ensures
            idx == self@[k as int],
    {
        self.indices[k]
    }

    fn add(&mut self, idx: u32)
        ensures
            final(self)@ == old(self)@.push(idx),
    {
        self.indices.push(idx);
    }

    fn clear(&mut self)
        ensures
            final(self)@ == Seq::<u32>::empty(),
    {
        self.indices.clear();
    }
}

/// Where reading a chunk stands: the events so far, the started
/// blocks and the remembered tool calls.
pub struct ChunkState {
    pub events: Seq<EventV>,
    pub started: Seq<u32>,
    pub tool_calls: Seq<(Seq<char>, (Seq<char>, Option<Seq<char>>))>,
}

/// The name of a function call: its `name`, or `unknown`.
pub open spec fn call_name(call: JsonV) -> Seq<char> {
    match then_str(get_v(call, "name"@)) {
        Some(n) => n,
        None => "unknown"@,
    }
}

/// The arguments of a function call: its `args`, or an empty object.
pub open spec fn call_args(call: JsonV) -> JsonV {
    match get_v(call, "args"@) {
        Some(a) => a,
        None => JsonV::Obj(Seq::empty()),
    }
}

/// The index of a candidate: its `index` when it is an `i64`, else 0.
pub open spec fn candidate_index(candidate: JsonV) -> i64 {
    match then_i64(get_v(candidate, "index"@)) {
        Some(i) => i,
        None => 0,
    }
}

/// One part of a candidate, at position `i`. A non-empty text starts its block
/// the first time and then sends a text delta; a function call gets an ID
/// that carries its name and thought signature, is remembered under it, and
/// sends a whole tool-use block at once.
pub open spec fn part_step(st: ChunkState, ci: i64, i: nat, part: JsonV) -> ChunkState {
    let idx = i as u32;
    match then_str(get_v(part, "text"@)) {
        Some(t) => if t.len() > 0 {
            if st.started.contains(idx) {
                ChunkState { events: st.events.push(EventV::BlockDelta(idx, DeltaV::Text(t))), ..st }
            } else {
                ChunkState {
                    events: st.events.push(EventV::BlockStart(idx, OutputBlockV::Text(Seq::empty()))).push(
                        EventV::BlockDelta(idx, DeltaV::Text(t)),
                    ),
                    started: st.started.push(idx),
                    ..st
                }
            }
        } else {
            st
        },
        None => match get_v(part, "functionCall"@) {
            Some(call) => {
                let name = call_name(call);
                let sig = then_str(get_v(part, "thoughtSignature"@));
                let sig_text = match sig {
                    Some(s) => s,
                    None => Seq::empty(),
                };
                let id = stream_tool_id(call_base(ci, i), name, sig_text);
                ChunkState {
                    events: st.events.push(
                        EventV::BlockStart(idx, OutputBlockV::ToolUse(id, name, JsonV::Obj(Seq::empty()))),
                    ).push(EventV::BlockDelta(idx, DeltaV::InputJson(json_text(call_args(call))))).push(
                        EventV::BlockStop(idx),
                    ),
                    tool_calls: assoc_insert(st.tool_calls, id, (name, sig)),
                    ..st
                }
            },
            None => st,
        },
    }
}

/// The first `n` parts of a candidate, in order.
pub open spec fn parts_fold(st: ChunkState, ci: i64, parts: Seq<JsonV>, n: nat) -> ChunkState
    decreases n,
{
    if n == 0 {
        st
    } else {
        part_step(parts_fold(st, ci, parts, (n - 1) as nat), ci, (n - 1) as nat, parts[n - 1])
    }
}

/// The stop events of the given blocks, in order.
pub open spec fn stop_events(started: Seq<u32>) -> Seq<EventV> {
    started.map_values(|k: u32| EventV::BlockStop(k))
}

/// One candidate: its parts, then, when its `finishReason` is `STOP`, a stop
/// for every started block, which are then forgotten.
pub open spec fn candidate_step(st: ChunkState, candidate: JsonV) -> ChunkState {
    let ci = candidate_index(candidate);
    let st1 = match then_array(then_get(get_v(candidate, "content"@), "parts"@)) {
        Some(parts) => parts_fold(st, ci, parts, parts.len()),
        None => st,
    };
    if then_str(get_v(candidate, "finishReason"@)) == Some("STOP"@) {
        ChunkState { events: st1.events + stop_events(st1.started), started: Seq::empty(), ..st1 }
    } else {
        st1
    }
}

/// The first `n` candidates, in order.
pub open spec fn candidates_fold(st: ChunkState, candidates: Seq<JsonV>, n: nat) -> ChunkState
    decreases n,
{
    if n == 0 {
        st
    } else {
        candidate_step(candidates_fold(st, candidates, (n - 1) as nat), candidates[n - 1])
    }
}

/// The token counts of a `usageMetadata` object, each cut to 32 bits.
pub open spec fn usage_of(u: JsonV) -> Usage {
    Usage {
        input_tokens: (match then_u64(get_v(u, "promptTokenCount"@)) {
            Some(n) => n,
            None => 0,
        }) as u32,
        output_tokens: (match then_u64(get_v(u, "candidatesTokenCount"@)) {
            Some(n) => n,
            None => 0,
        }) as u32,
        cache_creation_input_tokens: 0,
        cache_read_input_tokens: (match then_u64(get_v(u, "cachedContentTokenCount"@)) {
            Some(n) => n,
            None => 0,
        }) as u32,
    }
}

/// The body of a streamed chunk: its `response` member, or the chunk itself.
pub open spec fn chunk_body(chunk: JsonV) -> JsonV {
    match get_v(chunk, "response"@) {
        Some(r) => r,
        None => chunk,
    }
}

/// The events of a whole chunk: every candidate, then a message delta with
/// the token counts when the chunk has `usageMetadata` with input or output tokens.
pub open spec fn chunk_step(st: ChunkState, chunk: JsonV) -> ChunkState {
    let body = chunk_body(chunk);
    let st1 = match then_array(get_v(body, "candidates"@)) {
        Some(cs) => candidates_fold(st, cs, cs.len()),
        None => st,
    };
    match get_v(body, "usageMetadata"@) {
        Some(u) => {
            let usage = usage_of(u);
            if usage.input_tokens > 0 || usage.output_tokens > 0 {
                ChunkState { events: st1.events.push(EventV::MessageDelta(None, None, usage)), ..st1 }
            } else {
                st1
            }
        },
        None => st1,
    }
}

/// The events of one `data:` payload: those of the chunk it parses to, or
/// none when it is not JSON.
pub open spec fn payload_step(st: ChunkState, payload: Seq<char>) -> ChunkState {
    match json_parse(payload) {
        Some(chunk) => chunk_step(st, chunk),
        None => st,
    }
}

/// The first `n` payloads, in order.
pub open spec fn payloads_fold(st: ChunkState, payloads: Seq<Seq<char>>, n: nat) -> ChunkState
    decreases n,
{
    if n == 0 {
        st
    } else {
        payload_step(payloads_fold(st, payloads, (n - 1) as nat), payloads[n - 1])
    }
}

/// The state before a chunk is read: no event yet.
pub open spec fn chunk_start(started: Seq<u32>, client: ClientV) -> ChunkState {
    ChunkState { events: Seq::empty(), started, tool_calls: client.tool_calls }
}

fn push_event(events: &mut Vec<StreamEvent>, e: StreamEvent)
    ensures
        events_view(final(events)@) == events_view(old(events)@).push(e@),
{
    let ghost ev = e@;
    events.push(e);
    proof {
        assert(events_view(final(events)@) =~= events_view(old(events)@).push(ev));
    }
}

impl GoogleAiClient {
    fn translate_part(
        &mut self,
        ci: i64,
        i: usize,
        part: &Json,
        started: &mut StartedBlocks,
        events: &mut Vec<StreamEvent>,
    )
        ensures
            ({
                let st = part_step(
                    ChunkState {
                        events: events_view(old(events)@),
                        started: old(started)@,
                        tool_calls: old(self)@.tool_calls,
                    },
                    ci,
                    i as nat,
                    part@,
                );
                &&& events_view(final(events)@) == st.events
                &&& final(started)@ == st.started
                &&& final(self)@ == ClientV { tool_calls: st.tool_calls, ..old(self)@ }
            }),
    {
        let idx = i as u32;
        match part.get_str("text") {
            Some(t) => {
                if !t.as_str().is_empty() {
                    proof {
                        assert(t@.len() > 0);
                    }
                    if !started.contains(idx) {
                        push_event(
                            events,
                            StreamEvent::ContentBlockStart(
                                ContentBlockStartEvent {
                                    index: idx,
                                    content_block: OutputContentBlock::Text { text: String::new() },
                                },
                            ),
                        );
                        started.add(idx);
                    }
                    push_event(
                        events,
                        StreamEvent::ContentBlockDelta(
                            ContentBlockDeltaEvent { index: idx, delta: ContentBlockDelta::TextDelta { text: t.clone() } },
                        ),
                    );
                } else {
                    proof {
                        assert(t@.len() == 0);
                    }
                }
            },
            None => {
                match part.get("functionCall") {
                    Some(call) => {
                        let name = match call.get_str("name") {
                            Some(n) => n.clone(),
                            None => String::from_str("unknown"),
                        };
                        let args_text = match call.get("args") {
                            Some(a) => a.to_json_text(),
                            None => Json::empty_object().to_json_text(),
                        };
                        let sig: Option<String> = match part.get_str("thoughtSignature") {
                            Some(s) => Some(s.clone()),
                            None => None,
                        };
                        let mut id = String::new();
                        push_call_base(&mut id, ci, i as u64);
                        push_delim(&mut id);
                        id.append(name.as_str());
                        push_delim(&mut id);
                        match &sig {
                            Some(s) => id.append(s.as_str()),
                            None => {},
                        }
                        proof {
                            let sig_text = match crate::types::opt_view(sig) {
                                Some(s) => s,
                                None => Seq::empty(),
                            };
                            assert(id@ =~= stream_tool_id(call_base(ci, i as nat), name@, sig_text));
                        }
                        push_event(
                            events,
                            StreamEvent::ContentBlockStart(
                                ContentBlockStartEvent {
                                    index: idx,
                                    content_block: OutputContentBlock::ToolUse {
                                        id: id.clone(),
                                        name: name.clone(),
                                        input: Json::empty_object(),
                                    },
                                },
                            ),
                        );
                        push_event(
                            events,
                            StreamEvent::ContentBlockDelta(
                                ContentBlockDeltaEvent {
                                    index: idx,
                                    delta: ContentBlockDelta::InputJsonDelta { partial_json: args_text },
                                },
                            ),
                        );
                        push_event(events, StreamEvent::ContentBlockStop(ContentBlockStopEvent { index: idx }));
                        self.remember_tool_call(id, ToolCallMeta { name, thought_signature: sig });
                    },
                    None => {},
                }
            },
        }
    }

    fn translate_candidate(&mut self, candidate: &Json, started: &mut StartedBlocks, events: &mut Vec<StreamEvent>)
        ensures
            ({
                let st = candidate_step(
                    ChunkState {
                        events: events_view(old(events)@),
                        started: old(started)@,
                        tool_calls: old(self)@.tool_calls,
                    },
                    candidate@,
                );
                &&& events_view(final(events)@) == st.events
                &&& final(started)@ == st.started
                &&& final(self)@ == ClientV { tool_calls: st.tool_calls, ..old(self)@ }
            }),
    {
        let ghost st0 = ChunkState {
            events: events_view(events@),
            started: started@,
            tool_calls: self@.tool_calls,
        };
        let ghost client0 = self@;
        let ci: i64 = match candidate.get_i64("index") {
            Some(x) => x,
            None => 0,
        };
        let parts: Option<&Vec<Json>> = match candidate.get("content") {
            Some(content) => content.get_array("parts"),
            None => None,
        };
        match parts {
            Some(parts) => {
                let ghost pv = items_view(parts@);
                let mut i: usize = 0;
                while i < parts.len()
                    invariant
                        i <= parts.len(),
                        pv == items_view(parts@),
                        ci == candidate_index(candidate@),
                        ({
                            let st = parts_fold(st0, ci, pv, i as nat);
                            &&& events_view(events@) == st.events
                            &&& started@ == st.started
                            &&& self@ == ClientV { tool_calls: st.tool_calls, ..client0 }
                        }),
                    decreases parts.len() - i,
                {
                    self.translate_part(ci, i, &parts[i], started, events);
                    i = i + 1;
                }
            },
            None => {},
        }
        let stop = match candidate.get_str("finishReason") {
            Some(r) => same_text(r.as_str(), "STOP"),
            None => false,
        };
        if stop {
            let ghost before = events_view(events@);
            let ghost blocks = started@;
            let n = started.len();
            let mut k: usize = 0;
            while k < n
                invariant
                    k <= n,
                    n == started@.len(),
                    started@ == blocks,
                    events_view(events@) == before + stop_events(blocks.take(k as int)),
                decreases n - k,
            {
                let idx = started.at(k);
                push_event(events, StreamEvent::ContentBlockStop(ContentBlockStopEvent { index: idx }));
                proof {
                    assert(stop_events(blocks.take(k + 1)) =~= stop_events(blocks.take(k as int)).push(
                        EventV::BlockStop(idx),
                    ));
                    assert(before + stop_events(blocks.take(k + 1)) =~= (before + stop_events(
                        blocks.take(k as int),
                    )).push(EventV::BlockStop(idx)));
                }
                k = k + 1;
            }
            proof {
                assert(blocks.take(n as int) =~= blocks);
            }
            started.clear();
        }
    }

    /// Appends the events of one JSON chunk to `events`.
    fn translate_chunk_into(&mut self, chunk: &Json, started_blocks: &mut StartedBlocks, events: &mut Vec<StreamEvent>)
        ensures
            ({
                let st = chunk_step(
                    ChunkState {
                        events: events_view(old(events)@),
                        started: old(started_blocks)@,
                        tool_calls: old(self)@.tool_calls,
                    },
                    chunk@,
                );
                &&& events_view(final(events)@) == st.events
                &&& final(started_blocks)@ == st.started
                &&& final(self)@ == ClientV { tool_calls: st.tool_calls, ..old(self)@ }
            }),
    {
        let ghost client0 = self@;
        let ghost st0 = ChunkState { events: events_view(events@), started: started_blocks@, tool_calls: self@.tool_calls };
        let body: &Json = match chunk.get("response") {
            Some(r) => r,
            None => chunk,
        };
        match body.get_array("candidates") {
            Some(candidates) => {
                let ghost cv = items_view(candidates@);
                let mut c: usize = 0;
                while c < candidates.len()
                    invariant
                        c <= candidates.len(),
                        cv == items_view(candidates@),
                        ({
                            let st = candidates_fold(st0, cv, c as nat);
                            &&& events_view(events@) == st.events
                            &&& started_blocks@ == st.started
                            &&& self@ == ClientV { tool_calls: st.tool_calls, ..client0 }
                        }),
                    decreases candidates.len() - c,
                {
                    self.translate_candidate(&candidates[c], started_blocks, events);
                    c = c + 1;
                }
            },
            None => {},
        }
        match body.get("usageMetadata") {
            Some(u) => {
                let input_tokens = match u.get_u64("promptTokenCount") {
                    Some(n) => n,
                    None => 0,
                } as u32;
                let output_tokens = match u.get_u64("candidatesTokenCount") {
                    Some(n) => n,
                    None => 0,
                } as u32;
                let cache_read = match u.get_u64("cachedContentTokenCount") {
                    Some(n) => n,
                    None => 0,
                } as u32;
                if input_tokens > 0 || output_tokens > 0 {
                    push_event(
                        events,
                        StreamEvent::MessageDelta(
                            MessageDeltaEvent {
                                delta: MessageDelta { stop_reason: None, stop_sequence: None },
                                usage: Usage {
                                    input_tokens,
                                    output_tokens,
                                    cache_creation_input_tokens: 0,
                                    cache_read_input_tokens: cache_read,
                                },
                            },
                        ),
                    );
                }
            },
            None => {},
        }
    }

    /// Translates one JSON chunk of a streamed answer into events.
    /// `started_blocks` holds the text blocks started by earlier chunks and not
    /// yet stopped; the function calls met are remembered under their IDs.
    pub fn translate_response_chunk(&mut self, chunk: Json, started_blocks: &mut StartedBlocks) -> (events: Vec<
        StreamEvent,
    >)
        ensures
            ({
                let st = chunk_step(chunk_start(old(started_blocks)@, old(self)@), chunk@);
                &&& events_view(events@) == st.events
                &&& final(started_blocks)@ == st.started
                &&& final(self)@ == ClientV { tool_calls: st.tool_calls, ..old(self)@ }
            }),
    {
        let mut events: Vec<StreamEvent> = Vec::new();
        proof {
            assert(events_view(events@) =~= Seq::<EventV>::empty());
        }
        self.translate_chunk_into(&chunk, started_blocks, &mut events);
        events
    }

    /// Appends the events of one `data:` payload of a stream to `events`.
    pub(crate) fn translate_payload_into(&mut self, payload: &str, started_blocks: &mut StartedBlocks, events: &mut Vec<StreamEvent>)
        ensures
            ({
                let st = payload_step(
                    ChunkState {
                        events: events_view(old(events)@),
                        started: old(started_blocks)@,
                        tool_calls: old(self)@.tool_calls,
                    },
                    payload@,
                );
                &&& events_view(final(events)@) == st.events
                &&& final(started_blocks)@ == st.started
                &&& final(self)@ == ClientV { tool_calls: st.tool_calls, ..old(self)@ }
            }),
    {
        match parse_json(payload) {
            Ok(chunk) => self.translate_chunk_into(&chunk, started_blocks, events),
            Err(_) => {},
        }
    }

    /// Translates one `data:` payload of a streamed answer: the events of the
    /// chunk it holds, as `translate_response_chunk` gives them, or no event and
    /// nothing changed when it is not JSON.
    pub fn translate_payload(&mut self, payload: &str, started_blocks: &mut StartedBlocks) -> (events: Vec<StreamEvent>)
        ensures
            ({
                let st = payload_step(chunk_start(old(started_blocks)@, old(self)@), payload@);
                &&& events_view(events@) == st.events
                &&& final(started_blocks)@ == st.started
                &&& final(self)@ == ClientV { tool_calls: st.tool_calls, ..old(self)@ }
            }),
    {
        let mut events: Vec<StreamEvent> = Vec::new();
        proof {
            assert(events_view(events@) =~= Seq::<EventV>::empty());
        }
        self.translate_payload_into(payload, started_blocks, &mut events);
        events
    }
}


proof fn lemma_part_distinct(st: ChunkState, ci: i64, i: nat, part: JsonV)
    requires
        st.started.no_duplicates(),
    ensures
        part_step(st, ci, i, part).started.no_duplicates(),
{
    let r = part_step(st, ci, i, part);
    if r.started.len() > st.started.len() {
        let idx = i as u32;
        assert(!st.started.contains(idx));
        assert(r.started == st.started.push(idx));
        assert forall|a: int, b: int| 0 <= a < b < r.started.len() implies r.started[a] != r.started[b] by {
            if b == st.started.len() {
                assert(r.started[a] == st.started[a]);
            }
        }
    }
}

proof fn lemma_parts_distinct(st: ChunkState, ci: i64, parts: Seq<JsonV>, n: nat)
    requires
        st.started.no_duplicates(),
    ensures
        parts_fold(st, ci, parts, n).started.no_duplicates(),
    decreases n,
{
    if n > 0 {
        lemma_parts_distinct(st, ci, parts, (n - 1) as nat);
        lemma_part_distinct(parts_fold(st, ci, parts, (n - 1) as nat), ci, (n - 1) as nat, parts[n - 1]);
    }
}

proof fn lemma_candidates_distinct(st: ChunkState, candidates: Seq<JsonV>, n: nat)
    requires
        st.started.no_duplicates(),
    ensures
        candidates_fold(st, candidates, n).started.no_duplicates(),
    decreases n,
{
    if n > 0 {
        lemma_candidates_distinct(st, candidates, (n - 1) as nat);
        let prev = candidates_fold(st, candidates, (n - 1) as nat);
        let cand = candidates[n - 1];
        match then_array(then_get(get_v(cand, "content"@), "parts"@)) {
            Some(parts) => lemma_parts_distinct(prev, candidate_index(cand), parts, parts.len()),
            None => {},
        }
    }
}

/// No text block is started twice while it is open: the started blocks never
/// hold an index twice, whatever chunks arrive.
pub proof fn lemma_chunk_keeps_blocks_distinct(st: ChunkState, chunk: JsonV)
    requires
        st.started.no_duplicates(),
    ensures
        chunk_step(st, chunk).started.no_duplicates(),
{
    match then_array(get_v(chunk_body(chunk), "candidates"@)) {
        Some(cs) => lemma_candidates_distinct(st, cs, cs.len()),
        None => {},
    }
}

/// A candidate that finishes with `STOP` stops every block started so far, in
/// the order they were started, and leaves none open.
pub proof fn lemma_stop_closes_blocks(st: ChunkState, candidate: JsonV)
    requires
        then_str(get_v(candidate, "finishReason"@)) == Some("STOP"@),
    ensures
        ({
            let ci = candidate_index(candidate);
            let before_stop = match then_array(then_get(get_v(candidate, "content"@), "parts"@)) {
                Some(parts) => parts_fold(st, ci, parts, parts.len()),
                None => st,
            };
            &&& candidate_step(st, candidate).started.len() == 0
            &&& candidate_step(st, candidate).events == before_stop.events + stop_events(before_stop.started)
        }),
{
}

/// What the events of a stream say so far of its blocks: the text blocks
/// started and not yet stopped, oldest first; the tool-use block started and
/// not yet stopped, if any; and whether every event so far fits, that is no
/// text block was started while open and every other stop closed the oldest
/// open text block.
pub struct BlockTrack {
    pub open: Seq<u32>,
    pub tool: Option<u32>,
    pub fits: bool,
}

/// One event, as it bears on the blocks.
pub open spec fn track_event(t: BlockTrack, e: EventV) -> BlockTrack {
    match e {
        EventV::BlockStart(i, OutputBlockV::Text(_)) => BlockTrack {
            open: t.open.push(i),
            fits: t.fits && !t.open.contains(i),
            ..t
        },
        EventV::BlockStart(i, _) => BlockTrack { tool: Some(i), ..t },
        EventV::BlockStop(i) => if t.tool == Some(i) {
            BlockTrack { tool: None, ..t }
        } else {
            BlockTrack { open: t.open.drop_first(), fits: t.fits && t.open.len() > 0 && t.open[0] == i, ..t }
        },
        _ => t,
    }
}

/// The events, in order, as they bear on the blocks.
pub open spec fn track(t: BlockTrack, events: Seq<EventV>) -> BlockTrack
    decreases events.len(),
{
    if events.len() == 0 {
        t
    } else {
        track_event(track(t, events.drop_last()), events.last())
    }
}

/// A stream at rest with the given text blocks open, in that order.
pub open spec fn settled(open: Seq<u32>) -> BlockTrack {
    BlockTrack { open, tool: None, fits: true }
}

proof fn lemma_track_push(t: BlockTrack, events: Seq<EventV>, e: EventV)
    ensures
        track(t, events.push(e)) == track_event(track(t, events), e),
{
    assert(events.push(e).drop_last() =~= events);
}

/// Reading two runs of events one after the other is reading them joined.
pub proof fn lemma_track_append(t: BlockTrack, a: Seq<EventV>, b: Seq<EventV>)
    ensures
        track(t, a + b) == track(track(t, a), b),
    decreases b.len(),
{
    if b.len() == 0 {
        assert(a + b =~= a);
    } else {
        lemma_track_append(t, a, b.drop_last());
        assert((a + b).drop_last() =~= a + b.drop_last());
        assert((a + b).last() == b.last());
    }
}

proof fn lemma_part_track(t0: BlockTrack, st: ChunkState, ci: i64, i: nat, part: JsonV)
    requires
        track(t0, st.events) == settled(st.started),
    ensures
        track(t0, part_step(st, ci, i, part).events) == settled(part_step(st, ci, i, part).started),
{
    let idx = i as u32;
    let e = st.events;
    match then_str(get_v(part, "text"@)) {
        Some(t) => if t.len() > 0 {
            let d = EventV::BlockDelta(idx, DeltaV::Text(t));
            if st.started.contains(idx) {
                lemma_track_push(t0, e, d);
            } else {
                let b = EventV::BlockStart(idx, OutputBlockV::Text(Seq::empty()));
                lemma_track_push(t0, e, b);
                lemma_track_push(t0, e.push(b), d);
            }
        },
        None => match get_v(part, "functionCall"@) {
            Some(call) => {
                let r = part_step(st, ci, i, part);
                let e1 = e.push(r.events[e.len() as int]);
                let e2 = e1.push(r.events[e.len() as int + 1]);
                assert(r.events =~= e2.push(EventV::BlockStop(idx)));
                lemma_track_push(t0, e, r.events[e.len() as int]);
                lemma_track_push(t0, e1, r.events[e.len() as int + 1]);
                lemma_track_push(t0, e2, EventV::BlockStop(idx));
            },
            None => {},
        },
    }
}

proof fn lemma_parts_track(t0: BlockTrack, st: ChunkState, ci: i64, parts: Seq<JsonV>, n: nat)
    requires
        track(t0, st.events) == settled(st.started),
    ensures
        track(t0, parts_fold(st, ci, parts, n).events) == settled(parts_fold(st, ci, parts, n).started),
    decreases n,
{
    if n > 0 {
        lemma_parts_track(t0, st, ci, parts, (n - 1) as nat);
        lemma_part_track(t0, parts_fold(st, ci, parts, (n - 1) as nat), ci, (n - 1) as nat, parts[n - 1]);
    }
}

proof fn lemma_stops_track(open: Seq<u32>, k: nat)
    requires
        k <= open.len(),
    ensures
        track(settled(open), stop_events(open.take(k as int))) == settled(open.skip(k as int)),
    decreases k,
{
    if k == 0 {
        assert(stop_events(open.take(0)) =~= Seq::<EventV>::empty());
        assert(open.skip(0) =~= open);
    } else {
        let j = (k - 1) as nat;
        lemma_stops_track(open, j);
        assert(stop_events(open.take(k as int)) =~= stop_events(open.take(j as int)).push(EventV::BlockStop(open[j as int])));
        lemma_track_push(settled(open), stop_events(open.take(j as int)), EventV::BlockStop(open[j as int]));
        assert(open.skip(j as int).drop_first() =~= open.skip(k as int));
    }
}

proof fn lemma_candidate_track(t0: BlockTrack, st: ChunkState, candidate: JsonV)
    requires
        track(t0, st.events) == settled(st.started),
    ensures
        track(t0, candidate_step(st, candidate).events) == settled(candidate_step(st, candidate).started),
{
    let ci = candidate_index(candidate);
    let st1 = match then_array(then_get(get_v(candidate, "content"@), "parts"@)) {
        Some(parts) => parts_fold(st, ci, parts, parts.len()),
        None => st,
    };
    match then_array(then_get(get_v(candidate, "content"@), "parts"@)) {
        Some(parts) => lemma_parts_track(t0, st, ci, parts, parts.len()),
        None => {},
    }
    if then_str(get_v(candidate, "finishReason"@)) == Some("STOP"@) {
        lemma_track_append(t0, st1.events, stop_events(st1.started));
        lemma_stops_track(st1.started, st1.started.len());
        assert(st1.started.take(st1.started.len() as int) =~= st1.started);
        assert(st1.started.skip(st1.started.len() as int) =~= Seq::<u32>::empty());
    }
}

proof fn lemma_candidates_track(t0: BlockTrack, st: ChunkState, candidates: Seq<JsonV>, n: nat)
    requires
        track(t0, st.events) == settled(st.started),
    ensures
        track(t0, candidates_fold(st, candidates, n).events) == settled(candidates_fold(st, candidates, n).started),
    decreases n,
{
    if n > 0 {
        lemma_candidates_track(t0, st, candidates, (n - 1) as nat);
        lemma_candidate_track(t0, candidates_fold(st, candidates, (n - 1) as nat), candidates[n - 1]);
    }
}

proof fn lemma_chunk_track(t0: BlockTrack, st: ChunkState, chunk: JsonV)
    requires
        track(t0, st.events) == settled(st.started),
    ensures
        track(t0, chunk_step(st, chunk).events) == settled(chunk_step(st, chunk).started),
{
    let body = chunk_body(chunk);
    let st1 = match then_array(get_v(body, "candidates"@)) {
        Some(cs) => candidates_fold(st, cs, cs.len()),
        None => st,
    };
    match then_array(get_v(body, "candidates"@)) {
        Some(cs) => lemma_candidates_track(t0, st, cs, cs.len()),
        None => {},
    }
    match get_v(body, "usageMetadata"@) {
        Some(u) => {
            lemma_track_push(t0, st1.events, EventV::MessageDelta(None, None, usage_of(u)));
        },
        None => {},
    }
}

/// The events of a chunk account for the open text blocks. Read after the
/// events of the earlier chunks, which left `started` open, they start no text
/// block that is open, stop the open ones oldest first, and leave open exactly
/// the blocks that `translate_response_chunk` leaves in `started_blocks`; so
/// over a run of chunks translated in turn, the events sent so far always say
/// which text blocks are open.
pub proof fn lemma_chunk_events_track_blocks(
    s0: Seq<u32>,
    before: Seq<EventV>,
    started: Seq<u32>,
    client: ClientV,
    chunk: JsonV,
)
    requires
        track(settled(s0), before) == settled(started),
    ensures
        ({
            let st = chunk_step(chunk_start(started, client), chunk);
            track(settled(s0), before + st.events) == settled(st.started)
        }),
{
    let st = chunk_step(chunk_start(started, client), chunk);
    lemma_chunk_track(settled(started), chunk_start(started, client), chunk);
    lemma_track_append(settled(s0), before, st.events);
}

/// The same over the payloads of a stream: a payload that is not JSON sends
/// nothing and leaves the blocks as they were.
pub proof fn lemma_payloads_track_blocks(t0: BlockTrack, st: ChunkState, payloads: Seq<Seq<char>>, n: nat)
    requires
        track(t0, st.events) == settled(st.started),
    ensures
        track(t0, payloads_fold(st, payloads, n).events) == settled(payloads_fold(st, payloads, n).started),
    decreases n,
{
    if n > 0 {
        lemma_payloads_track_blocks(t0, st, payloads, (n - 1) as nat);
        match json_parse(payloads[n - 1]) {
            Some(c) => lemma_chunk_track(t0, payloads_fold(st, payloads, (n - 1) as nat), c),
            None => {},
        }
    }
}

/// The same state with `p` before its events.
pub open spec fn after_events(p: Seq<EventV>, st: ChunkState) -> ChunkState {
    ChunkState { events: p + st.events, ..st }
}

proof fn lemma_part_after(p: Seq<EventV>, st: ChunkState, ci: i64, i: nat, part: JsonV)
    ensures
        part_step(after_events(p, st), ci, i, part) == after_events(p, part_step(st, ci, i, part)),
{
    let r = part_step(st, ci, i, part);
    let q = part_step(after_events(p, st), ci, i, part);
    assert(q.events =~= p + r.events);
}

proof fn lemma_parts_after(p: Seq<EventV>, st: ChunkState, ci: i64, parts: Seq<JsonV>, n: nat)
    ensures
        parts_fold(after_events(p, st), ci, parts, n) == after_events(p, parts_fold(st, ci, parts, n)),
    decreases n,
{
    if n == 0 {
    } else {
        lemma_parts_after(p, st, ci, parts, (n - 1) as nat);
        lemma_part_after(p, parts_fold(st, ci, parts, (n - 1) as nat), ci, (n - 1) as nat, parts[n - 1]);
    }
}

proof fn lemma_candidate_after(p: Seq<EventV>, st: ChunkState, candidate: JsonV)
    ensures
        candidate_step(after_events(p, st), candidate) == after_events(p, candidate_step(st, candidate)),
{
    let ci = candidate_index(candidate);
    match then_array(then_get(get_v(candidate, "content"@), "parts"@)) {
        Some(parts) => lemma_parts_after(p, st, ci, parts, parts.len()),
        None => {},
    }
    let r = candidate_step(st, candidate);
    let q = candidate_step(after_events(p, st), candidate);
    assert(q.events =~= p + r.events);
}

proof fn lemma_candidates_after(p: Seq<EventV>, st: ChunkState, candidates: Seq<JsonV>, n: nat)
    ensures
        candidates_fold(after_events(p, st), candidates, n) == after_events(p, candidates_fold(st, candidates, n)),
    decreases n,
{
    if n > 0 {
        lemma_candidates_after(p, st, candidates, (n - 1) as nat);
        lemma_candidate_after(p, candidates_fold(st, candidates, (n - 1) as nat), candidates[n - 1]);
    }
}

/// Reading a chunk only adds events after those already there.
pub proof fn lemma_chunk_after(p: Seq<EventV>, st: ChunkState, chunk: JsonV)
    ensures
        chunk_step(after_events(p, st), chunk) == after_events(p, chunk_step(st, chunk)),
{
    match then_array(get_v(chunk_body(chunk), "candidates"@)) {
        Some(cs) => lemma_candidates_after(p, st, cs, cs.len()),
        None => {},
    }
    let r = chunk_step(st, chunk);
    let q = chunk_step(after_events(p, st), chunk);
    assert(q.events =~= p + r.events);
}

/// Reading payloads only adds events after those already there.
pub proof fn lemma_payloads_after(p: Seq<EventV>, st: ChunkState, payloads: Seq<Seq<char>>, n: nat)
    ensures
        payloads_fold(after_events(p, st), payloads, n) == after_events(p, payloads_fold(st, payloads, n)),
    decreases n,
{
    if n > 0 {
        lemma_payloads_after(p, st, payloads, (n - 1) as nat);
        match json_parse(payloads[n - 1]) {
            Some(c) => lemma_chunk_after(p, payloads_fold(st, payloads, (n - 1) as nat), c),
            None => {},
        }
    }
}

/// Reading two runs of payloads one after the other is reading them joined.
pub proof fn lemma_payloads_fold_append(st: ChunkState, a: Seq<Seq<char>>, b: Seq<Seq<char>>, n: nat)
    requires
        n <= b.len(),
    ensures
        payloads_fold(st, a + b, a.len() + n) == payloads_fold(payloads_fold(st, a, a.len()), b, n),
    decreases n,
{
    if n == 0 {
        lemma_payloads_fold_prefix(st, a, b, a.len());
    } else {
        lemma_payloads_fold_append(st, a, b, (n - 1) as nat);
        assert((a + b)[a.len() + n - 1] == b[n - 1]);
        assert((a.len() + n - 1) as nat == a.len() + (n - 1) as nat);
    }
}

proof fn lemma_payloads_fold_prefix(st: ChunkState, a: Seq<Seq<char>>, b: Seq<Seq<char>>, n: nat)
    requires
        n <= a.len(),
    ensures
        payloads_fold(st, a + b, n) == payloads_fold(st, a, n),
    decreases n,
{
    if n > 0 {
        lemma_payloads_fold_prefix(st, a, b, (n - 1) as nat);
        assert((a + b)[n - 1] == a[n - 1]);
    }
}

/// Whether `b` holds the events of `a` first, in order.
pub open spec fn extends(a: Seq<EventV>, b: Seq<EventV>) -> bool {
    a.len() <= b.len() && forall|j: int| 0 <= j < a.len() ==> #[trigger] b[j] == a[j]
}

proof fn lemma_part_extends(st: ChunkState, ci: i64, i: nat, part: JsonV)
    ensures
        extends(st.events, part_step(st, ci, i, part).events),
{
}

proof fn lemma_parts_extend(st: ChunkState, ci: i64, parts: Seq<JsonV>, a: nat, b: nat)
    requires
        a <= b,
    ensures
        extends(parts_fold(st, ci, parts, a).events, parts_fold(st, ci, parts, b).events),
    decreases b,
{
    if a < b {
        lemma_parts_extend(st, ci, parts, a, (b - 1) as nat);
        lemma_part_extends(parts_fold(st, ci, parts, (b - 1) as nat), ci, (b - 1) as nat, parts[b - 1]);
    }
}

proof fn lemma_candidate_extends(st: ChunkState, candidate: JsonV)
    ensures
        extends(st.events, candidate_step(st, candidate).events),
{
    let ci = candidate_index(candidate);
    match then_array(then_get(get_v(candidate, "content"@), "parts"@)) {
        Some(parts) => lemma_parts_extend(st, ci, parts, 0, parts.len()),
        None => {},
    }
}

proof fn lemma_candidates_extend(st: ChunkState, candidates: Seq<JsonV>, a: nat, b: nat)
    requires
        a <= b,
    ensures
        extends(candidates_fold(st, candidates, a).events, candidates_fold(st, candidates, b).events),
    decreases b,
{
    if a < b {
        lemma_candidates_extend(st, candidates, a, (b - 1) as nat);
        lemma_candidate_extends(candidates_fold(st, candidates, (b - 1) as nat), candidates[b - 1]);
    }
}

/// The events of candidate `c` up to and including its part `i` stay first in
/// the events of the whole chunk.
proof fn lemma_part_events_kept(st: ChunkState, chunk: JsonV, c: int, i: int)
    requires
        then_array(get_v(chunk_body(chunk), "candidates"@)) is Some,
        0 <= c < then_array(get_v(chunk_body(chunk), "candidates"@))->Some_0.len(),
        then_array(
            then_get(get_v(then_array(get_v(chunk_body(chunk), "candidates"@))->Some_0[c], "content"@), "parts"@),
        ) is Some,
        0 <= i < then_array(
            then_get(get_v(then_array(get_v(chunk_body(chunk), "candidates"@))->Some_0[c], "content"@), "parts"@),
        )->Some_0.len(),
    ensures
        ({
            let cs = then_array(get_v(chunk_body(chunk), "candidates"@))->Some_0;
            let cand = cs[c];
            let parts = then_array(then_get(get_v(cand, "content"@), "parts"@))->Some_0;
            let sc = candidates_fold(st, cs, c as nat);
            let ci = candidate_index(cand);
            &&& parts_fold(sc, ci, parts, (i + 1) as nat) == part_step(
                parts_fold(sc, ci, parts, i as nat),
                ci,
                i as nat,
                parts[i],
            )
            &&& extends(parts_fold(sc, ci, parts, (i + 1) as nat).events, chunk_step(st, chunk).events)
        }),
{
    let cs = then_array(get_v(chunk_body(chunk), "candidates"@))->Some_0;
    let cand = cs[c];
    let parts = then_array(then_get(get_v(cand, "content"@), "parts"@))->Some_0;
    let sc = candidates_fold(st, cs, c as nat);
    let ci = candidate_index(cand);
    let after = parts_fold(sc, ci, parts, (i + 1) as nat);
    lemma_parts_extend(sc, ci, parts, (i + 1) as nat, parts.len());
    lemma_candidate_extends(sc, cand);
    let cstep = candidate_step(sc, cand);
    let pf = parts_fold(sc, ci, parts, parts.len());
    assert(extends(after.events, cstep.events)) by {
        assert(extends(pf.events, cstep.events));
        assert forall|j: int| 0 <= j < after.events.len() implies #[trigger] cstep.events[j] == after.events[j] by {
            assert(pf.events[j] == after.events[j]);
            assert(cstep.events[j] == pf.events[j]);
        }
    }
    assert(candidates_fold(st, cs, (c + 1) as nat) == cstep);
    lemma_candidates_extend(st, cs, (c + 1) as nat, cs.len());
    let all = candidates_fold(st, cs, cs.len());
    let r = chunk_step(st, chunk);
    assert(extends(after.events, r.events)) by {
        assert forall|j: int| 0 <= j < after.events.len() implies #[trigger] r.events[j] == after.events[j] by {
            assert(cstep.events[j] == after.events[j]);
            assert(all.events[j] == cstep.events[j]);
        }
    }
}

/// Every part of a chunk whose text is a non-empty string is streamed as a text
/// delta at the part's index that carries exactly that text, whitespace and
/// all: only an empty text is skipped.
pub proof fn lemma_text_parts_streamed(st: ChunkState, chunk: JsonV, c: int, i: int)
    requires
        then_array(get_v(chunk_body(chunk), "candidates"@)) is Some,
        0 <= c < then_array(get_v(chunk_body(chunk), "candidates"@))->Some_0.len(),
        then_array(
            then_get(get_v(then_array(get_v(chunk_body(chunk), "candidates"@))->Some_0[c], "content"@), "parts"@),
        ) is Some,
        0 <= i < then_array(
            then_get(get_v(then_array(get_v(chunk_body(chunk), "candidates"@))->Some_0[c], "content"@), "parts"@),
        )->Some_0.len(),
        then_str(
            get_v(
                then_array(
                    then_get(
                        get_v(then_array(get_v(chunk_body(chunk), "candidates"@))->Some_0[c], "content"@),
                        "parts"@,
                    ),
                )->Some_0[i],
                "text"@,
            ),
        ) is Some,
    ensures
        ({
            let cs = then_array(get_v(chunk_body(chunk), "candidates"@))->Some_0;
            let parts = then_array(then_get(get_v(cs[c], "content"@), "parts"@))->Some_0;
            let t = then_str(get_v(parts[i], "text"@))->Some_0;
            t.len() > 0 ==> chunk_step(st, chunk).events.contains(EventV::BlockDelta(i as u32, DeltaV::Text(t)))
        }),
{
    lemma_part_events_kept(st, chunk, c, i);
    let cs = then_array(get_v(chunk_body(chunk), "candidates"@))->Some_0;
    let cand = cs[c];
    let parts = then_array(then_get(get_v(cand, "content"@), "parts"@))->Some_0;
    let t = then_str(get_v(parts[i], "text"@))->Some_0;
    if t.len() > 0 {
        let sc = candidates_fold(st, cs, c as nat);
        let after = parts_fold(sc, candidate_index(cand), parts, (i + 1) as nat);
        let k = after.events.len() - 1;
        assert(after.events[k] == EventV::BlockDelta(i as u32, DeltaV::Text(t)));
        assert(chunk_step(st, chunk).events[k] == after.events[k]);
    }
}

/// Every function call of a chunk is streamed as a whole tool-use block at the
/// part's index: it starts with the call's name (`unknown` when it has none),
/// its arguments as given (an empty object when it has none) are sent as their
/// JSON text, and it stops.
pub proof fn lemma_call_parts_streamed(st: ChunkState, chunk: JsonV, c: int, i: int)
    requires
        then_array(get_v(chunk_body(chunk), "candidates"@)) is Some,
        0 <= c < then_array(get_v(chunk_body(chunk), "candidates"@))->Some_0.len(),
        then_array(
            then_get(get_v(then_array(get_v(chunk_body(chunk), "candidates"@))->Some_0[c], "content"@), "parts"@),
        ) is Some,
        0 <= i < then_array(
            then_get(get_v(then_array(get_v(chunk_body(chunk), "candidates"@))->Some_0[c], "content"@), "parts"@),
        )->Some_0.len(),
    ensures
        ({
            let cs = then_array(get_v(chunk_body(chunk), "candidates"@))->Some_0;
            let parts = then_array(then_get(get_v(cs[c], "content"@), "parts"@))->Some_0;
            let part = parts[i];
            let events = chunk_step(st, chunk).events;
            then_str(get_v(part, "text"@)) is None ==> match get_v(part, "functionCall"@) {
                Some(call) => {
                    let name = match get_v(call, "name"@) {
                        Some(JsonV::Str(n)) => n,
                        _ => "unknown"@,
                    };
                    let args = match get_v(call, "args"@) {
                        Some(a) => a,
                        None => JsonV::Obj(Seq::empty()),
                    };
                    exists|k: int|
                        0 <= k && k + 2 < events.len() && (#[trigger] events[k] matches EventV::BlockStart(
                            idx,
                            OutputBlockV::ToolUse(_, n, _),
                        ) && idx == i as u32 && n == name) && events[k + 1] == EventV::BlockDelta(
                            i as u32,
                            DeltaV::InputJson(json_text(args)),
                        ) && events[k + 2] == EventV::BlockStop(i as u32)
                },
                None => true,
            }
        }),
{
    lemma_part_events_kept(st, chunk, c, i);
    let cs = then_array(get_v(chunk_body(chunk), "candidates"@))->Some_0;
    let cand = cs[c];
    let parts = then_array(then_get(get_v(cand, "content"@), "parts"@))->Some_0;
    let part = parts[i];
    if then_str(get_v(part, "text"@)) is None {
        match get_v(part, "functionCall"@) {
            Some(call) => {
                let sc = candidates_fold(st, cs, c as nat);
                let after = parts_fold(sc, candidate_index(cand), parts, (i + 1) as nat);
                let events = chunk_step(st, chunk).events;
                let k = after.events.len() - 3;
                assert(events[k] == after.events[k]);
                assert(events[k + 1] == after.events[k + 1]);
                assert(events[k + 2] == after.events[k + 2]);
            },
            None => {},
        }
    }
}

}
