use vstd::prelude::*;

use crate::assoc::assoc_insert;
use crate::cache::ToolCallMeta;
use crate::client::{ClientV, GoogleAiClient};
use crate::json::{get_v, items_view, json_parse, parse_json, then_array, then_get, then_str, Json, JsonV};
use crate::json::then_u64;
use crate::stream::{call_args, call_name, candidate_index, chunk_body, chunk_step, usage_of, ChunkState};
use crate::types::EventV;
use crate::tool_ids::{call_base, push_call_base};
use crate::types::{ApiError, MessageResponse, MessageV, OutputBlockV, OutputContentBlock, Usage};

verus! {

/// Where reading the parts of an answer stands: the blocks so far and the
/// remembered tool calls.
pub struct ReadState {
    pub blocks: Seq<OutputBlockV>,
    pub tool_calls: Seq<(Seq<char>, (Seq<char>, Option<Seq<char>>))>,
}

/// One part of the first candidate, at position `i`: a text becomes a text
/// block; a function call becomes a tool-use block with the ID
/// `call_<candidate index>_<i>`, and is remembered under that ID.
pub open spec fn read_part(st: ReadState, ci: i64, i: nat, part: JsonV) -> ReadState {
    match then_str(get_v(part, "text"@)) {
        Some(t) => ReadState { blocks: st.blocks.push(OutputBlockV::Text(t)), ..st },
        None => match get_v(part, "functionCall"@) {
            Some(call) => {
                let name = call_name(call);
                let id = call_base(ci, i);
                ReadState {
                    blocks: st.blocks.push(OutputBlockV::ToolUse(id, name, call_args(call))),
                    tool_calls: assoc_insert(st.tool_calls, id, (name, then_str(get_v(part, "thoughtSignature"@)))),
                }
            },
            None => st,
        },
    }
}

/// The first `n` parts, in order.
pub open spec fn read_parts(st: ReadState, ci: i64, parts: Seq<JsonV>, n: nat) -> ReadState
    decreases n,
{
    if n == 0 {
        st
    } else {
        read_part(read_parts(st, ci, parts, (n - 1) as nat), ci, (n - 1) as nat, parts[n - 1])
    }
}

/// The index and the parts of the first candidate of an answer, when it has them.
pub open spec fn first_candidate_parts(data: JsonV) -> Option<(i64, Seq<JsonV>)> {
    match then_array(get_v(chunk_body(data), "candidates"@)) {
        Some(cs) => if cs.len() > 0 {
            match then_array(then_get(get_v(cs[0], "content"@), "parts"@)) {
                Some(parts) => Some((candidate_index(cs[0]), parts)),
                None => None,
            }
        } else {
            None
        },
        None => None,
    }
}

/// The parts of the first candidate of an answer, read in order.
pub open spec fn read_answer(
    data: JsonV,
    tool_calls: Seq<(Seq<char>, (Seq<char>, Option<Seq<char>>))>,
) -> ReadState {
    let st = ReadState { blocks: Seq::empty(), tool_calls };
    match first_candidate_parts(data) {
        Some((ci, parts)) => read_parts(st, ci, parts, parts.len()),
        None => st,
    }
}

/// The token counts of an answer: from `usageMetadata`, or all zero.
pub open spec fn answer_usage(data: JsonV) -> Usage {
    match get_v(chunk_body(data), "usageMetadata"@) {
        Some(u) => usage_of(u),
        None => Usage::zero(),
    }
}

/// The message that an answer of `generateContent` becomes.
pub open spec fn answer_message(
    data: JsonV,
    model: Seq<char>,
    tool_calls: Seq<(Seq<char>, (Seq<char>, Option<Seq<char>>))>,
) -> MessageV {
    MessageV {
        id: "gemini_msg"@,
        kind: "message"@,
        role: "assistant"@,
        content: read_answer(data, tool_calls).blocks,
        model,
        stop_reason: None,
        stop_sequence: None,
        usage: answer_usage(data),
        request_id: None,
    }
}

fn usage_from(u: &Json) -> (r: Usage)
    ensures
        r == usage_of(u@),
{
    let input_tokens = match u.get_u64("promptTokenCount") {
        Some(n) => n,
        None => 0,
    } as u32;
    let output_tokens = match u.get_u64("candidatesTokenCount") {
        Some(n) => n,
        None => 0,
    } as u32;
    let cache_read = match u.get_u64("cachedContentTokenCount") {
        Some(n) => n,
        None => 0,
    } as u32;
    Usage { input_tokens, output_tokens, cache_creation_input_tokens: 0, cache_read_input_tokens: cache_read }
}

proof fn lemma_blocks_push(v: Seq<OutputContentBlock>, b: OutputContentBlock)
    ensures
        v.push(b).map_values(|x: OutputContentBlock| x@) == v.map_values(|x: OutputContentBlock| x@).push(b@),
{
    assert(v.push(b).map_values(|x: OutputContentBlock| x@) =~= v.map_values(|x: OutputContentBlock| x@).push(
        b@,
    ));
}

impl GoogleAiClient {
    fn read_one_part(&mut self, ci: i64, i: usize, part: &Json, blocks: &mut Vec<OutputContentBlock>)
        ensures
            ({
                let st = read_part(
                    ReadState {
                        blocks: old(blocks)@.map_values(|x: OutputContentBlock| x@),
                        tool_calls: old(self)@.tool_calls,
                    },
                    ci,
                    i as nat,
                    part@,
                );
                &&& final(blocks)@.map_values(|x: OutputContentBlock| x@) == st.blocks
                &&& final(self)@ == ClientV { tool_calls: st.tool_calls, ..old(self)@ }
            }),
    {
        match part.get_str("text") {
            Some(t) => {
                let b = OutputContentBlock::Text { text: t.clone() };
                proof {
                    lemma_blocks_push(blocks@, b);
                }
                blocks.push(b);
            },
            None => {
                match part.get("functionCall") {
                    Some(call) => {
                        let name = match call.get_str("name") {
                            Some(n) => n.clone(),
                            None => String::from_str("unknown"),
                        };
                        let args = match call.get("args") {
                            Some(a) => a.deep_copy(),
                            None => Json::empty_object(),
                        };
                        let sig: Option<String> = match part.get_str("thoughtSignature") {
                            Some(s) => Some(s.clone()),
                            None => None,
                        };
                        let mut id = String::new();
                        push_call_base(&mut id, ci, i as u64);
                        proof {
                            assert(id@ =~= call_base(ci, i as nat));
                        }
                        let b = OutputContentBlock::ToolUse { id: id.clone(), name: name.clone(), input: args };
                        proof {
                            lemma_blocks_push(blocks@, b);
                        }
                        blocks.push(b);
                        self.remember_tool_call(id, ToolCallMeta { name, thought_signature: sig });
                    },
                    None => {},
                }
            },
        }
    }

    /// Reads the answer of a `generateContent` call into a message for `model`.
    /// The function calls of the first candidate are remembered under their IDs.
    pub fn read_generate_response(&mut self, data: &Json, model: &String) -> (r: MessageResponse)
        ensures
            r@ == answer_message(data@, model@, old(self)@.tool_calls),
            final(self)@ == (ClientV {
                tool_calls: read_answer(data@, old(self)@.tool_calls).tool_calls,
                ..old(self)@
            }),
    {
        let ghost client0 = self@;
        let body: &Json = match data.get("response") {
            Some(r) => r,
            None => data,
        };
        let mut blocks: Vec<OutputContentBlock> = Vec::new();
        proof {
            assert(blocks@.map_values(|x: OutputContentBlock| x@) =~= Seq::<OutputBlockV>::empty());
        }
        match body.get_array("candidates") {
            Some(cs) => {
                if cs.len() > 0 {
                    let first = &cs[0];
                    let ci: i64 = match first.get_i64("index") {
                        Some(x) => x,
                        None => 0,
                    };
                    let parts: Option<&Vec<Json>> = match first.get("content") {
                        Some(content) => content.get_array("parts"),
                        None => None,
                    };
                    match parts {
                        Some(parts) => {
                            let ghost pv = items_view(parts@);
                            let ghost st0 = ReadState { blocks: Seq::empty(), tool_calls: client0.tool_calls };
                            let mut i: usize = 0;
                            while i < parts.len()
                                invariant
                                    i <= parts.len(),
                                    pv == items_view(parts@),
                                    ci == candidate_index(first@),
                                    ({
                                        let st = read_parts(st0, ci, pv, i as nat);
                                        &&& blocks@.map_values(|x: OutputContentBlock| x@) == st.blocks
                                        &&& self@ == ClientV { tool_calls: st.tool_calls, ..client0 }
                                    }),
                                decreases parts.len() - i,
                            {
                                self.read_one_part(ci, i, &parts[i], &mut blocks);
                                i = i + 1;
                            }
                        },
                        None => {},
                    }
                }
            },
            None => {},
        }
        let usage = match body.get("usageMetadata") {
            Some(u) => usage_from(u),
            None => Usage { input_tokens: 0, output_tokens: 0, cache_creation_input_tokens: 0, cache_read_input_tokens: 0 },
        };
        MessageResponse {
            id: String::from_str("gemini_msg"),
            kind: String::from_str("message"),
            role: String::from_str("assistant"),
            content: blocks,
            model: model.clone(),
            stop_reason: None,
            stop_sequence: None,
            usage,
            request_id: None,
        }
    }

    /// Reads the body of a `generateContent` answer for `model`: the message
    /// that the JSON it holds becomes, its function calls remembered as
    /// `read_generate_response` does, or a JSON error, with nothing
    /// remembered, when the body is not JSON.
    pub fn read_generate_body(&mut self, body: &str, model: &String) -> (r: Result<MessageResponse, ApiError>)
        ensures
            match json_parse(body@) {
                Some(d) => {
                    &&& r matches Ok(m) && m@ == answer_message(d, model@, old(self)@.tool_calls)
                    &&& final(self)@ == (ClientV {
                        tool_calls: read_answer(d, old(self)@.tool_calls).tool_calls,
                        ..old(self)@
                    })
                },
                None => {
                    &&& r matches Err(ApiError::Json { provider, model: m, body: b, .. }) && provider@ == "Google"@
                        && m@ == model@ && b@ == body@
                    &&& final(self)@ == old(self)@
                },
            },
    {
        match parse_json(body) {
            Ok(data) => Ok(self.read_generate_response(&data, model)),
            Err(detail) => Err(
                ApiError::Json {
                    provider: String::from_str("Google"),
                    model: model.clone(),
                    body: body.to_owned(),
                    detail,
                },
            ),
        }
    }
}

/// The usage of a whole answer is read from its `usageMetadata`: the prompt,
/// candidates and cached-content token counts, each cut to 32 bits and 0 when
/// absent or not a `u64`, and no cache creation; all zero without
/// `usageMetadata`. It is the usage that a streamed chunk with the same body
/// reports in its message delta.
pub proof fn lemma_answer_usage_read(data: JsonV, st: ChunkState)
    ensures
        match get_v(chunk_body(data), "usageMetadata"@) {
            Some(u) => {
                &&& answer_usage(data).input_tokens == (match then_u64(get_v(u, "promptTokenCount"@)) {
                    Some(n) => n,
                    None => 0,
                }) as u32
                &&& answer_usage(data).output_tokens == (match then_u64(get_v(u, "candidatesTokenCount"@)) {
                    Some(n) => n,
                    None => 0,
                }) as u32
                &&& answer_usage(data).cache_read_input_tokens == (match then_u64(
                    get_v(u, "cachedContentTokenCount"@),
                ) {
                    Some(n) => n,
                    None => 0,
                }) as u32
                &&& answer_usage(data).cache_creation_input_tokens == 0
                &&& (answer_usage(data).input_tokens > 0 || answer_usage(data).output_tokens > 0)
                    ==> chunk_step(st, data).events.last() == EventV::MessageDelta(None, None, answer_usage(data))
            },
            None => {
                &&& answer_usage(data).input_tokens == 0
                &&& answer_usage(data).output_tokens == 0
                &&& answer_usage(data).cache_read_input_tokens == 0
                &&& answer_usage(data).cache_creation_input_tokens == 0
            },
        },
{
}

proof fn lemma_read_parts_extend(st: ReadState, ci: i64, parts: Seq<JsonV>, a: nat, b: nat)
    requires
        a <= b,
    ensures
        read_parts(st, ci, parts, a).blocks.len() <= read_parts(st, ci, parts, b).blocks.len(),
        forall|q: int|
            0 <= q < read_parts(st, ci, parts, a).blocks.len() ==> #[trigger] read_parts(st, ci, parts, b).blocks[q]
                == read_parts(st, ci, parts, a).blocks[q],
    decreases b,
{
    if a < b {
        lemma_read_parts_extend(st, ci, parts, a, (b - 1) as nat);
    }
}

/// Every part of the first candidate of a whole answer is read into the
/// message: a text part as a text block holding exactly its text, and a
/// function call as a tool-use block with the ID `call_<candidate index>_<j>`,
/// the call's name (`unknown` when it has none) and its arguments as given
/// (an empty object when it has none).
pub proof fn lemma_answer_parts_read(
    data: JsonV,
    model: Seq<char>,
    calls: Seq<(Seq<char>, (Seq<char>, Option<Seq<char>>))>,
    j: int,
)
    requires
        first_candidate_parts(data) is Some,
        0 <= j < first_candidate_parts(data)->Some_0.1.len(),
    ensures
        ({
            let ci = first_candidate_parts(data)->Some_0.0;
            let part = first_candidate_parts(data)->Some_0.1[j];
            let content = answer_message(data, model, calls).content;
            match then_str(get_v(part, "text"@)) {
                Some(t) => content.contains(OutputBlockV::Text(t)),
                None => match get_v(part, "functionCall"@) {
                    Some(call) => content.contains(
                        OutputBlockV::ToolUse(
                            call_base(ci, j as nat),
                            match get_v(call, "name"@) {
                                Some(JsonV::Str(n)) => n,
                                _ => "unknown"@,
                            },
                            match get_v(call, "args"@) {
                                Some(a) => a,
                                None => JsonV::Obj(Seq::empty()),
                            },
                        ),
                    ),
                    None => true,
                },
            }
        }),
{
    let (ci, parts) = first_candidate_parts(data)->Some_0;
    let st = ReadState { blocks: Seq::empty(), tool_calls: calls };
    let part = parts[j];
    let before = read_parts(st, ci, parts, j as nat);
    let after = read_parts(st, ci, parts, (j + 1) as nat);
    assert(after == read_part(before, ci, j as nat, part));
    lemma_read_parts_extend(st, ci, parts, (j + 1) as nat, parts.len());
    let all = read_parts(st, ci, parts, parts.len());
    assert(answer_message(data, model, calls).content == all.blocks);
    match then_str(get_v(part, "text"@)) {
        Some(t) => {
            let k = after.blocks.len() - 1;
            assert(all.blocks[k] == after.blocks[k]);
        },
        None => match get_v(part, "functionCall"@) {
            Some(call) => {
                let k = after.blocks.len() - 1;
                assert(all.blocks[k] == after.blocks[k]);
            },
            None => {},
        },
    }
}

}

