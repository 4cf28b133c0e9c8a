use vstd::prelude::*;

use crate::assoc::{assoc_get, assoc_insert, lemma_assoc_get_at, lemma_assoc_get_insert};
use crate::client::GoogleAiClient;
use crate::json::{get_v, items_view, members_view, then_array, then_get, then_str, Json, JsonV};
use crate::response::{first_candidate_parts, read_answer, read_parts, ReadState};
use crate::stream::{
    call_name, candidate_index, candidates_fold, chunk_body, chunk_step, part_step, parts_fold, ChunkState,
};
use crate::schema::{sanitize_v, sanitized};
use crate::text::{
    contains_delim, delim_at, find_delim, has_delim, id_pieces, lemma_find_delim, same_text, split_from, split_id, tool_delim,
};
use crate::tool_ids::{
    call_base, id_signature, id_tool_name, joins_cleanly, lemma_call_base_injective, lemma_call_base_no_at, lemma_stream_id_round_trip, stream_tool_id,
};
use crate::types::{opt_view, ApiError, InputContentBlock, InputMessage, MessageRequest, ToolDefinition, ToolResultContentBlock};

verus! {

/// Whether `c` is a lowercase hexadecimal digit.
pub open spec fn is_lower_hex(c: char) -> bool {
    ('0' <= c && c <= '9') || ('a' <= c && c <= 'f')
}

/// The text of a version 4 UUID as `Uuid::to_string` writes it: 36 lowercase
/// hexadecimal digits and hyphens in the 8-4-4-4-12 layout, version digit 4,
/// variant digit one of 8, 9, a, b.
pub open spec fn is_uuid_v4_text(s: Seq<char>) -> bool {
    &&& s.len() == 36
    &&& forall|i: int|
        0 <= i < 36 ==> if i == 8 || i == 13 || i == 18 || i == 23 {
            s[i] == '-'
        } else if i == 14 {
            s[i] == '4'
        } else if i == 19 {
            s[i] == '8' || s[i] == '9' || s[i] == 'a' || s[i] == 'b'
        } else {
            is_lower_hex(s[i])
        }
}

/// A fresh random ID: `uuid::Uuid::new_v4().to_string()`. Trusted: the contract
/// claims the textual shape that every outcome has, as the uuid source shows it
/// (`new_v4` sets the version and variant bits; `Display` writes the lowercase
/// hyphenated form); which UUID comes out is chance and is left open.
#[verifier::external_body]
fn new_prompt_id() -> (s: String)
    ensures
        is_uuid_v4_text(s@),
{
    uuid::Uuid::new_v4().to_string()
}

/// Gemini's name for the role of a message: `user` stays, every other role is `model`.
pub open spec fn role_name(role: Seq<char>) -> Seq<char> {
    if role == "user"@ {
        "user"@
    } else {
        "model"@
    }
}

/// The thought signature to send back with a tool call: from its ID when the
/// ID holds the delimiter, else from the call remembered under the ID.
pub open spec fn signature_for(
    id: Seq<char>,
    calls: Seq<(Seq<char>, (Seq<char>, Option<Seq<char>>))>,
) -> Option<Seq<char>> {
    if has_delim(id) {
        id_signature(id)
    } else {
        match assoc_get(calls, id) {
            Some(meta) => meta.1,
            None => None,
        }
    }
}

/// The tool name of a tool result: from the call's ID when it holds the
/// delimiter, else from the call remembered under the ID, else `unknown_tool`.
pub open spec fn tool_name_for(id: Seq<char>, calls: Seq<(Seq<char>, (Seq<char>, Option<Seq<char>>))>) -> Seq<
    char,
> {
    if has_delim(id) {
        id_tool_name(id)
    } else {
        match assoc_get(calls, id) {
            Some(meta) => meta.0,
            None => "unknown_tool"@,
        }
    }
}

/// What a tool result answers: its first block (a JSON value as it is, a text
/// as `{"output": text}`), or `{"output": "success"}` when it has none.
pub open spec fn tool_response_value(content: Seq<ToolResultContentBlock>) -> JsonV {
    if content.len() == 0 {
        JsonV::Obj(seq![("output"@, JsonV::Str("success"@))])
    } else {
        match content[0] {
            ToolResultContentBlock::Json { value } => value@,
            ToolResultContentBlock::Text { text } => JsonV::Obj(seq![("output"@, JsonV::Str(text@))]),
        }
    }
}

/// The part that a tool call becomes.
pub open spec fn tool_use_part(
    id: Seq<char>,
    name: Seq<char>,
    input: JsonV,
    calls: Seq<(Seq<char>, (Seq<char>, Option<Seq<char>>))>,
) -> JsonV {
    let call = JsonV::Obj(seq![("name"@, JsonV::Str(name)), ("args"@, input)]);
    match signature_for(id, calls) {
        Some(sig) => JsonV::Obj(seq![("functionCall"@, call), ("thoughtSignature"@, JsonV::Str(sig))]),
        None => JsonV::Obj(seq![("functionCall"@, call)]),
    }
}

/// The part that a tool result becomes.
pub open spec fn tool_result_part(
    id: Seq<char>,
    content: Seq<ToolResultContentBlock>,
    calls: Seq<(Seq<char>, (Seq<char>, Option<Seq<char>>))>,
) -> JsonV {
    JsonV::Obj(
        seq![
            ("functionResponse"@, JsonV::Obj(
                seq![("name"@, JsonV::Str(tool_name_for(id, calls))), ("response"@, tool_response_value(content))],
            )),
        ],
    )
}

/// The part that a block of a message becomes.
pub open spec fn block_part(b: InputContentBlock, calls: Seq<(Seq<char>, (Seq<char>, Option<Seq<char>>))>) -> JsonV {
    match b {
        InputContentBlock::Text { text } => JsonV::Obj(seq![("text"@, JsonV::Str(text@))]),
        InputContentBlock::ToolUse { id, name, input } => tool_use_part(id@, name@, input@, calls),
        InputContentBlock::ToolResult { tool_use_id, content, is_error } => tool_result_part(
            tool_use_id@,
            content@,
            calls,
        ),
    }
}

/// The content entry that a message becomes: its role and its parts.
pub open spec fn message_json(m: InputMessage, calls: Seq<(Seq<char>, (Seq<char>, Option<Seq<char>>))>) -> JsonV {
    JsonV::Obj(
        seq![
            ("role"@, JsonV::Str(role_name(m.role@))),
            ("parts"@, JsonV::Arr(Seq::new(m.content@.len(), |k: int| block_part(m.content@[k], calls)))),
        ],
    )
}

/// The function declaration that a tool becomes, with its schema sanitized.
pub open spec fn tool_declaration(t: ToolDefinition) -> JsonV {
    JsonV::Obj(
        seq![
            ("name"@, JsonV::Str(t.name@)),
            ("description"@, JsonV::Str(
                match t.description {
                    Some(d) => d@,
                    None => Seq::empty(),
                },
            )),
            ("parameters"@, sanitize_v(t.input_schema@)),
        ],
    )
}

/// The `request` member of the payload: the contents, then the system
/// instruction and the tools when the request has them.
pub open spec fn inner_request(req: MessageRequest, calls: Seq<(Seq<char>, (Seq<char>, Option<Seq<char>>))>) -> JsonV {
    let contents = JsonV::Arr(Seq::new(req.messages@.len(), |i: int| message_json(req.messages@[i], calls)));
    let system = match req.system {
        Some(sys) => seq![
            ("systemInstruction"@, JsonV::Obj(
                seq![("parts"@, JsonV::Arr(seq![JsonV::Obj(seq![("text"@, JsonV::Str(sys@))])]))],
            )),
        ],
        None => Seq::empty(),
    };
    let tools = match req.tools {
        Some(ts) => seq![
            ("tools"@, JsonV::Arr(
                seq![
                    JsonV::Obj(
                        seq![
                            ("function_declarations"@, JsonV::Arr(
                                Seq::new(ts@.len(), |k: int| tool_declaration(ts@[k])),
                            )),
                        ],
                    ),
                ],
            )),
        ],
        None => Seq::empty(),
    };
    JsonV::Obj(seq![("contents"@, contents)] + system + tools)
}

/// The payload sent to the Code Assist endpoint for a request.
pub open spec fn request_payload(
    req: MessageRequest,
    project_id: Seq<char>,
    user_prompt_id: Seq<char>,
    calls: Seq<(Seq<char>, (Seq<char>, Option<Seq<char>>))>,
) -> JsonV {
    JsonV::Obj(
        seq![
            ("model"@, JsonV::Str(req.model@)),
            ("project"@, JsonV::Str(project_id)),
            ("user_prompt_id"@, JsonV::Str(user_prompt_id)),
            ("request"@, inner_request(req, calls)),
        ],
    )
}

proof fn lemma_pieces_of_delimited(s: Seq<char>)
    requires
        has_delim(s),
    ensures
        id_pieces(s).len() >= 2,
{
    lemma_find_delim(s, 0);
    let k = find_delim(s, 0);
    lemma_split_nonempty(s, (k + 5) as nat);
}

proof fn lemma_split_nonempty(s: Seq<char>, start: nat)
    ensures
        split_from(s, start).len() >= 1,
    decreases s.len() - start,
{
    lemma_find_delim(s, start);
    let k = find_delim(s, start);
    if k >= 0 && s.len() >= start {
        lemma_split_nonempty(s, (k + 5) as nat);
    }
}

fn tool_response_json(content: &Vec<ToolResultContentBlock>) -> (r: Json)
    ensures
        r@ == tool_response_value(content@),
{
    if content.len() == 0 {
        Json::object1("output", Json::text("success"))
    } else {
        match &content[0] {
            ToolResultContentBlock::Json { value } => value.deep_copy(),
            ToolResultContentBlock::Text { text } => Json::object1("output", Json::text(text.as_str())),
        }
    }
}

impl GoogleAiClient {
    fn signature_of(&self, id: &String) -> (r: Option<String>)
        ensures
            opt_view(r) == signature_for(id@, self@.tool_calls),
    {
        if contains_delim(id.as_str()) {
            let pieces = split_id(id.as_str());
            proof {
                lemma_pieces_of_delimited(id@);
                assert(pieces@.len() == id_pieces(id@).len());
            }
            if pieces.len() >= 3 && !pieces[2].as_str().is_empty() {
                proof {
                    assert(pieces@[2]@ == id_pieces(id@)[2]);
                }
                Some(pieces[2].clone())
            } else {
                proof {
                    assert(pieces@.len() >= 3 ==> pieces@[2]@ == id_pieces(id@)[2]);
                }
                None
            }
        } else {
            match self.tool_call_cache().get(id.as_str()) {
                Some(meta) => match &meta.thought_signature {
                    Some(sig) => Some(sig.clone()),
                    None => None,
                },
                None => None,
            }
        }
    }

    fn tool_name_of(&self, id: &String) -> (r: String)
        ensures
            r@ == tool_name_for(id@, self@.tool_calls),
    {
        if contains_delim(id.as_str()) {
            let pieces = split_id(id.as_str());
            proof {
                lemma_pieces_of_delimited(id@);
                assert(pieces@.len() == id_pieces(id@).len());
                assert(pieces@[1]@ == id_pieces(id@)[1]);
            }
            pieces[1].clone()
        } else {
            match self.tool_call_cache().get(id.as_str()) {
                Some(meta) => meta.name.clone(),
                None => "unknown_tool".to_owned(),
            }
        }
    }

    fn block_json(&self, block: &InputContentBlock) -> (r: Json)
        ensures
            r@ == block_part(*block, self@.tool_calls),
    {
        match block {
            InputContentBlock::Text { text } => Json::object1("text", Json::text(text.as_str())),
            InputContentBlock::ToolUse { id, name, input } => {
                let call = Json::object2("name", Json::text(name.as_str()), "args", input.deep_copy());
                match self.signature_of(id) {
                    Some(sig) => Json::object2("functionCall", call, "thoughtSignature", Json::text(sig.as_str())),
                    None => Json::object1("functionCall", call),
                }
            },
            InputContentBlock::ToolResult { tool_use_id, content, is_error: _ } => {
                let response = tool_response_json(content);
                let name = self.tool_name_of(tool_use_id);
                Json::object1(
                    "functionResponse",
                    Json::object2("name", Json::text(name.as_str()), "response", response),
                )
            },
        }
    }

    fn message_content(&self, msg: &InputMessage) -> (r: Json)
        ensures
            r@ == message_json(*msg, self@.tool_calls),
    {
        let role = if same_text(msg.role.as_str(), "user") {
            "user"
        } else {
            "model"
        };
        let mut parts: Vec<Json> = Vec::new();
        let mut k: usize = 0;
        while k < msg.content.len()
            invariant
                k <= msg.content.len(),
                parts@.len() == k,
                forall|q: int| 0 <= q < k ==> #[trigger] parts@[q]@ == block_part(msg.content@[q], self@.tool_calls),
            decreases msg.content.len() - k,
        {
            let part = self.block_json(&msg.content[k]);
            parts.push(part);
            k = k + 1;
        }
        proof {
            assert forall|q: int| 0 <= q < parts@.len() implies items_view(parts@)[q] == block_part(
                msg.content@[q],
                self@.tool_calls,
            ) by {
                assert(parts@[q]@ == block_part(msg.content@[q], self@.tool_calls));
            }
            assert(items_view(parts@) =~= Seq::new(
                msg.content@.len(),
                |q: int| block_part(msg.content@[q], self@.tool_calls),
            ));
        }
        Json::object2("role", Json::text(role), "parts", Json::array(parts))
    }

    /// The Gemini payload for a request, with `user_prompt_id` as its prompt ID.
    pub fn translate_request_with_prompt_id(
        &self,
        request: &MessageRequest,
        project_id: &str,
        user_prompt_id: &str,
    ) -> (r: Result<Json, ApiError>)
        ensures
            r matches Ok(p) && p@ == request_payload(*request, project_id@, user_prompt_id@, self@.tool_calls),
    {
        let mut contents: Vec<Json> = Vec::new();
        let mut i: usize = 0;
        while i < request.messages.len()
            invariant
                i <= request.messages.len(),
                contents@.len() == i,
                forall|q: int|
                    0 <= q < i ==> #[trigger] contents@[q]@ == message_json(request.messages@[q], self@.tool_calls),
            decreases request.messages.len() - i,
        {
            let c = self.message_content(&request.messages[i]);
            contents.push(c);
            i = i + 1;
        }
        proof {
            assert forall|q: int| 0 <= q < contents@.len() implies items_view(contents@)[q] == message_json(
                request.messages@[q],
                self@.tool_calls,
            ) by {
                assert(contents@[q]@ == message_json(request.messages@[q], self@.tool_calls));
            }
            assert(items_view(contents@) =~= Seq::new(
                request.messages@.len(),
                |q: int| message_json(request.messages@[q], self@.tool_calls),
            ));
        }
        let ghost cv = items_view(contents@);
        let mut members: Vec<(String, Json)> = Vec::new();
        members.push(("contents".to_owned(), Json::array(contents)));
        match &request.system {
            Some(sys) => {
                let part = Json::object1("text", Json::text(sys.as_str()));
                let mut ps: Vec<Json> = Vec::new();
                ps.push(part);
                let instruction = Json::object1("parts", Json::array(ps));
                proof {
                    assert(items_view(ps@) =~= seq![JsonV::Obj(seq![("text"@, JsonV::Str(sys@))])]);
                }
                members.push(("systemInstruction".to_owned(), instruction));
            },
            None => {},
        }
        match &request.tools {
            Some(tools) => {
                let mut decls: Vec<Json> = Vec::new();
                let mut k: usize = 0;
                while k < tools.len()
                    invariant
                        k <= tools.len(),
                        decls@.len() == k,
                        forall|q: int| 0 <= q < k ==> #[trigger] decls@[q]@ == tool_declaration(tools@[q]),
                    decreases tools.len() - k,
                {
                    let t = &tools[k];
                    let description = match &t.description {
                        Some(d) => d.clone(),
                        None => String::new(),
                    };
                    let decl = Json::object3(
                        "name",
                        Json::text(t.name.as_str()),
                        "description",
                        Json::text(description.as_str()),
                        "parameters",
                        sanitized(&t.input_schema),
                    );
                    proof {
                        let fields = seq![
                            ("name"@, JsonV::Str(t.name@)),
                            ("description"@, JsonV::Str(description@)),
                            ("parameters"@, sanitize_v(t.input_schema@)),
                        ];
                        assert(tool_declaration(tools@[k as int])->Obj_0 =~= fields);
                    }
                    let ghost before = decls@;
                    decls.push(decl);
                    proof {
                        assert forall|q: int| 0 <= q < k + 1 implies #[trigger] decls@[q]@ == tool_declaration(tools@[q]) by {
                            if q < k {
                                assert(decls@[q] == before[q]);
                            }
                        }
                    }
                    k = k + 1;
                }
                proof {
                    assert forall|q: int| 0 <= q < decls@.len() implies items_view(decls@)[q] == tool_declaration(
                        tools@[q],
                    ) by {
                        assert(decls@[q]@ == tool_declaration(tools@[q]));
                    }
                    assert(items_view(decls@) =~= Seq::new(tools@.len(), |q: int| tool_declaration(tools@[q])));
                }
                let mut wrapper: Vec<Json> = Vec::new();
                wrapper.push(Json::object1("function_declarations", Json::array(decls)));
                members.push(("tools".to_owned(), Json::array(wrapper)));
                proof {
                    assert(items_view(wrapper@) =~= seq![wrapper@[0]@]);
                }
            },
            None => {},
        }
        let inner = Json::object(members);
        proof {
            assert(inner@ == inner_request(*request, self@.tool_calls)) by {
                assert(members_view(members@) =~= match inner_request(*request, self@.tool_calls) {
                    JsonV::Obj(m) => m,
                    _ => Seq::empty(),
                });
            }
        }
        let ghost iv = inner@;
        let mut top: Vec<(String, Json)> = Vec::new();
        top.push(("model".to_owned(), Json::text(request.model.as_str())));
        top.push(("project".to_owned(), Json::text(project_id)));
        top.push(("user_prompt_id".to_owned(), Json::text(user_prompt_id)));
        top.push(("request".to_owned(), inner));
        let payload = Json::object(top);
        proof {
            assert(members_view(top@) =~= seq![
                ("model"@, JsonV::Str(request.model@)),
                ("project"@, JsonV::Str(project_id@)),
                ("user_prompt_id"@, JsonV::Str(user_prompt_id@)),
                ("request"@, iv),
            ]);
        }
        Ok(payload)
    }

    /// The Gemini payload for a request, with a fresh random prompt ID. Every
    /// tool call is sent with the thought signature carried by its ID or
    /// remembered for it, and every tool result with its tool's name.
    pub fn translate_request(&self, request: &MessageRequest, project_id: &str) -> (r: Result<Json, ApiError>)
        ensures
            r matches Ok(p) && exists|id: Seq<char>|
                is_uuid_v4_text(id) && p@ == request_payload(*request, project_id@, id, self@.tool_calls),
    {
        let id = new_prompt_id();
        let r = self.translate_request_with_prompt_id(request, project_id, id.as_str());
        proof {
            assert(is_uuid_v4_text(id@));
        }
        r
    }
}


/// A tool call that streaming gave an ID is sent back with its thought
/// signature (when it had a non-empty one) and its result with the tool's
/// name, whatever the client remembers, when the name joins the delimiter
/// cleanly and the signature holds no delimiter.
pub proof fn lemma_streamed_call_round_trip(
    candidate_index: i64,
    part_index: nat,
    name: Seq<char>,
    sig: Seq<char>,
    calls: Seq<(Seq<char>, (Seq<char>, Option<Seq<char>>))>,
)
    requires
        joins_cleanly(name),
        !has_delim(sig),
    ensures
        signature_for(stream_tool_id(call_base(candidate_index, part_index), name, sig), calls) == (if sig.len()
            > 0 {
            Some(sig)
        } else {
            None
        }),
        tool_name_for(stream_tool_id(call_base(candidate_index, part_index), name, sig), calls) == name,
{
    lemma_stream_id_round_trip(candidate_index, part_index, name, sig);
}

/// A tool call remembered under `call_<i>_<j>` is sent back with the thought
/// signature remembered for it, and its result with the tool's name remembered
/// for it: such an ID holds no delimiter.
pub proof fn lemma_remembered_call_round_trip(
    candidate_index: i64,
    part_index: nat,
    name: Seq<char>,
    sig: Option<Seq<char>>,
    calls: Seq<(Seq<char>, (Seq<char>, Option<Seq<char>>))>,
)
    requires
        assoc_get(calls, call_base(candidate_index, part_index)) == Some((name, sig)),
    ensures
        signature_for(call_base(candidate_index, part_index), calls) == sig,
        tool_name_for(call_base(candidate_index, part_index), calls) == name,
{
    let id = call_base(candidate_index, part_index);
    lemma_call_base_no_at(candidate_index, part_index);
    lemma_find_delim(id, 0);
    if find_delim(id, 0) >= 0 {
        let k = find_delim(id, 0);
        assert(id.subrange(k, k + 5)[2] == tool_delim()[2]);
        assert(id[k + 2] == '@');
    }
}

proof fn lemma_read_parts_remembers(
    st: ReadState,
    ci: i64,
    parts: Seq<JsonV>,
    n: nat,
    j: nat,
)
    requires
        j < n <= parts.len(),
        then_str(get_v(parts[j as int], "text"@)) is None,
        get_v(parts[j as int], "functionCall"@) is Some,
    ensures
        assoc_get(read_parts(st, ci, parts, n).tool_calls, call_base(ci, j)) == Some(
            (
                call_name(get_v(parts[j as int], "functionCall"@)->Some_0),
                then_str(get_v(parts[j as int], "thoughtSignature"@)),
            ),
        ),
    decreases n,
{
    let prev = read_parts(st, ci, parts, (n - 1) as nat);
    let part = parts[n - 1];
    if n - 1 == j {
        let call = get_v(part, "functionCall"@)->Some_0;
        lemma_assoc_get_insert(
            prev.tool_calls,
            call_base(ci, j),
            (call_name(call), then_str(get_v(part, "thoughtSignature"@))),
            call_base(ci, j),
        );
    } else {
        lemma_read_parts_remembers(st, ci, parts, (n - 1) as nat, j);
        match then_str(get_v(part, "text"@)) {
            Some(_) => {},
            None => match get_v(part, "functionCall"@) {
                Some(call) => {
                    if call_base(ci, (n - 1) as nat) == call_base(ci, j) {
                        lemma_call_base_injective(ci, (n - 1) as nat, j);
                    }
                    lemma_assoc_get_insert(
                        prev.tool_calls,
                        call_base(ci, (n - 1) as nat),
                        (call_name(call), then_str(get_v(part, "thoughtSignature"@))),
                        call_base(ci, j),
                    );
                },
                None => {},
            },
        }
    }
}

/// A function call in a whole answer is remembered under `call_<i>_<j>`, with
/// its name and thought signature, whatever the answer holds besides; the
/// call is then sent back with that signature and its result with that name,
/// for as long as no other call is remembered under that ID.
pub proof fn lemma_answered_call_round_trip(
    data: JsonV,
    calls: Seq<(Seq<char>, (Seq<char>, Option<Seq<char>>))>,
    j: nat,
)
    requires
        first_candidate_parts(data) is Some,
        j < first_candidate_parts(data)->Some_0.1.len(),
        then_str(get_v(first_candidate_parts(data)->Some_0.1[j as int], "text"@)) is None,
        get_v(first_candidate_parts(data)->Some_0.1[j as int], "functionCall"@) is Some,
    ensures
        ({
            let ci = first_candidate_parts(data)->Some_0.0;
            let part = first_candidate_parts(data)->Some_0.1[j as int];
            let name = call_name(get_v(part, "functionCall"@)->Some_0);
            let sig = then_str(get_v(part, "thoughtSignature"@));
            let after = read_answer(data, calls).tool_calls;
            &&& assoc_get(after, call_base(ci, j)) == Some((name, sig))
            &&& signature_for(call_base(ci, j), after) == sig
            &&& tool_name_for(call_base(ci, j), after) == name
        }),
{
    let (ci, parts) = first_candidate_parts(data)->Some_0;
    let st = ReadState { blocks: Seq::empty(), tool_calls: calls };
    lemma_read_parts_remembers(st, ci, parts, parts.len(), j);
    let part = parts[j as int];
    lemma_remembered_call_round_trip(
        ci,
        j,
        call_name(get_v(part, "functionCall"@)->Some_0),
        then_str(get_v(part, "thoughtSignature"@)),
        read_answer(data, calls).tool_calls,
    );
}

/// A later read that may remember tool calls: a whole answer, or a streamed
/// chunk read while the given text blocks are open.
pub enum LaterRead {
    Answer(JsonV),
    Chunk(Seq<u32>, JsonV),
}

/// The tool calls remembered after a later read.
pub open spec fn calls_after(
    calls: Seq<(Seq<char>, (Seq<char>, Option<Seq<char>>))>,
    r: LaterRead,
) -> Seq<(Seq<char>, (Seq<char>, Option<Seq<char>>))> {
    match r {
        LaterRead::Answer(data) => read_answer(data, calls).tool_calls,
        LaterRead::Chunk(started, chunk) => chunk_step(
            ChunkState { events: Seq::empty(), started, tool_calls: calls },
            chunk,
        ).tool_calls,
    }
}

/// The tool calls remembered after later reads, in order.
pub open spec fn calls_after_all(
    calls: Seq<(Seq<char>, (Seq<char>, Option<Seq<char>>))>,
    reads: Seq<LaterRead>,
) -> Seq<(Seq<char>, (Seq<char>, Option<Seq<char>>))>
    decreases reads.len(),
{
    if reads.len() == 0 {
        calls
    } else {
        calls_after(calls_after_all(calls, reads.drop_last()), reads.last())
    }
}

/// Whether part `j` of some parts is a function call, which an answer remembers.
pub open spec fn is_call_part(parts: Seq<JsonV>, j: int) -> bool {
    then_str(get_v(parts[j], "text"@)) is None && get_v(parts[j], "functionCall"@) is Some
}

/// Whether a whole answer remembers a call under `id`.
pub open spec fn answer_remembers(data: JsonV, id: Seq<char>) -> bool {
    match first_candidate_parts(data) {
        Some((ci, parts)) => exists|j: int| 0 <= j < parts.len() && is_call_part(parts, j) && call_base(ci, j as nat) == id,
        None => false,
    }
}

proof fn lemma_read_parts_keep(st: ReadState, ci: i64, parts: Seq<JsonV>, n: nat, id: Seq<char>)
    requires
        n <= parts.len(),
        forall|j: int| 0 <= j < n && is_call_part(parts, j) ==> call_base(ci, j as nat) != id,
    ensures
        assoc_get(read_parts(st, ci, parts, n).tool_calls, id) == assoc_get(st.tool_calls, id),
    decreases n,
{
    if n > 0 {
        lemma_read_parts_keep(st, ci, parts, (n - 1) as nat, id);
        let prev = read_parts(st, ci, parts, (n - 1) as nat);
        let part = parts[n - 1];
        match then_str(get_v(part, "text"@)) {
            Some(_) => {},
            None => match get_v(part, "functionCall"@) {
                Some(call) => {
                    assert(is_call_part(parts, n - 1));
                    lemma_assoc_get_insert(
                        prev.tool_calls,
                        call_base(ci, (n - 1) as nat),
                        (call_name(call), then_str(get_v(part, "thoughtSignature"@))),
                        id,
                    );
                },
                None => {},
            },
        }
    }
}

proof fn lemma_stream_id_has_delim(base: Seq<char>, name: Seq<char>, sig: Seq<char>)
    ensures
        has_delim(stream_tool_id(base, name, sig)),
{
    let s = stream_tool_id(base, name, sig);
    assert(s.subrange(base.len() as int, base.len() as int + 5) =~= tool_delim());
    assert(delim_at(s, base.len() as int));
    lemma_find_delim(s, 0);
}

proof fn lemma_part_keeps_plain(st: ChunkState, ci: i64, i: nat, part: JsonV, id: Seq<char>)
    requires
        !has_delim(id),
    ensures
        assoc_get(part_step(st, ci, i, part).tool_calls, id) == assoc_get(st.tool_calls, id),
{
    match then_str(get_v(part, "text"@)) {
        Some(_) => {},
        None => match get_v(part, "functionCall"@) {
            Some(call) => {
                let name = call_name(call);
                let sig = then_str(get_v(part, "thoughtSignature"@));
                let sig_text = match sig {
                    Some(x) => x,
                    None => Seq::empty(),
                };
                let sid = stream_tool_id(call_base(ci, i), name, sig_text);
                lemma_stream_id_has_delim(call_base(ci, i), name, sig_text);
                lemma_assoc_get_insert(st.tool_calls, sid, (name, sig), id);
            },
            None => {},
        },
    }
}

proof fn lemma_parts_keep_plain(st: ChunkState, ci: i64, parts: Seq<JsonV>, n: nat, id: Seq<char>)
    requires
        !has_delim(id),
    ensures
        assoc_get(parts_fold(st, ci, parts, n).tool_calls, id) == assoc_get(st.tool_calls, id),
    decreases n,
{
    if n > 0 {
        lemma_parts_keep_plain(st, ci, parts, (n - 1) as nat, id);
        lemma_part_keeps_plain(parts_fold(st, ci, parts, (n - 1) as nat), ci, (n - 1) as nat, parts[n - 1], id);
    }
}

proof fn lemma_candidates_keep_plain(st: ChunkState, candidates: Seq<JsonV>, n: nat, id: Seq<char>)
    requires
        !has_delim(id),
    ensures
        assoc_get(candidates_fold(st, candidates, n).tool_calls, id) == assoc_get(st.tool_calls, id),
    decreases n,
{
    if n > 0 {
        lemma_candidates_keep_plain(st, candidates, (n - 1) as nat, id);
        let prev = candidates_fold(st, candidates, (n - 1) as nat);
        let cand = candidates[n - 1];
        match then_array(then_get(get_v(cand, "content"@), "parts"@)) {
            Some(parts) => lemma_parts_keep_plain(prev, candidate_index(cand), parts, parts.len(), id),
            None => {},
        }
    }
}

/// Streamed chunks never touch a call remembered under an ID without the
/// delimiter, such as the `call_<i>_<j>` of a whole answer: the IDs that
/// streaming remembers all hold the delimiter.
pub proof fn lemma_chunk_keeps_plain_ids(st: ChunkState, chunk: JsonV, id: Seq<char>)
    requires
        !has_delim(id),
    ensures
        assoc_get(chunk_step(st, chunk).tool_calls, id) == assoc_get(st.tool_calls, id),
{
    match then_array(get_v(chunk_body(chunk), "candidates"@)) {
        Some(cs) => lemma_candidates_keep_plain(st, cs, cs.len(), id),
        None => {},
    }
}

/// A call remembered under `call_<i>_<j>` stays remembered, and is sent back
/// with its thought signature and its result with its name, after any later
/// streamed chunks and any later answers that remember no call under that ID.
pub proof fn lemma_remembered_call_lasts(
    candidate_index: i64,
    part_index: nat,
    name: Seq<char>,
    sig: Option<Seq<char>>,
    calls: Seq<(Seq<char>, (Seq<char>, Option<Seq<char>>))>,
    later: Seq<LaterRead>,
)
    requires
        assoc_get(calls, call_base(candidate_index, part_index)) == Some((name, sig)),
        forall|k: int|
            0 <= k < later.len() ==> (#[trigger] later[k] matches LaterRead::Answer(d) ==> !answer_remembers(
                d,
                call_base(candidate_index, part_index),
            )),
    ensures
        assoc_get(calls_after_all(calls, later), call_base(candidate_index, part_index)) == Some((name, sig)),
        signature_for(call_base(candidate_index, part_index), calls_after_all(calls, later)) == sig,
        tool_name_for(call_base(candidate_index, part_index), calls_after_all(calls, later)) == name,
    decreases later.len(),
{
    let id = call_base(candidate_index, part_index);
    if later.len() > 0 {
        let init = later.drop_last();
        assert forall|k: int|
            0 <= k < init.len() implies (#[trigger] init[k] matches LaterRead::Answer(d) ==> !answer_remembers(
                d,
                id,
            )) by {
            assert(init[k] == later[k]);
        }
        lemma_remembered_call_lasts(candidate_index, part_index, name, sig, calls, init);
        let prev = calls_after_all(calls, init);
        assert(later[later.len() - 1] == later.last());
        match later.last() {
            LaterRead::Answer(data) => {
                match first_candidate_parts(data) {
                    Some((ci, parts)) => {
                        lemma_read_parts_keep(ReadState { blocks: Seq::empty(), tool_calls: prev }, ci, parts, parts.len(), id);
                    },
                    None => {},
                }
            },
            LaterRead::Chunk(started, chunk) => {
                lemma_call_base_no_at(candidate_index, part_index);
                lemma_find_delim(id, 0);
                if find_delim(id, 0) >= 0 {
                    let k = find_delim(id, 0);
                    assert(id.subrange(k, k + 5)[2] == tool_delim()[2]);
                    assert(id[k + 2] == '@');
                }
                lemma_chunk_keeps_plain_ids(ChunkState { events: Seq::empty(), started, tool_calls: prev }, chunk, id);
            },
        }
    }
    lemma_remembered_call_round_trip(candidate_index, part_index, name, sig, calls_after_all(calls, later));
}

/// The law of a call read from a whole answer over time: after any later
/// streamed chunks and later answers that remember no other call under its ID,
/// it is still sent back with the thought signature that came with it, and its
/// result with its name.
pub proof fn lemma_answered_call_lasts(
    data: JsonV,
    calls: Seq<(Seq<char>, (Seq<char>, Option<Seq<char>>))>,
    j: nat,
    later: Seq<LaterRead>,
)
    requires
        first_candidate_parts(data) is Some,
        j < first_candidate_parts(data)->Some_0.1.len(),
        is_call_part(first_candidate_parts(data)->Some_0.1, j as int),
        forall|k: int|
            0 <= k < later.len() ==> (#[trigger] later[k] matches LaterRead::Answer(d) ==> !answer_remembers(
                d,
                call_base(first_candidate_parts(data)->Some_0.0, j),
            )),
    ensures
        ({
            let ci = first_candidate_parts(data)->Some_0.0;
            let part = first_candidate_parts(data)->Some_0.1[j as int];
            let after = calls_after_all(read_answer(data, calls).tool_calls, later);
            &&& signature_for(call_base(ci, j), after) == then_str(get_v(part, "thoughtSignature"@))
            &&& tool_name_for(call_base(ci, j), after) == call_name(get_v(part, "functionCall"@)->Some_0)
        }),
{
    let ci = first_candidate_parts(data)->Some_0.0;
    let part = first_candidate_parts(data)->Some_0.1[j as int];
    lemma_answered_call_round_trip(data, calls, j);
    lemma_remembered_call_lasts(
        ci,
        j,
        call_name(get_v(part, "functionCall"@)->Some_0),
        then_str(get_v(part, "thoughtSignature"@)),
        read_answer(data, calls).tool_calls,
        later,
    );
}

proof fn lemma_payload_names_distinct()
    ensures
        "model"@ != "request"@,
        "project"@ != "request"@,
        "user_prompt_id"@ != "request"@,
        "contents"@ != "tools"@,
        "systemInstruction"@ != "tools"@,
        "role"@ != "parts"@,
        "name"@ != "args"@,
        "name"@ != "description"@,
        "functionCall"@ != "thoughtSignature"@,
{
    reveal_strlit("model");
    reveal_strlit("request");
    reveal_strlit("project");
    reveal_strlit("user_prompt_id");
    reveal_strlit("contents");
    reveal_strlit("tools");
    reveal_strlit("systemInstruction");
    reveal_strlit("role");
    reveal_strlit("parts");
    reveal_strlit("name");
    reveal_strlit("args");
    reveal_strlit("description");
    assert("contents"@.len() == 8);
    assert("tools"@.len() == 5);
    assert("systemInstruction"@.len() == 17);
    assert("model"@.len() == 5);
    assert("request"@.len() == 7);
    assert("user_prompt_id"@.len() == 14);
    assert("role"@.len() == 4);
    assert("parts"@.len() == 5);
    assert("description"@.len() == 11);
    reveal_strlit("functionCall");
    reveal_strlit("thoughtSignature");
    assert("functionCall"@.len() == 12);
    assert("thoughtSignature"@.len() == 16);
    assert("project"@[0] != "request"@[0]);
    assert("name"@[0] != "args"@[0]);
}

/// The `request` member of a payload.
proof fn lemma_payload_request(
    req: MessageRequest,
    project_id: Seq<char>,
    user_prompt_id: Seq<char>,
    calls: Seq<(Seq<char>, (Seq<char>, Option<Seq<char>>))>,
)
    ensures
        get_v(request_payload(req, project_id, user_prompt_id, calls), "request"@) == Some(
            inner_request(req, calls),
        ),
{
    lemma_payload_names_distinct();
    let m = seq![
        ("model"@, JsonV::Str(req.model@)),
        ("project"@, JsonV::Str(project_id)),
        ("user_prompt_id"@, JsonV::Str(user_prompt_id)),
        ("request"@, inner_request(req, calls)),
    ];
    lemma_assoc_get_at(m, "request"@, 3);
}

/// Every tool call of a request is sent back under the name it was given and
/// with the arguments it was given: part `k` of content entry `m` of the
/// payload is a `functionCall` whose `name` and `args` are those of block `k`
/// of message `m`.
pub proof fn lemma_tool_call_sent_as_given(
    req: MessageRequest,
    project_id: Seq<char>,
    user_prompt_id: Seq<char>,
    calls: Seq<(Seq<char>, (Seq<char>, Option<Seq<char>>))>,
    m: int,
    k: int,
)
    requires
        0 <= m < req.messages@.len(),
        0 <= k < req.messages@[m].content@.len(),
        req.messages@[m].content@[k] is ToolUse,
    ensures
        ({
            let payload = request_payload(req, project_id, user_prompt_id, calls);
            let contents = then_array(then_get(get_v(payload, "request"@), "contents"@));
            &&& contents is Some
            &&& contents->Some_0.len() == req.messages@.len()
            &&& then_array(get_v(contents->Some_0[m], "parts"@)) is Some
            &&& then_array(get_v(contents->Some_0[m], "parts"@))->Some_0.len() == req.messages@[m].content@.len()
            &&& match req.messages@[m].content@[k] {
                InputContentBlock::ToolUse { id, name, input } => {
                    let part = then_array(get_v(contents->Some_0[m], "parts"@))->Some_0[k];
                    let call = get_v(part, "functionCall"@);
                    &&& then_get(call, "name"@) == Some(JsonV::Str(name@))
                    &&& then_get(call, "args"@) == Some(input@)
                    &&& get_v(part, "thoughtSignature"@) == match signature_for(id@, calls) {
                        Some(sig) => Some(JsonV::Str(sig)),
                        None => None,
                    }
                },
                _ => false,
            }
        }),
{
    lemma_payload_names_distinct();
    lemma_payload_request(req, project_id, user_prompt_id, calls);
    let inner = inner_request(req, calls);
    let system = match req.system {
        Some(sys) => seq![
            ("systemInstruction"@, JsonV::Obj(
                seq![("parts"@, JsonV::Arr(seq![JsonV::Obj(seq![("text"@, JsonV::Str(sys@))])]))],
            )),
        ],
        None => Seq::empty(),
    };
    let contents = JsonV::Arr(Seq::new(req.messages@.len(), |i: int| message_json(req.messages@[i], calls)));
    let tools_members = match inner {
        JsonV::Obj(ms) => ms,
        _ => Seq::empty(),
    };
    assert(tools_members[0] == ("contents"@, contents));
    lemma_assoc_get_at(tools_members, "contents"@, 0);
    let msg = req.messages@[m];
    let entry = message_json(msg, calls);
    let parts = Seq::new(msg.content@.len(), |q: int| block_part(msg.content@[q], calls));
    lemma_assoc_get_at(
        seq![("role"@, JsonV::Str(role_name(msg.role@))), ("parts"@, JsonV::Arr(parts))],
        "parts"@,
        1,
    );
    match msg.content@[k] {
        InputContentBlock::ToolUse { id, name, input } => {
            let call = JsonV::Obj(seq![("name"@, JsonV::Str(name@)), ("args"@, input@)]);
            match signature_for(id@, calls) {
                Some(sig) => {
                    let pm = seq![("functionCall"@, call), ("thoughtSignature"@, JsonV::Str(sig))];
                    lemma_assoc_get_at(pm, "functionCall"@, 0);
                    lemma_assoc_get_at(pm, "thoughtSignature"@, 1);
                },
                None => {
                    let pm = seq![("functionCall"@, call)];
                    lemma_assoc_get_at(pm, "functionCall"@, 0);
                    crate::assoc::lemma_key_index_absent(pm, "thoughtSignature"@);
                },
            }
            lemma_assoc_get_at(seq![("name"@, JsonV::Str(name@)), ("args"@, input@)], "name"@, 0);
            lemma_assoc_get_at(seq![("name"@, JsonV::Str(name@)), ("args"@, input@)], "args"@, 1);
        },
        _ => {},
    }
}

/// Every tool of a request is declared with its name and its description, which
/// is empty only when the tool has none: declaration `k` of the payload's
/// `function_declarations` is that of tool `k`.
pub proof fn lemma_tools_declared_as_given(
    req: MessageRequest,
    project_id: Seq<char>,
    user_prompt_id: Seq<char>,
    calls: Seq<(Seq<char>, (Seq<char>, Option<Seq<char>>))>,
    k: int,
)
    requires
        req.tools is Some,
        0 <= k < req.tools->Some_0@.len(),
    ensures
        ({
            let payload = request_payload(req, project_id, user_prompt_id, calls);
            let tools = then_array(then_get(get_v(payload, "request"@), "tools"@));
            let t = req.tools->Some_0@[k];
            &&& tools is Some
            &&& tools->Some_0.len() == 1
            &&& then_array(get_v(tools->Some_0[0], "function_declarations"@)) is Some
            &&& then_array(get_v(tools->Some_0[0], "function_declarations"@))->Some_0.len() == req.tools->Some_0@.len()
            &&& ({
                let decl = then_array(get_v(tools->Some_0[0], "function_declarations"@))->Some_0[k];
                &&& get_v(decl, "name"@) == Some(JsonV::Str(t.name@))
                &&& get_v(decl, "description"@) == Some(JsonV::Str(match t.description {
                    Some(d) => d@,
                    None => Seq::empty(),
                }))
                &&& (t.description is Some ==> get_v(decl, "description"@) == Some(JsonV::Str(t.description->Some_0@)))
            })
        }),
{
    lemma_payload_names_distinct();
    lemma_payload_request(req, project_id, user_prompt_id, calls);
    let inner = inner_request(req, calls);
    let members = match inner {
        JsonV::Obj(ms) => ms,
        _ => Seq::empty(),
    };
    let ts = req.tools->Some_0@;
    let decls = JsonV::Arr(Seq::new(ts.len(), |q: int| tool_declaration(ts[q])));
    let tools_v = JsonV::Arr(seq![JsonV::Obj(seq![("function_declarations"@, decls)])]);
    let i: int = if req.system is Some { 2 } else { 1 };
    assert(members[i] == ("tools"@, tools_v));
    assert(members.len() == i + 1);
    assert forall|q: int| 0 <= q < i implies members[q].0 != "tools"@ by {
        if q == 0 {
            assert(members[0].0 == "contents"@);
        } else {
            assert(members[1].0 == "systemInstruction"@);
        }
    }
    lemma_assoc_get_at(members, "tools"@, i);
    lemma_assoc_get_at(seq![("function_declarations"@, decls)], "function_declarations"@, 0);
    let t = ts[k];
    let desc = JsonV::Str(
        match t.description {
            Some(d) => d@,
            None => Seq::empty(),
        },
    );
    let dm = seq![("name"@, JsonV::Str(t.name@)), ("description"@, desc), ("parameters"@, sanitize_v(t.input_schema@))];
    lemma_assoc_get_at(dm, "name"@, 0);
    lemma_assoc_get_at(dm, "description"@, 1);
}

/// Every message of a request is sent in its place, as the user's when its
/// role is `user` and as the model's otherwise, with one part per block; a text
/// block is sent as a part whose `text` is that text.
pub proof fn lemma_messages_sent_in_place(
    req: MessageRequest,
    project_id: Seq<char>,
    user_prompt_id: Seq<char>,
    calls: Seq<(Seq<char>, (Seq<char>, Option<Seq<char>>))>,
    m: int,
    k: int,
)
    requires
        0 <= m < req.messages@.len(),
        0 <= k < req.messages@[m].content@.len(),
    ensures
        ({
            let payload = request_payload(req, project_id, user_prompt_id, calls);
            let contents = then_array(then_get(get_v(payload, "request"@), "contents"@));
            let msg = req.messages@[m];
            &&& contents is Some
            &&& contents->Some_0.len() == req.messages@.len()
            &&& get_v(contents->Some_0[m], "role"@) == Some(JsonV::Str(
                if msg.role@ == "user"@ {
                    "user"@
                } else {
                    "model"@
                },
            ))
            &&& then_array(get_v(contents->Some_0[m], "parts"@)) is Some
            &&& then_array(get_v(contents->Some_0[m], "parts"@))->Some_0.len() == msg.content@.len()
            &&& (msg.content@[k] matches InputContentBlock::Text { text } ==> get_v(
                then_array(get_v(contents->Some_0[m], "parts"@))->Some_0[k],
                "text"@,
            ) == Some(JsonV::Str(text@)))
        }),
{
    lemma_payload_names_distinct();
    lemma_payload_request(req, project_id, user_prompt_id, calls);
    let inner = inner_request(req, calls);
    let contents = JsonV::Arr(Seq::new(req.messages@.len(), |i: int| message_json(req.messages@[i], calls)));
    let members = match inner {
        JsonV::Obj(ms) => ms,
        _ => Seq::empty(),
    };
    assert(members[0] == ("contents"@, contents));
    lemma_assoc_get_at(members, "contents"@, 0);
    let msg = req.messages@[m];
    let parts = Seq::new(msg.content@.len(), |q: int| block_part(msg.content@[q], calls));
    let em = seq![("role"@, JsonV::Str(role_name(msg.role@))), ("parts"@, JsonV::Arr(parts))];
    lemma_assoc_get_at(em, "role"@, 0);
    lemma_assoc_get_at(em, "parts"@, 1);
    match msg.content@[k] {
        InputContentBlock::Text { text } => {
            lemma_assoc_get_at(seq![("text"@, JsonV::Str(text@))], "text"@, 0);
        },
        _ => {},
    }
}

/// Every tool result of a request is sent as a `functionResponse` named after
/// its call, whose `response` is its first block (a JSON value as it is, a
/// text as `{"output": text}`), or `{"output": "success"}` when it has none.
pub proof fn lemma_tool_result_sent(
    req: MessageRequest,
    project_id: Seq<char>,
    user_prompt_id: Seq<char>,
    calls: Seq<(Seq<char>, (Seq<char>, Option<Seq<char>>))>,
    m: int,
    k: int,
)
    requires
        0 <= m < req.messages@.len(),
        0 <= k < req.messages@[m].content@.len(),
        req.messages@[m].content@[k] is ToolResult,
    ensures
        ({
            let payload = request_payload(req, project_id, user_prompt_id, calls);
            let contents = then_array(then_get(get_v(payload, "request"@), "contents"@))->Some_0;
            let part = then_array(get_v(contents[m], "parts"@))->Some_0[k];
            let resp = get_v(part, "functionResponse"@);
            match req.messages@[m].content@[k] {
                InputContentBlock::ToolResult { tool_use_id, content, .. } => {
                    &&& then_get(resp, "name"@) == Some(JsonV::Str(tool_name_for(tool_use_id@, calls)))
                    &&& then_get(resp, "response"@) == Some(
                        if content@.len() == 0 {
                            JsonV::Obj(seq![("output"@, JsonV::Str("success"@))])
                        } else {
                            match content@[0] {
                                ToolResultContentBlock::Json { value } => value@,
                                ToolResultContentBlock::Text { text } => JsonV::Obj(
                                    seq![("output"@, JsonV::Str(text@))],
                                ),
                            }
                        },
                    )
                },
                _ => false,
            }
        }),
{
    lemma_messages_sent_in_place(req, project_id, user_prompt_id, calls, m, k);
    let msg = req.messages@[m];
    match msg.content@[k] {
        InputContentBlock::ToolResult { tool_use_id, content, .. } => {
            reveal_strlit("name");
            reveal_strlit("response");
            assert("name"@.len() == 4);
            assert("response"@.len() == 8);
            let fr = JsonV::Obj(
                seq![("name"@, JsonV::Str(tool_name_for(tool_use_id@, calls))), ("response"@, tool_response_value(content@))],
            );
            lemma_assoc_get_at(seq![("functionResponse"@, fr)], "functionResponse"@, 0);
            lemma_assoc_get_at(
                seq![("name"@, JsonV::Str(tool_name_for(tool_use_id@, calls))), ("response"@, tool_response_value(content@))],
                "name"@,
                0,
            );
            lemma_assoc_get_at(
                seq![("name"@, JsonV::Str(tool_name_for(tool_use_id@, calls))), ("response"@, tool_response_value(content@))],
                "response"@,
                1,
            );
        },
        _ => {},
    }
}

}

