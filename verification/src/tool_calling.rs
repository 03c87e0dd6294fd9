//! OpenAI-style tool calling for models that see only text.
//!
//! The `tools` array of a request becomes a block of the system prompt, and what the model
//! emits is read back into `tool_calls`. Both directions use the Hermes convention, a JSON
//! object between `<tool_call>` and `</tool_call>`.
//!
//! The reader is lenient about the form of a call. These are all read:
//!
//! ```text
//! <tool_call>{"name": "x", "arguments": {...}}</tool_call>   the trained format
//! {"name": "x", "arguments": {...}}                          wrapper omitted entirely
//! ```json\n{"name": "x", ...}\n```                           fenced as if for a human
//! {"name": "x", "arguments": "{\"a\": 1}"}                   arguments as a JSON string
//! {"name": "x", "parameters": {...}}                         wrong key
//! ```
//!
//! Leniency stops at correctness: a call is returned only when its name is that of a declared
//! tool and its arguments resolve to an object.
use crate::json::{
    contents, empty_object, lemma_whole_within, members_of, parsed, printed, reads_as_object,
    reread_members, Json, MAX_NESTING,
};
use crate::openai_compat::{CallText, FunctionCall, ToolCall, ToolSpec};
use crate::{json, text};
use serde_json::Value;
use vstd::prelude::*;
use vstd::string::*;

pub mod laws;
pub mod reading;
pub mod writing;

verus! {

/// The tag before a call.
pub const OPEN_TAG: &'static str = "<tool_call>";

/// The tag after a call.
pub const CLOSE_TAG: &'static str = "</tool_call>";

/// What opens a fenced block of JSON.
pub const JSON_FENCE: &'static str = "```json";

/// What opens or closes a fenced block.
pub const FENCE: &'static str = "```";

/// The instruction block up to the first signature. The phrasing is that of Qwen3's chat
/// template, which the models were tuned against.
pub const BLOCK_HEAD: &'static str =
    "\n\n# Tools\n\nYou may call one or more functions to assist with the user query.\n\n\
     You are provided with function signatures within <tools></tools> XML tags:\n<tools>\n";

/// The instruction block from behind the last signature on.
pub const BLOCK_TAIL: &'static str =
    "</tools>\n\nFor each function call, return a json object with function name and \
     arguments within <tool_call></tool_call> XML tags:\n<tool_call>\n\
     {\"name\": <function-name>, \"arguments\": <args-json-object>}\n</tool_call>";

// ---------------------------------------------------------------------------------------
// The instruction block
// ---------------------------------------------------------------------------------------

/// The signature of a tool: absent parts are written as an empty text and an empty object.
pub open spec fn signature(tool: ToolSpec) -> Json {
    let function = Map::<Seq<char>, Json>::empty().insert(
        "name"@,
        Json::String(tool.function.name@),
    ).insert(
        "description"@,
        Json::String(
            match tool.function.description {
                Some(description) => description@,
                None => Seq::empty(),
            },
        ),
    ).insert(
        "parameters"@,
        match tool.function.parameters {
            Some(parameters) => contents(parameters),
            None => empty_object(),
        },
    );
    Json::Object(
        Map::<Seq<char>, Json>::empty().insert("type"@, Json::String(tool.tool_type@)).insert(
            "function"@,
            Json::Object(function),
        ),
    )
}

/// Each text on a line of its own.
pub open spec fn lines(texts: Seq<Seq<char>>) -> Seq<char>
    decreases texts.len(),
{
    if texts.len() == 0 {
        Seq::empty()
    } else {
        lines(texts.drop_last()) + texts.last() + "\n"@
    }
}

/// The instruction block around given signatures.
pub open spec fn block(signatures: Seq<Seq<char>>) -> Seq<char> {
    BLOCK_HEAD@ + lines(signatures) + BLOCK_TAIL@
}

/// The lines of a text, without the breaks between them and at its end.
pub open spec fn lines_in(text: Seq<char>) -> Seq<Seq<char>>
    decreases text.len(),
{
    if text.len() == 0 {
        Seq::empty()
    } else {
        let body = if text.last() == '\n' {
            text.drop_last()
        } else {
            text
        };
        proof {
            text::lemma_rfind(body, '\n');
        }
        match text::rfind(body, '\n') {
            Some(i) => lines_in(body.take(i + 1)).push(body.skip(i + 1)),
            None => seq![body],
        }
    }
}

/// What stands between the two fixed parts of an instruction block.
pub open spec fn block_body(block: Seq<char>) -> Seq<char> {
    block.subrange(BLOCK_HEAD@.len() as int, block.len() - BLOCK_TAIL@.len())
}

/// The signature of a tool as JSON.
pub fn tool_signature(tool: &ToolSpec) -> (r: Value)
    ensures
        contents(r) == signature(*tool),
{
    let description = match &tool.function.description {
        Some(description) => description.clone(),
        None => String::new(),
    };
    let parameters = match &tool.function.parameters {
        Some(parameters) => parameters.clone(),
        None => json::object(Vec::new()),
    };
    let mut function: Vec<(String, Value)> = Vec::new();
    function.push(("name".to_owned(), json::string(tool.function.name.clone())));
    function.push(("description".to_owned(), json::string(description)));
    function.push(("parameters".to_owned(), parameters));
    proof {
        laws::lemma_signature_keys();
    }
    let mut entry: Vec<(String, Value)> = Vec::new();
    entry.push(("type".to_owned(), json::string(tool.tool_type.clone())));
    let ghost members = function@;
    entry.push(("function".to_owned(), json::object(function)));
    proof {
        reveal_with_fuel(members_of, 4);
        assert(members.drop_last().drop_last().drop_last() =~= Seq::empty());
        assert(entry@.drop_last().drop_last() =~= Seq::empty());
    }
    json::object(entry)
}

/// The instruction block around signatures that are already text.
pub fn block_of(signatures: &Vec<String>) -> (r: String)
    ensures
        r@ == block(signatures@.map_values(|s: String| s@)),
{
    let ghost texts = signatures@.map_values(|s: String| s@);
    let mut r = BLOCK_HEAD.to_owned();
    let mut i: usize = 0;
    while i < signatures.len()
        invariant
            i <= signatures.len(),
            texts == signatures@.map_values(|s: String| s@),
            r@ == BLOCK_HEAD@ + lines(texts.take(i as int)),
        decreases signatures.len() - i,
    {
        r.append(signatures[i].as_str());
        r.append("\n");
        i += 1;
        assert(texts.take(i as int).drop_last() == texts.take(i - 1));
    }
    assert(texts.take(i as int) == texts);
    r.append(BLOCK_TAIL);
    r
}

/// The instruction block appended to the system prompt.
pub fn render_tools_block(tools: &[ToolSpec]) -> (r: String)
    ensures
        r@ == block(tools@.map_values(|t: ToolSpec| printed(signature(t)))),
        lines_in(block_body(r@)) == tools@.map_values(|t: ToolSpec| printed(signature(t))),
{
    let mut signatures: Vec<String> = Vec::new();
    let mut i: usize = 0;
    while i < tools.len()
        invariant
            i <= tools.len(),
            signatures.len() == i,
            forall|j: int|
                0 <= j < i ==> (#[trigger] signatures[j])@ == printed(signature(tools[j]))
                    && !signatures[j]@.contains('\n'),
        decreases tools.len() - i,
    {
        signatures.push(json::to_string(&tool_signature(&tools[i])));
        i += 1;
    }
    proof {
        let texts = tools@.map_values(|t: ToolSpec| printed(signature(t)));
        assert(signatures@.map_values(|s: String| s@) == texts);
        assert forall|j: int| 0 <= j < texts.len() implies !(
        #[trigger] texts[j]).contains('\n') by {
            assert(signatures[j]@ == texts[j]);
        }
        laws::law_block_has_a_line_for_each_signature(texts);
    }
    block_of(&signatures)
}

// ---------------------------------------------------------------------------------------
// Candidates
// ---------------------------------------------------------------------------------------

/// What stands between the tags of each wrapped call, trimmed. A call that is never closed
/// runs to the end of the output.
pub open spec fn wrapped(output: Seq<char>) -> Seq<Seq<char>>
    decreases output.len(),
{
    match text::find(output, OPEN_TAG@) {
        Some(start) => {
            let after = output.skip(start + OPEN_TAG@.len());
            let end = match text::find(after, CLOSE_TAG@) {
                Some(end) => end,
                None => after.len() as int,
            };
            proof {
                reveal_strlit("<tool_call>");
                text::lemma_find(output, OPEN_TAG@);
                text::lemma_find(after, CLOSE_TAG@);
            }
            seq![text::trimmed(after.take(end))] + wrapped(after.skip(end))
        },
        None => Seq::empty(),
    }
}

/// The output with a blank in place of each fence.
pub open spec fn unfenced(output: Seq<char>) -> Seq<char> {
    text::replaced(text::replaced(output, JSON_FENCE@, " "@), FENCE@, " "@)
}

/// From the first opening brace to the last closing one.
pub open spec fn brace_span(s: Seq<char>) -> Seq<Seq<char>> {
    match (text::find(s, "{"@), text::rfind(s, '}')) {
        (Some(a), Some(b)) => if b > a {
            seq![s.subrange(a, b + 1)]
        } else {
            Seq::empty()
        },
        _ => Seq::empty(),
    }
}

/// The texts that may be calls: the wrapped ones, or where there is none, the outermost span
/// of braces behind any fence.
pub open spec fn candidate_texts(output: Seq<char>) -> Seq<Seq<char>> {
    if wrapped(output).len() > 0 {
        wrapped(output)
    } else {
        brace_span(unfenced(output))
    }
}

pub open spec fn views(texts: Seq<String>) -> Seq<Seq<char>> {
    texts.map_values(|s: String| s@)
}

/// Candidate JSON texts, most-trusted source first.
pub fn candidates(output: &str) -> (r: Vec<String>)
    ensures
        views(r@) == candidate_texts(output@),
{
    let mut found: Vec<String> = Vec::new();
    let cs = text::chars(output);
    let open = text::chars(OPEN_TAG);
    let close = text::chars(CLOSE_TAG);
    let mut at: usize = 0;
    proof {
        reveal_strlit("<tool_call>");
        assert(output@.skip(0) == output@);
        assert(views(found@) == Seq::<Seq<char>>::empty());
    }
    loop
        invariant
            at <= cs.len(),
            cs@ == output@,
            open@ == OPEN_TAG@,
            open.len() > 0,
            close@ == CLOSE_TAG@,
            wrapped(output@) == views(found@) + wrapped(output@.skip(at as int)),
        ensures
            wrapped(output@) == views(found@),
        decreases cs.len() - at,
    {
        let ghost rest = output@.skip(at as int);
        match text::find_from(&cs, &open, at) {
            Some(start) => {
                let from = start + open.len();
                let end = match text::find_from(&cs, &close, from) {
                    Some(end) => end,
                    None => cs.len(),
                };
                let (a, b) = text::trim_range(&cs, from, end);
                let ghost before = found@;
                found.push(output.substring_char(a, b).to_owned());
                proof {
                    let after = rest.skip(start - at + OPEN_TAG@.len());
                    assert(after == output@.skip(from as int));
                    assert(after.take(end - from) == output@.subrange(from as int, end as int));
                    assert(after.skip(end - from) == output@.skip(end as int));
                    assert(views(found@) == views(before).push(
                        text::trimmed(after.take(end - from)),
                    ));
                    assert(wrapped(rest) == seq![text::trimmed(after.take(end - from))] + wrapped(
                        after.skip(end - from),
                    ));
                }
                at = end;
            },
            None => {
                assert(wrapped(rest) == Seq::<Seq<char>>::empty());
                break;
            },
        }
    }
    if found.len() > 0 {
        return found;
    }
    proof {
        reveal_strlit("```json");
        reveal_strlit("```");
        reveal_strlit("{");
    }
    let plain = text::replace(output, JSON_FENCE, " ");
    let cleaned = text::replace(plain.as_str(), FENCE, " ");
    let cs = text::chars(cleaned.as_str());
    let brace = text::chars("{");
    assert(cs@.skip(0) == cs@);
    match (text::find_from(&cs, &brace, 0), text::rfind_char(&cs, '}')) {
        (Some(a), Some(b)) => {
            if b > a {
                found.push(cleaned.as_str().substring_char(a, b + 1).to_owned());
            }
        },
        _ => {},
    }
    assert(views(found@) == brace_span(cs@));
    found
}

// ---------------------------------------------------------------------------------------
// Calls
// ---------------------------------------------------------------------------------------

/// What a call has as its arguments: the member `arguments`, or `parameters` in its stead.
pub open spec fn raw_arguments(call: Json) -> Option<Json> {
    match call.member("arguments"@) {
        Some(arguments) => Some(arguments),
        None => call.member("parameters"@),
    }
}

/// The arguments of a call, where they resolve to an object, as it is or as the text of one. A
/// call without arguments has none, and that is an empty object.
pub open spec fn arguments_of(call: Json) -> Option<Json> {
    match raw_arguments(call) {
        None => Some(empty_object()),
        Some(Json::Object(members)) => Some(Json::Object(members)),
        Some(Json::String(inner)) => match parsed(inner) {
            Some(Json::Object(members)) => Some(Json::Object(members)),
            _ => None,
        },
        Some(_) => None,
    }
}

/// The name and the arguments of a call to a declared tool.
pub open spec fn call_in(call: Json, declared: Seq<Seq<char>>) -> Option<(Seq<char>, Json)> {
    match call.member("name"@) {
        Some(Json::String(name)) => if declared.contains(name) {
            match arguments_of(call) {
                Some(arguments) => Some((name, arguments)),
                None => None,
            }
        } else {
            None
        },
        _ => None,
    }
}

/// The call that a candidate is, if it is one: its name, and its arguments as text.
pub open spec fn call_text(candidate: Seq<char>, declared: Seq<Seq<char>>) -> Option<
    (Seq<char>, Seq<char>),
> {
    match parsed(candidate) {
        Some(call) => call_written(call, declared),
        None => None,
    }
}

/// The identifier of the call in the candidate at `index`.
pub open spec fn call_id(index: nat) -> Seq<char> {
    "call_"@ + text::decimal(index)
}

/// The calls among the candidates, in their order.
pub open spec fn calls_among(found: Seq<Seq<char>>, declared: Seq<Seq<char>>) -> Seq<CallText>
    decreases found.len(),
{
    if found.len() == 0 {
        Seq::empty()
    } else {
        let earlier = calls_among(found.drop_last(), declared);
        match call_text(found.last(), declared) {
            Some((name, arguments)) => earlier.push(
                CallText {
                    id: call_id((found.len() - 1) as nat),
                    call_type: "function"@,
                    name,
                    arguments,
                },
            ),
            None => earlier,
        }
    }
}

pub open spec fn tool_names(tools: Seq<ToolSpec>) -> Seq<Seq<char>> {
    tools.map_values(|t: ToolSpec| t.function.name@)
}

pub open spec fn str_views(names: Seq<&str>) -> Seq<Seq<char>> {
    names.map_values(|s: &str| s@)
}

/// A call with the given name, and with its arguments under the given key.
pub open spec fn call_object(name: Seq<char>, key: Seq<char>, arguments: Json) -> Json {
    Json::Object(Map::empty().insert("name"@, Json::String(name)).insert(key, arguments))
}

/// Whether a text is that of a call with the given name and arguments, where the arguments
/// stand under either key, as they are or as their text.
pub open spec fn is_written_call(text: Seq<char>, name: Seq<char>, arguments: Json) -> bool {
    ||| text == printed(call_object(name, "arguments"@, arguments))
    ||| text == printed(call_object(name, "arguments"@, Json::String(printed(arguments))))
    ||| text == printed(call_object(name, "parameters"@, arguments))
    ||| text == printed(call_object(name, "parameters"@, Json::String(printed(arguments))))
}

/// Whether `written` is the object `call` with the key `parameters` in place of `arguments`.
pub open spec fn is_renamed(written: Json, call: Json) -> bool {
    &&& call is Object
    &&& call.member("arguments"@) is Some
    &&& call.member("parameters"@) is None
    &&& written == Json::Object(
        call->Object_0.remove("arguments"@).insert("parameters"@, call->Object_0["arguments"@]),
    )
}

/// Whether `written` is the object `call`, or that object with `parameters` in place of
/// `arguments`.
pub open spec fn is_spelling(written: Json, call: Json) -> bool {
    call is Object && (written == call || is_renamed(written, call))
}

/// The call that an object is, with its arguments as text.
pub open spec fn call_written(call: Json, declared: Seq<Seq<char>>) -> Option<
    (Seq<char>, Seq<char>),
> {
    match call_in(call, declared) {
        Some((name, arguments)) => Some((name, printed(arguments))),
        None => None,
    }
}

/// Whether a text opens and closes as that of an object does.
pub open spec fn in_braces(text: Seq<char>) -> bool {
    text.len() >= 2 && text[0] == '{' && text.last() == '}'
}

/// The text of a value that is an object.
pub fn object_text(value: &Value) -> (r: Option<String>)
    ensures
        r is Some <==> contents(*value) is Object,
        r matches Some(text) ==> text@ == printed(contents(*value)) && in_braces(text@),
        r matches Some(text) ==> text@ == printed(empty_object()) ==> text@ == "{}"@,
        r matches Some(text) ==> contents(*value).nested_within(MAX_NESTING as nat)
            ==> reads_as_object(text@),
{
    if value.is_object() {
        Some(json::to_string(value))
    } else {
        None
    }
}

fn is_declared(name: &str, declared: &[&str]) -> (r: bool)
    ensures
        r == str_views(declared@).contains(name@),
{
    let mut i: usize = 0;
    while i < declared.len()
        invariant
            i <= declared.len(),
            forall|j: int| 0 <= j < i ==> (#[trigger] declared[j])@ != name@,
        decreases declared.len() - i,
    {
        if text::same(declared[i], name) {
            assert(str_views(declared@)[i as int] == name@);
            return true;
        }
        i += 1;
    }
    false
}

/// A call that has been read as JSON to its name and the text of its arguments, or nothing.
pub fn read_call(value: &Value, declared: &[&str]) -> (r: Option<(String, String)>)
    ensures
        r is Some <==> call_in(contents(*value), str_views(declared@)) is Some,
        r matches Some((name, arguments)) ==> {
            &&& call_in(contents(*value), str_views(declared@)) matches Some(call)
            &&& name@ == call.0
            &&& arguments@ == printed(call.1)
            &&& in_braces(arguments@)
            &&& arguments@ == printed(empty_object()) ==> arguments@ == "{}"@
            &&& contents(*value).nested_within(MAX_NESTING as nat) ==> reads_as_object(arguments@)
        },
        forall|written: Json, name: Seq<char>|
            #![trigger printed(written), str_views(declared@).contains(name)]
            {
                &&& written is Object && written.whole_within(MAX_NESTING as nat)
                &&& raw_arguments(contents(*value)) == Some(Json::String(printed(written)))
                &&& contents(*value).member("name"@) == Some(Json::String(name))
                &&& str_views(declared@).contains(name)
            } ==> (r matches Some(call) && call.0@ == name && call.1@ == printed(written)),
{
    let name = match json::get(value, "name") {
        Some(member) => match member.as_str() {
            Some(name) => name,
            None => return None,
        },
        None => return None,
    };
    if !is_declared(name, declared) {
        return None;
    }
    let raw = match json::get(value, "arguments") {
        Some(arguments) => Some(arguments),
        None => json::get(value, "parameters"),
    };
    let arguments = match raw {
        Some(raw) => match raw.as_str() {
            Some(inner) => match json::from_str(inner) {
                Some(read) => object_text(&read),
                None => None,
            },
            None => object_text(raw),
        },
        None => {
            let none: Vec<(String, Value)> = Vec::new();
            object_text(&json::object(none))
        },
    };
    proof {
        if contents(*value).nested_within(MAX_NESTING as nat) {
            laws::lemma_members_are_nested(contents(*value), MAX_NESTING as nat);
        }
    }
    match arguments {
        Some(arguments) => Some((name.to_owned(), arguments)),
        None => None,
    }
}

/// One candidate to `(name, arguments-as-json-string)`, or nothing. The text of a call to a
/// declared tool is read as that call, whether its arguments stand under `arguments` or
/// `parameters`, as an object or as the text of one. The text of any object is read alike with
/// either key.
pub fn parse_one(candidate: &str, declared: &[&str]) -> (r: Option<(String, String)>)
    ensures
        r is Some <==> call_text(candidate@, str_views(declared@)) is Some,
        r matches Some((name, arguments)) ==> {
            &&& call_text(candidate@, str_views(declared@)) == Some((name@, arguments@))
            &&& in_braces(arguments@)
            &&& reads_as_object(arguments@)
            &&& arguments@ == printed(empty_object()) ==> arguments@ == "{}"@
        },
        forall|name: Seq<char>, arguments: Json| #[trigger]
            is_written_call(candidate@, name, arguments) && arguments is Object
                && arguments.whole_within((MAX_NESTING - 1) as nat) ==> match r {
                Some(call) => str_views(declared@).contains(name) && call.0@ == name && call.1@
                    == printed(arguments),
                None => !str_views(declared@).contains(name),
            },
        forall|written: Value, call: Json|
            #![trigger printed(contents(written)), is_spelling(contents(written), call)]
            {
                &&& is_spelling(contents(written), call)
                &&& contents(written).nested_within(MAX_NESTING as nat)
                &&& candidate@ == printed(contents(written))
            } ==> call_text(candidate@, str_views(declared@)) == call_written(
                reread_members(call),
                str_views(declared@),
            ),
{
    let read = json::from_str(candidate);
    let r = match &read {
        Some(value) => read_call(value, declared),
        None => None,
    };
    proof {
        assert forall|name: Seq<char>, arguments: Json| #[trigger]
            is_written_call(candidate@, name, arguments) && arguments is Object
                && arguments.whole_within((MAX_NESTING - 1) as nat) implies match r {
            Some(call) => str_views(declared@).contains(name) && call.0@ == name && call.1@
                == printed(arguments),
            None => !str_views(declared@).contains(name),
        } by {
            laws::lemma_written_call(name, arguments);
            laws::lemma_written_call(name, Json::String(printed(arguments)));
            laws::lemma_keys();
            lemma_whole_within(arguments, (MAX_NESTING - 1) as nat, MAX_NESTING as nat);
        }
        assert forall|written: Value, call: Json|
            #![trigger printed(contents(written)), is_spelling(contents(written), call)]
            {
                &&& is_spelling(contents(written), call)
                &&& contents(written).nested_within(MAX_NESTING as nat)
                &&& candidate@ == printed(contents(written))
            } implies call_text(candidate@, str_views(declared@)) == call_written(
            reread_members(call),
            str_views(declared@),
        ) by {
            laws::lemma_spellings_agree(contents(written), call, str_views(declared@));
        }
    }
    r
}

/// Whether a call names one of the given tools and has an object as its arguments.
pub open spec fn is_sound_call(call: ToolCall, tools: Seq<ToolSpec>) -> bool {
    let arguments = call.function.arguments@;
    &&& call.call_type@ == "function"@
    &&& tool_names(tools).contains(call.function.name@)
    &&& in_braces(arguments)
    &&& reads_as_object(arguments)
    &&& arguments == printed(empty_object()) ==> arguments == "{}"@
}

/// Everything the model emitted that is a valid call to a declared tool. Ordinary prose gives
/// none.
pub fn parse_tool_calls(output: &str, declared: &[ToolSpec]) -> (r: Vec<ToolCall>)
    ensures
        r@.map_values(|c: ToolCall| c@) == calls_among(
            candidate_texts(output@),
            tool_names(declared@),
        ),
        forall|i: int| 0 <= i < r.len() ==> is_sound_call(#[trigger] r[i], declared@),
        forall|i: int, j: int|
            0 <= i < j < r.len() ==> (#[trigger] r[i]).id@ != (#[trigger] r[j]).id@,
        declared.len() == 0 ==> r.len() == 0,
{
    let mut names: Vec<&str> = Vec::new();
    let mut i: usize = 0;
    while i < declared.len()
        invariant
            i <= declared.len(),
            names.len() == i,
            forall|j: int| 0 <= j < i ==> (#[trigger] names[j])@ == declared[j].function.name@,
        decreases declared.len() - i,
    {
        names.push(declared[i].function.name.as_str());
        i += 1;
    }
    assert(str_views(names@) == tool_names(declared@));
    let found = candidates(output);
    let ghost texts = candidate_texts(output@);
    let mut calls: Vec<ToolCall> = Vec::new();
    let mut i: usize = 0;
    assert(calls@.map_values(|c: ToolCall| c@) == calls_among(
        texts.take(0),
        tool_names(declared@),
    ));
    while i < found.len()
        invariant
            i <= found.len(),
            views(found@) == texts,
            str_views(names@) == tool_names(declared@),
            forall|j: int| 0 <= j < calls.len() ==> is_sound_call(#[trigger] calls[j], declared@),
            calls@.map_values(|c: ToolCall| c@) == calls_among(
                texts.take(i as int),
                tool_names(declared@),
            ),
        decreases found.len() - i,
    {
        let ghost before = calls@;
        proof {
            assert(texts[i as int] == found[i as int]@);
            assert(texts.take(i + 1).drop_last() == texts.take(i as int));
        }
        if let Some((name, arguments)) = parse_one(found[i].as_str(), names.as_slice()) {
            let mut id = "call_".to_owned();
            id.append(text::decimal_text(i).as_str());
            let call = ToolCall {
                id,
                call_type: "function".to_owned(),
                function: FunctionCall { name, arguments },
            };
            calls.push(call);
            assert(calls@.map_values(|c: ToolCall| c@) == before.map_values(
                |c: ToolCall| c@,
            ).push(call@));
        }
        i += 1;
    }
    proof {
        assert(texts.take(i as int) == texts);
        let names = tool_names(declared@);
        let among = calls_among(texts, names);
        assert forall|j: int, k: int| 0 <= j < k < calls.len() implies (#[trigger] calls[j]).id@
            != (#[trigger] calls[k]).id@ by {
            laws::law_ids_are_distinct(texts, names, j, k);
            assert(among[j] == calls[j]@ && among[k] == calls[k]@);
        }
        if declared.len() == 0 {
            laws::law_nothing_declared_gives_no_call(texts, names);
            assert(among.len() == calls.len());
        }
    }
    calls
}

/// Whether the request asked for tools to be suppressed entirely.
pub fn tools_disabled(tool_choice: Option<&Value>) -> (r: bool)
    ensures
        r <==> (tool_choice matches Some(choice) && contents(*choice) == Json::String("none"@)),
{
    match tool_choice {
        Some(choice) => match choice.as_str() {
            Some(choice) => text::same(choice, "none"),
            None => false,
        },
        None => false,
    }
}

} // verus!
