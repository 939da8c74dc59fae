//! Detection of LLM/AI content.
//!
//! Where the capture of AI content is switched off, requests and responses
//! that look like LLM traffic ship without their body. The heuristics favour
//! recall: a false positive costs the body of one event, a false negative
//! ships prompt text.
//!
//! JSON-RPC bodies (MCP) are never AI content, whatever else they look like.

use vstd::prelude::*;
use vstd::string::*;

use crate::json;
use crate::json::{Json, JsonTree};
use crate::text;

verus! {

// ---------------------------------------------------------------------------
// Paths
// ---------------------------------------------------------------------------

/// The lowercased path is that of a well-known LLM route.
pub open spec fn llm_route(p: Seq<char>) -> bool {
    ||| text::ends_with(p, "/completions"@)
    ||| text::ends_with(p, "/embeddings"@)
    ||| text::contains(p, "/v1/messages"@)
    ||| text::contains(p, "generatecontent"@)
    ||| text::ends_with(p, "/converse"@)
    ||| text::ends_with(p, "/converse-stream"@)
    ||| text::contains(p, "/model/"@) && (text::ends_with(p, "/invoke"@) || text::ends_with(
        p,
        "/invoke-with-response-stream"@,
    ))
    ||| text::contains(p, "/v1/responses"@)
    ||| text::contains(p, ":predict"@)
    ||| text::contains(p, ":rawpredict"@)
    ||| text::contains(p, ":streamrawpredict"@)
}

/// The path is that of a well-known LLM route, in whatever case it is written.
pub open spec fn llm_path(path: Seq<char>) -> bool {
    llm_route(text::lower(path))
}

/// Whether `s` contains the text `p`.
fn has_text(s: &[char], p: &str) -> (r: bool)
    ensures
        r == text::contains(s@, p@),
{
    let q = text::chars_of(p);
    text::has(s, q.as_slice())
}

/// Whether `s` ends with the text `p`.
fn ends_in(s: &[char], p: &str) -> (r: bool)
    ensures
        r == text::ends_with(s@, p@),
{
    let q = text::chars_of(p);
    text::has_suffix(s, q.as_slice())
}

/// Whether the text `p` stands in `s` at position `i`.
fn text_at(s: &[char], p: &str, i: usize) -> (r: bool)
    ensures
        r == text::occurs_at(s@, p@, i as int),
{
    let q = text::chars_of(p);
    text::match_at(s, q.as_slice(), i)
}

/// Whether a request path looks like a well-known LLM API route.
pub fn is_llm_path(path: &str) -> (r: bool)
    ensures
        r == llm_path(path@),
{
    let chars = text::chars_of(path);
    let lowered = text::to_lower(chars.as_slice());
    let p = lowered.as_slice();
    ends_in(p, "/completions") || ends_in(p, "/embeddings") || has_text(p, "/v1/messages")
        || has_text(p, "generatecontent") || ends_in(p, "/converse") || ends_in(
        p,
        "/converse-stream",
    ) || (has_text(p, "/model/") && (ends_in(p, "/invoke") || ends_in(
        p,
        "/invoke-with-response-stream",
    ))) || has_text(p, "/v1/responses") || has_text(p, ":predict") || has_text(p, ":rawpredict")
        || has_text(p, ":streamrawpredict")
}

// ---------------------------------------------------------------------------
// Parsed bodies
// ---------------------------------------------------------------------------

/// The value is an object with at least one of the keys.
pub open spec fn has_any_key(t: JsonTree, keys: Seq<&str>) -> bool {
    exists|i: int| 0 <= i < keys.len() && json::has_member(t, (#[trigger] keys[i])@)
}

/// Some object in the list has one of the keys.
pub open spec fn some_has_key(items: Seq<JsonTree>, keys: Seq<&str>) -> bool {
    exists|i: int| 0 <= i < items.len() && has_any_key(#[trigger] items[i], keys)
}

/// The member under `field` is an array in which some object has one of the
/// keys.
pub open spec fn item_has_key(t: JsonTree, field: Seq<char>, keys: Seq<&str>) -> bool {
    match json::member(t, field) {
        Some(JsonTree::Array(items)) => some_has_key(items, keys),
        _ => false,
    }
}

/// The member under `field` is the string `value`.
pub open spec fn member_is(t: JsonTree, field: Seq<char>, value: Seq<char>) -> bool {
    json::member(t, field) == Some(JsonTree::Text(value))
}

/// The value is a JSON-RPC envelope.
pub open spec fn jsonrpc_shaped(t: JsonTree) -> bool {
    json::has_member(t, "jsonrpc"@)
}

/// Keys that mark a request to a model, beside the model's name.
pub const MODEL_COMPANIONS: [&'static str; 7] = [
    "prompt",
    "input",
    "messages",
    "contents",
    "message",
    "chat_history",
    "texts",
];

/// Generation parameters that go with a prompt.
pub const GENERATION_PARAMETERS: [&'static str; 4] = [
    "max_tokens",
    "max_tokens_to_sample",
    "temperature",
    "top_p",
];

/// Keys of an entry in a list of chat choices.
pub const CHOICE_KEYS: [&'static str; 4] = ["message", "delta", "text", "finish_reason"];

/// Key of a chat message.
pub const ROLE_KEYS: [&'static str; 1] = ["role"];

/// Key of a content entry.
pub const PARTS_KEYS: [&'static str; 1] = ["parts"];

/// Key of a candidate.
pub const CONTENT_KEYS: [&'static str; 1] = ["content"];

/// Key of an embedding entry.
pub const EMBEDDING_KEYS: [&'static str; 1] = ["embedding"];

/// Key of a generation result.
pub const OUTPUT_TEXT_KEYS: [&'static str; 1] = ["outputText"];

/// The value looks like a prompt.
pub open spec fn prompt_shaped(t: JsonTree) -> bool {
    match t {
        JsonTree::Object(_) => {
            ||| item_has_key(t, "messages"@, ROLE_KEYS@)
            ||| json::has_member(t, "model"@) && has_any_key(t, MODEL_COMPANIONS@)
            ||| item_has_key(t, "contents"@, PARTS_KEYS@)
            ||| json::has_member(t, "prompt"@) && has_any_key(t, GENERATION_PARAMETERS@)
            ||| json::has_member(t, "anthropic_version"@)
            ||| json::has_member(t, "inputText"@) && json::has_member(t, "textGenerationConfig"@)
        },
        JsonTree::Array(items) => items.len() > 0 && json::has_member(items[0], "role"@)
            && json::has_member(items[0], "content"@),
        _ => false,
    }
}

/// The object looks like the output of a model.
pub open spec fn completion_object(t: JsonTree) -> bool {
    ||| item_has_key(t, "choices"@, CHOICE_KEYS@)
    ||| json::member(t, "output"@) matches Some(JsonTree::Array(_)) && (member_is(
        t,
        "object"@,
        "response"@,
    ) || json::has_member(t, "model"@))
    ||| json::has_member(t, "content"@) && (member_is(t, "type"@, "message"@) || json::has_member(
        t,
        "stop_reason"@,
    ))
    ||| item_has_key(t, "candidates"@, CONTENT_KEYS@)
    ||| item_has_key(t, "data"@, EMBEDDING_KEYS@)
    ||| json::has_member(t, "stopReason"@) && json::has_member(t, "output"@)
    ||| item_has_key(t, "results"@, OUTPUT_TEXT_KEYS@)
    ||| json::has_member(t, "generated_text"@)
    ||| json::has_member(t, "finish_reason"@) && (json::has_member(t, "message"@)
        || json::has_member(t, "text"@))
}

/// The value looks like the output of a model. A list is judged by its first
/// element.
pub open spec fn completion_shaped(t: JsonTree) -> bool {
    match t {
        JsonTree::Object(_) => completion_object(t),
        JsonTree::Array(items) => items.len() > 0 && items[0] is Object && completion_object(
            items[0],
        ),
        _ => false,
    }
}

/// Whether the value is an object with at least one of the keys.
fn any_key(body: &Json, keys: &[&str]) -> (r: bool)
    ensures
        r == has_any_key(body.tree(), keys@),
{
    let mut i: usize = 0;
    while i < keys.len()
        invariant
            i <= keys@.len(),
            forall|k: int| 0 <= k < i ==> !json::has_member(body.tree(), (#[trigger] keys@[k])@),
        decreases keys@.len() - i,
    {
        if body.has_key(keys[i]) {
            return true;
        }
        i += 1;
    }
    false
}

/// Whether the member under `field` is an array in which some object has one
/// of the keys.
fn array_elem_has_key(body: &Json, field: &str, keys: &[&str]) -> (r: bool)
    ensures
        r == item_has_key(body.tree(), field@, keys@),
{
    match body.get(field) {
        Some(Json::Array(items)) => {
            let ghost list = json::member(body.tree(), field@)->0->Array_0;
            let mut i: usize = 0;
            while i < items.len()
                invariant
                    i <= items@.len(),
                    list.len() == items@.len(),
                    forall|k: int| 0 <= k < list.len() ==> (#[trigger] list[k]) == items@[k].tree(),
                    forall|k: int| 0 <= k < i ==> !has_any_key(#[trigger] list[k], keys@),
                    json::member(body.tree(), field@) == Some(JsonTree::Array(list)),
                decreases items@.len() - i,
            {
                assert(list[i as int] == items@[i as int].tree());
                if any_key(&items[i], keys) {
                    assert(some_has_key(list, keys@));
                    return true;
                }
                i += 1;
            }
            false
        },
        _ => false,
    }
}

/// Whether the member under `field` is the string `value`.
fn text_member_is(body: &Json, field: &str, value: &str) -> (r: bool)
    ensures
        r == member_is(body.tree(), field@, value@),
{
    match body.get(field) {
        Some(Json::Text(s)) => text::same(s.as_str(), value),
        _ => false,
    }
}

/// Whether a parsed body is a JSON-RPC envelope.
pub fn is_jsonrpc_shaped(body: &Json) -> (r: bool)
    ensures
        r == jsonrpc_shaped(body.tree()),
{
    body.has_key("jsonrpc")
}

/// Whether a parsed body looks like an LLM prompt.
pub fn is_prompt_shaped(body: &Json) -> (r: bool)
    ensures
        r == prompt_shaped(body.tree()),
{
    match body {
        Json::Object(_) => array_elem_has_key(body, "messages", ROLE_KEYS.as_slice())
            || (body.has_key("model") && any_key(body, MODEL_COMPANIONS.as_slice()))
            || array_elem_has_key(body, "contents", PARTS_KEYS.as_slice()) || (body.has_key(
            "prompt",
        ) && any_key(body, GENERATION_PARAMETERS.as_slice())) || body.has_key("anthropic_version")
            || (body.has_key("inputText") && body.has_key("textGenerationConfig")),
        Json::Array(items) => {
            if items.len() == 0 {
                return false;
            }
            assert(body.tree()->Array_0[0] == items@[0].tree());
            items[0].has_key("role") && items[0].has_key("content")
        },
        _ => false,
    }
}

/// Whether an object looks like the output of a model.
fn is_completion_object(o: &Json) -> (r: bool)
    ensures
        r == completion_object(o.tree()),
{
    let output_is_list = match o.get("output") {
        Some(Json::Array(_)) => true,
        _ => false,
    };
    array_elem_has_key(o, "choices", CHOICE_KEYS.as_slice()) || (output_is_list && (text_member_is(
        o,
        "object",
        "response",
    ) || o.has_key("model"))) || (o.has_key("content") && (text_member_is(o, "type", "message")
        || o.has_key("stop_reason"))) || array_elem_has_key(
        o,
        "candidates",
        CONTENT_KEYS.as_slice(),
    ) || array_elem_has_key(o, "data", EMBEDDING_KEYS.as_slice()) || (o.has_key("stopReason")
        && o.has_key("output")) || array_elem_has_key(o, "results", OUTPUT_TEXT_KEYS.as_slice())
        || o.has_key("generated_text") || (o.has_key("finish_reason") && (o.has_key("message")
        || o.has_key("text")))
}

/// Whether a parsed body looks like the output of a model: a completion, a
/// chat message, an embedding or a generation result.
pub fn is_completion_shaped(body: &Json) -> (r: bool)
    ensures
        r == completion_shaped(body.tree()),
{
    match body {
        Json::Object(_) => is_completion_object(body),
        Json::Array(items) => {
            if items.len() == 0 {
                return false;
            }
            assert(body.tree()->Array_0[0] == items@[0].tree());
            match &items[0] {
                Json::Object(_) => is_completion_object(&items[0]),
                _ => false,
            }
        },
        _ => false,
    }
}

/// A request body to withhold: it looks like LLM traffic and is no JSON-RPC.
pub open spec fn suppressed_body(path: Seq<char>, t: JsonTree) -> bool {
    !jsonrpc_shaped(t) && (llm_path(path) || prompt_shaped(t))
}

/// A parsed response body to withhold: it looks like model output, or echoes a
/// prompt, and is no JSON-RPC.
pub open spec fn suppressed_response(path: Seq<char>, t: JsonTree) -> bool {
    !jsonrpc_shaped(t) && (llm_path(path) || completion_shaped(t) || prompt_shaped(t))
}

/// A response text to withhold: the request hit an LLM path, or the text looks
/// like model output.
pub open spec fn suppressed_text(path: Seq<char>, s: Seq<char>) -> bool {
    llm_path(path) || ai_response_text(s)
}

/// A response to withhold, judged from its two ends.
pub open spec fn suppressed_slices(path: Seq<char>, head: Seq<char>, tail: Seq<char>) -> bool {
    llm_path(path) || ai_slices(head, tail)
}

/// Whether to withhold a request body: it looks like LLM traffic and is no
/// JSON-RPC.
pub fn should_suppress_body(path: &str, body: &Json) -> (r: bool)
    ensures
        r == suppressed_body(path@, body.tree()),
{
    !is_jsonrpc_shaped(body) && (is_llm_path(path) || is_prompt_shaped(body))
}

/// Whether to withhold a parsed response body: it looks like model output, or
/// echoes a prompt, and is no JSON-RPC.
pub fn should_suppress_response(path: &str, body: &Json) -> (r: bool)
    ensures
        r == suppressed_response(path@, body.tree()),
{
    !is_jsonrpc_shaped(body) && (is_llm_path(path) || is_completion_shaped(body)
        || is_prompt_shaped(body))
}

// ---------------------------------------------------------------------------
// Unparsed text
// ---------------------------------------------------------------------------

/// How many bytes of a text are inspected, from either end. What tells one
/// provider's output stands at the top of a document or in its last frames.
pub const AI_SNIFF_WINDOW: usize = 2048;

/// Keys that mark a text as model output: those at the top of a document or in
/// its first frame, then those of terminal frames and usage blocks.
pub const SIGNATURE_KEYS: [&'static str; 18] = [
    "choices",
    "candidates",
    "stop_reason",
    "stopReason",
    "finish_reason",
    "finishReason",
    "outputText",
    "embedding",
    "delta",
    "generation_id",
    "generated_text",
    "messages",
    "completionReason",
    "usageMetadata",
    "prompt_tokens",
    "completion_tokens",
    "input_tokens",
    "output_tokens",
];

/// Beginnings of an `object` member that mark model output.
pub const SIGNATURE_OBJECTS: [&'static str; 4] = [
    "chat.completion",
    "text_completion",
    "response",
    "list",
];

/// Beginnings of a `type` member that mark model output.
pub const SIGNATURE_TYPES: [&'static str; 3] = ["message", "content_block", "response."];

/// The ASCII white space characters.
pub open spec fn is_ascii_space(c: char) -> bool {
    c == '\t' || c == '\n' || c == '\u{b}' || c == '\u{c}' || c == '\r' || c == ' '
}

/// The first position from `i` on that holds no ASCII white space, or the end.
pub open spec fn past_spaces(w: Seq<char>, i: int) -> int
    decreases w.len() - i,
{
    if 0 <= i < w.len() && is_ascii_space(w[i]) {
        past_spaces(w, i + 1)
    } else {
        i
    }
}

/// At position `i` stands the quoted `key` followed by a colon, which is at
/// position `past - 1`; white space may stand before it.
pub open spec fn member_at(w: Seq<char>, key: Seq<char>, i: int, past: int) -> bool {
    let colon = past_spaces(w, i + key.len() + 2);
    &&& text::occurs_at(w, seq!['"'] + key + seq!['"'], i)
    &&& colon < w.len() && w[colon] == ':'
    &&& past == colon + 1
}

/// At position `i` stands the member `key` with a string that begins with
/// `value`.
pub open spec fn member_begins_at(w: Seq<char>, key: Seq<char>, value: Seq<char>, i: int) -> bool {
    exists|past: int| #[trigger]
        member_at(w, key, i, past) && text::occurs_at(w, seq!['"'] + value, past_spaces(w, past))
}

/// At position `i` stands what marks the text as model output.
pub open spec fn signature_at(w: Seq<char>, i: int) -> bool {
    ||| exists|k: int, past: int|
        0 <= k < SIGNATURE_KEYS@.len() && #[trigger] member_at(w, SIGNATURE_KEYS@[k]@, i, past)
    ||| exists|k: int|
        0 <= k < SIGNATURE_OBJECTS@.len() && #[trigger] member_begins_at(
            w,
            "object"@,
            SIGNATURE_OBJECTS@[k]@,
            i,
        )
    ||| exists|k: int|
        0 <= k < SIGNATURE_TYPES@.len() && #[trigger] member_begins_at(
            w,
            "type"@,
            SIGNATURE_TYPES@[k]@,
            i,
        )
}

/// The text carries a mark of model output.
pub open spec fn ai_signature(w: Seq<char>) -> bool {
    exists|i: int| signature_at(w, i)
}

/// At position `i` a line begins with a JSON-RPC envelope, possibly indented
/// and behind an SSE `data:` prefix.
pub open spec fn jsonrpc_opener_at(w: Seq<char>, i: int) -> bool {
    let a = past_spaces(w, i);
    let b = if text::occurs_at(w, "data:"@, a) {
        past_spaces(w, a + 5)
    } else {
        a
    };
    &&& 0 <= i <= w.len()
    &&& i == 0 || w[i - 1] == '\n'
    &&& b < w.len() && w[b] == '{'
    &&& text::occurs_at(w, "\"jsonrpc\""@, past_spaces(w, b + 1))
}

/// Some line of the text begins with a JSON-RPC envelope.
pub open spec fn jsonrpc_text(w: Seq<char>) -> bool {
    exists|i: int| jsonrpc_opener_at(w, i)
}

/// `n` characters make the head window of `s`: the shortest front of at least
/// [`AI_SNIFF_WINDOW`] bytes, or all of it.
pub open spec fn head_cut(s: Seq<char>, n: int) -> bool {
    &&& 0 <= n <= s.len()
    &&& n == s.len() || vstd::utf8::encode_utf8(s.take(n)).len() >= AI_SNIFF_WINDOW
    &&& forall|k: int|
        0 <= k < n ==> vstd::utf8::encode_utf8(#[trigger] s.take(k)).len() < AI_SNIFF_WINDOW
}

/// The tail window of `s` begins at position `n`: it is the longest end of at
/// most [`AI_SNIFF_WINDOW`] bytes.
pub open spec fn tail_cut(s: Seq<char>, n: int) -> bool {
    &&& 0 <= n <= s.len()
    &&& vstd::utf8::encode_utf8(s.skip(n)).len() <= AI_SNIFF_WINDOW
    &&& n == 0 || vstd::utf8::encode_utf8(s.skip(n - 1)).len() > AI_SNIFF_WINDOW
}

/// The first bytes of a text, cut between characters.
pub open spec fn head_window_of(s: Seq<char>) -> Seq<char> {
    s.take(choose|n: int| head_cut(s, n))
}

/// The last bytes of a text, cut between characters.
pub open spec fn tail_window_of(s: Seq<char>) -> Seq<char> {
    s.skip(choose|n: int| tail_cut(s, n))
}

/// The text looks like model output: its head carries a mark of it, and no
/// JSON-RPC envelope.
pub open spec fn ai_response_text(s: Seq<char>) -> bool {
    !jsonrpc_text(head_window_of(s)) && ai_signature(head_window_of(s))
}

/// The two ends of a text look like model output: one of them carries a mark
/// of it, and neither a JSON-RPC envelope.
pub open spec fn ai_slices(head: Seq<char>, tail: Seq<char>) -> bool {
    let (h, t) = (head_window_of(head), tail_window_of(tail));
    !jsonrpc_text(h) && !jsonrpc_text(t) && (ai_signature(h) || ai_signature(t))
}

/// The bytes of two texts in a row are those of one after those of the other.
pub proof fn encode_append(a: Seq<char>, b: Seq<char>)
    ensures
        vstd::utf8::encode_utf8(a + b) == vstd::utf8::encode_utf8(a) + vstd::utf8::encode_utf8(b),
    decreases a.len(),
{
    if a.len() == 0 {
        assert(a + b =~= b);
    } else {
        assert((a + b).drop_first() =~= a.drop_first() + b);
        encode_append(a.drop_first(), b);
    }
}

/// How many bytes a character takes.
fn char_width(c: char) -> (r: usize)
    ensures
        r == vstd::utf8::encode_utf8(seq![c]).len(),
        1 <= r <= 4,
{
    let n: u32 = c as u32;
    proof {
        assert(seq![c].drop_first() =~= Seq::<char>::empty());
        reveal_with_fuel(vstd::utf8::encode_utf8, 2);
    }
    if n <= 0x7f {
        1
    } else if n <= 0x7ff {
        2
    } else if n <= 0xffff {
        3
    } else {
        4
    }
}

/// A longer end has more bytes.
proof fn lemma_skip_shrinks(s: Seq<char>, a: int, b: int)
    requires
        0 <= a <= b <= s.len(),
    ensures
        vstd::utf8::encode_utf8(s.skip(b)).len() <= vstd::utf8::encode_utf8(s.skip(a)).len(),
{
    let rest = s.subrange(a, b);
    assert(s.skip(a) =~= rest + s.skip(b));
    encode_append(rest, s.skip(b));
}

/// The head window is unique.
proof fn lemma_head_cut_is_unique(s: Seq<char>, m: int, n: int)
    requires
        head_cut(s, m),
        head_cut(s, n),
    ensures
        m == n,
{
    if m < n {
        assert(vstd::utf8::encode_utf8(s.take(m)).len() < AI_SNIFF_WINDOW);
    } else if n < m {
        assert(vstd::utf8::encode_utf8(s.take(n)).len() < AI_SNIFF_WINDOW);
    }
}

/// The tail window is unique.
proof fn lemma_tail_cut_is_unique(s: Seq<char>, m: int, n: int)
    requires
        tail_cut(s, m),
        tail_cut(s, n),
    ensures
        m == n,
{
    if m < n {
        lemma_skip_shrinks(s, m, n - 1);
    } else if n < m {
        lemma_skip_shrinks(s, n, m - 1);
    }
}

/// The first [`AI_SNIFF_WINDOW`] bytes of a text, cut behind a character.
pub fn head_window(s: &str) -> (r: Vec<char>)
    ensures
        r@ == head_window_of(s@),
{
    let v = text::chars_of(s);
    let mut n: usize = 0;
    let mut bytes: usize = 0;
    proof {
        assert(v@.take(0) =~= Seq::<char>::empty());
    }
    while n < v.len() && bytes < AI_SNIFF_WINDOW
        invariant
            n <= v@.len(),
            bytes <= AI_SNIFF_WINDOW + 4,
            bytes == vstd::utf8::encode_utf8(v@.take(n as int)).len(),
            forall|k: int|
                0 <= k < n ==> vstd::utf8::encode_utf8(#[trigger] v@.take(k)).len()
                    < AI_SNIFF_WINDOW,
        decreases v@.len() - n,
    {
        proof {
            assert(v@.take(n + 1) =~= v@.take(n as int) + seq![v@[n as int]]);
            encode_append(v@.take(n as int), seq![v@[n as int]]);
        }
        bytes = bytes + char_width(v[n]);
        n += 1;
    }
    proof {
        assert(head_cut(v@, n as int));
        lemma_head_cut_is_unique(v@, n as int, choose|k: int| head_cut(v@, k));
        assert(v@.subrange(0, n as int) =~= v@.take(n as int));
    }
    text::copy_range(v.as_slice(), 0, n)
}

/// The last [`AI_SNIFF_WINDOW`] bytes of a text, cut before a character.
pub fn tail_window(s: &str) -> (r: Vec<char>)
    ensures
        r@ == tail_window_of(s@),
{
    let v = text::chars_of(s);
    let mut n: usize = v.len();
    let mut bytes: usize = 0;
    proof {
        assert(v@.skip(n as int) =~= Seq::<char>::empty());
    }
    while n > 0
        invariant_except_break
            n <= v@.len(),
            bytes <= AI_SNIFF_WINDOW,
            bytes == vstd::utf8::encode_utf8(v@.skip(n as int)).len(),
        ensures
            tail_cut(v@, n as int),
        decreases n,
    {
        proof {
            assert(v@.skip(n - 1) =~= seq![v@[n - 1]] + v@.skip(n as int));
            encode_append(seq![v@[n - 1]], v@.skip(n as int));
        }
        let w = char_width(v[n - 1]);
        if bytes + w > AI_SNIFF_WINDOW {
            break;
        }
        bytes = bytes + w;
        n -= 1;
    }
    proof {
        lemma_tail_cut_is_unique(v@, n as int, choose|k: int| tail_cut(v@, k));
        assert(v@.subrange(n as int, v@.len() as int) =~= v@.skip(n as int));
    }
    text::copy_range(v.as_slice(), n, v.len())
}

/// The first position from `i` on that holds no ASCII white space, or the end.
fn skip_spaces(w: &[char], i: usize) -> (r: usize)
    requires
        i <= w@.len(),
    ensures
        i <= r <= w@.len(),
        r == past_spaces(w@, i as int),
{
    let mut r: usize = i;
    while r < w.len() && (w[r] == '\t' || w[r] == '\n' || w[r] == '\u{b}' || w[r] == '\u{c}' || w[r]
        == '\r' || w[r] == ' ')
        invariant
            i <= r <= w@.len(),
            past_spaces(w@, i as int) == past_spaces(w@, r as int),
        decreases w@.len() - r,
    {
        r += 1;
    }
    r
}

/// Looks at position `i` for the quoted `key` and a colon behind it. Returns
/// the position past the colon.
fn find_member(w: &[char], key: &str, i: usize) -> (r: Option<usize>)
    requires
        i <= w@.len(),
    ensures
        match r {
            Some(past) => past <= w@.len() && member_at(w@, key@, i as int, past as int),
            None => forall|past: int| !member_at(w@, key@, i as int, past),
        },
{
    let n: usize = w.len();
    let mut quoted: Vec<char> = Vec::new();
    let k = text::chars_of(key);
    quoted.push('"');
    quoted.extend_from_slice(k.as_slice());
    quoted.push('"');
    proof {
        assert(quoted@ =~= seq!['"'] + key@ + seq!['"']);
    }
    if !text::match_at(w, quoted.as_slice(), i) {
        return None;
    }
    let colon = skip_spaces(w, i + quoted.len());
    if colon < n && w[colon] == ':' {
        Some(colon + 1)
    } else {
        None
    }
}

/// Whether the member `key` with a string that begins with `value` stands at
/// position `i`.
fn begins_member(w: &[char], key: &str, value: &str, i: usize) -> (r: bool)
    requires
        i <= w@.len(),
    ensures
        r == member_begins_at(w@, key@, value@, i as int),
{
    match find_member(w, key, i) {
        Some(past) => {
            let mut opening: Vec<char> = Vec::new();
            let v = text::chars_of(value);
            opening.push('"');
            opening.extend_from_slice(v.as_slice());
            proof {
                assert(opening@ =~= seq!['"'] + value@);
            }
            let at = skip_spaces(w, past);
            text::match_at(w, opening.as_slice(), at)
        },
        None => false,
    }
}

/// Whether what marks model output stands at position `i`.
fn has_signature_at(w: &[char], i: usize) -> (r: bool)
    requires
        i <= w@.len(),
    ensures
        r == signature_at(w@, i as int),
{
    let mut k: usize = 0;
    while k < 18
        invariant
            i <= w@.len(),
            k <= 18,
            forall|j: int, past: int|
                0 <= j < k ==> !(#[trigger] member_at(w@, SIGNATURE_KEYS@[j]@, i as int, past)),
        decreases 18 - k,
    {
        if find_member(w, SIGNATURE_KEYS[k], i).is_some() {
            return true;
        }
        k += 1;
    }
    let mut k: usize = 0;
    while k < 4
        invariant
            i <= w@.len(),
            k <= 4,
            forall|j: int|
                0 <= j < k ==> !(#[trigger] member_begins_at(
                    w@,
                    "object"@,
                    SIGNATURE_OBJECTS@[j]@,
                    i as int,
                )),
        decreases 4 - k,
    {
        if begins_member(w, "object", SIGNATURE_OBJECTS[k], i) {
            return true;
        }
        k += 1;
    }
    let mut k: usize = 0;
    while k < 3
        invariant
            i <= w@.len(),
            k <= 3,
            forall|j: int|
                0 <= j < k ==> !(#[trigger] member_begins_at(
                    w@,
                    "type"@,
                    SIGNATURE_TYPES@[j]@,
                    i as int,
                )),
        decreases 3 - k,
    {
        if begins_member(w, "type", SIGNATURE_TYPES[k], i) {
            return true;
        }
        k += 1;
    }
    false
}

/// A mark of model output begins with a quote.
proof fn lemma_signature_begins_with_quote(w: Seq<char>, i: int)
    requires
        signature_at(w, i),
    ensures
        0 <= i < w.len(),
        w[i] == '"',
{
    assert forall|key: Seq<char>, past: int| member_at(w, key, i, past) implies 0 <= i < w.len()
        && w[i] == '"' by {
        let quoted = seq!['"'] + key + seq!['"'];
        assert(w.subrange(i, i + quoted.len())[0] == quoted[0]);
    }
}

/// Whether a text carries a mark of model output.
fn has_ai_signature(w: &[char]) -> (r: bool)
    ensures
        r == ai_signature(w@),
{
    let mut i: usize = 0;
    while i < w.len()
        invariant
            i <= w@.len(),
            forall|j: int| 0 <= j < i ==> !signature_at(w@, j),
        decreases w@.len() - i,
    {
        if w[i] == '"' {
            if has_signature_at(w, i) {
                return true;
            }
        } else {
            proof {
                if signature_at(w@, i as int) {
                    lemma_signature_begins_with_quote(w@, i as int);
                }
            }
        }
        i += 1;
    }
    proof {
        assert forall|j: int| !signature_at(w@, j) by {
            if signature_at(w@, j) {
                lemma_signature_begins_with_quote(w@, j);
            }
        }
    }
    false
}

/// Whether a line begins at position `i` with a JSON-RPC envelope.
fn has_jsonrpc_opener_at(w: &[char], i: usize) -> (r: bool)
    requires
        i <= w@.len(),
    ensures
        r == jsonrpc_opener_at(w@, i as int),
{
    let n: usize = w.len();
    if i > 0 && w[i - 1] != '\n' {
        return false;
    }
    let a = skip_spaces(w, i);
    proof {
        reveal_strlit("data:");
    }
    let b = if text_at(w, "data:", a) {
        skip_spaces(w, a + 5)
    } else {
        a
    };
    if b < n && w[b] == '{' {
        let c = skip_spaces(w, b + 1);
        text_at(w, "\"jsonrpc\"", c)
    } else {
        false
    }
}

/// Whether some line of a text begins with a JSON-RPC envelope.
pub fn is_jsonrpc_text(window: &[char]) -> (r: bool)
    ensures
        r == jsonrpc_text(window@),
{
    let mut i: usize = 0;
    let n: usize = window.len();
    while i < n
        invariant
            n == window@.len(),
            i <= n,
            forall|j: int| 0 <= j < i ==> !jsonrpc_opener_at(window@, j),
        decreases n - i,
    {
        if has_jsonrpc_opener_at(window, i) {
            return true;
        }
        i += 1;
    }
    has_jsonrpc_opener_at(window, n)
}

/// Whether a raw response text looks like model output. Its head is inspected;
/// a JSON-RPC envelope anywhere in it wins, as a tool result may carry a
/// completion.
pub fn looks_like_ai_response_text(s: &str) -> (r: bool)
    ensures
        r == ai_response_text(s@),
{
    let window = head_window(s);
    !is_jsonrpc_text(window.as_slice()) && has_ai_signature(window.as_slice())
}

/// Whether to withhold a response text that does not parse: the request hit an
/// LLM path, or the text looks like model output.
pub fn should_suppress_response_text(path: &str, s: &str) -> (r: bool)
    ensures
        r == suppressed_text(path@, s@),
{
    is_llm_path(path) || looks_like_ai_response_text(s)
}

/// Whether to withhold a response that is too large to keep, judged from both
/// of its ends. Either may be empty or too short to tell.
pub fn should_suppress_truncated_response(path: &str, head: &str, tail: &str) -> (r: bool)
    ensures
        r == suppressed_slices(path@, head@, tail@),
{
    if is_llm_path(path) {
        return true;
    }
    let h = head_window(head);
    let t = tail_window(tail);
    if is_jsonrpc_text(h.as_slice()) || is_jsonrpc_text(t.as_slice()) {
        return false;
    }
    has_ai_signature(h.as_slice()) || has_ai_signature(t.as_slice())
}

// ---------------------------------------------------------------------------
// Laws
// ---------------------------------------------------------------------------

/// A JSON-RPC body is never withheld, on any path and whatever else it holds.
pub proof fn law_jsonrpc_body_is_never_ai(path: Seq<char>, t: JsonTree)
    requires
        jsonrpc_shaped(t),
    ensures
        !suppressed_body(path, t),
        !suppressed_response(path, t),
{
}

/// A response is withheld wherever the same body would be withheld from a
/// request.
pub proof fn law_response_check_covers_prompts(path: Seq<char>, t: JsonTree)
    requires
        suppressed_body(path, t),
    ensures
        suppressed_response(path, t),
{
}

/// JSON-RPC wins over every mark of model output: a text whose head holds an
/// envelope is no AI content, nor are two slices one of which holds one.
pub proof fn law_jsonrpc_text_is_never_ai(s: Seq<char>, head: Seq<char>, tail: Seq<char>)
    ensures
        jsonrpc_text(head_window_of(s)) ==> !ai_response_text(s),
        jsonrpc_text(head_window_of(head)) || jsonrpc_text(tail_window_of(tail)) ==> !ai_slices(
            head,
            tail,
        ),
{
}

/// The windows are parts of the text and at most four bytes larger than the
/// bound, so that a large text costs no more to inspect than a small one.
pub proof fn law_windows_are_bounded(s: Seq<char>)
    ensures
        exists|n: int| 0 <= n <= s.len() && head_window_of(s) == s.take(n),
        exists|n: int| 0 <= n <= s.len() && tail_window_of(s) == s.skip(n),
        vstd::utf8::encode_utf8(head_window_of(s)).len() < AI_SNIFF_WINDOW + 4,
        vstd::utf8::encode_utf8(tail_window_of(s)).len() <= AI_SNIFF_WINDOW,
{
    let h = lemma_head_cut_exists(s, 0);
    lemma_head_cut_is_unique(s, h, choose|n: int| head_cut(s, n));
    if h > 0 {
        let last = seq![s[h - 1]];
        assert(s.take(h) =~= s.take(h - 1) + last);
        encode_append(s.take(h - 1), last);
        assert(last.drop_first() =~= Seq::<char>::empty());
        reveal_with_fuel(vstd::utf8::encode_utf8, 2);
    } else {
        assert(s.take(0) =~= Seq::<char>::empty());
    }
    let t = lemma_tail_cut_exists(s, s.len() as int);
    lemma_tail_cut_is_unique(s, t, choose|n: int| tail_cut(s, n));
}

/// Every text has a head window.
proof fn lemma_head_cut_exists(s: Seq<char>, from: int) -> (n: int)
    requires
        0 <= from <= s.len(),
        forall|k: int|
            0 <= k < from ==> vstd::utf8::encode_utf8(#[trigger] s.take(k)).len()
                < AI_SNIFF_WINDOW,
    ensures
        head_cut(s, n),
    decreases s.len() - from,
{
    if from == s.len() || vstd::utf8::encode_utf8(s.take(from)).len() >= AI_SNIFF_WINDOW {
        from
    } else {
        lemma_head_cut_exists(s, from + 1)
    }
}

/// Every text has a tail window.
proof fn lemma_tail_cut_exists(s: Seq<char>, from: int) -> (n: int)
    requires
        0 <= from <= s.len(),
        vstd::utf8::encode_utf8(s.skip(from)).len() <= AI_SNIFF_WINDOW || from == s.len(),
    ensures
        tail_cut(s, n),
    decreases from,
{
    assert(s.skip(s.len() as int) =~= Seq::<char>::empty());
    if from == 0 || vstd::utf8::encode_utf8(s.skip(from - 1)).len() > AI_SNIFF_WINDOW {
        from
    } else {
        lemma_tail_cut_exists(s, from - 1)
    }
}

/// The lowercase form of a path stands with one of the texts at its end.
pub open spec fn path_ends_in(path: Seq<char>, end: Seq<char>) -> bool {
    exists|front: Seq<char>| text::lower(path) == #[trigger] (front + end)
}

/// The lowercase form of a path holds the text.
pub open spec fn path_holds(path: Seq<char>, part: Seq<char>) -> bool {
    exists|front: Seq<char>, back: Seq<char>| text::lower(path) == #[trigger] (front + part + back)
}

/// A text ends with another where something stands before it.
proof fn lemma_ends(s: Seq<char>, p: Seq<char>)
    ensures
        text::ends_with(s, p) <==> exists|front: Seq<char>| s == #[trigger] (front + p),
{
    if text::ends_with(s, p) {
        assert(s =~= s.take(s.len() - p.len()) + p);
    }
    if exists|front: Seq<char>| s == #[trigger] (front + p) {
        let front = choose|front: Seq<char>| s == #[trigger] (front + p);
        assert(s.subrange(front.len() as int, s.len() as int) =~= p);
    }
}

/// A text contains another where something stands before and behind it.
proof fn lemma_holds(s: Seq<char>, p: Seq<char>)
    ensures
        text::contains(s, p) <==> exists|front: Seq<char>, back: Seq<char>|
            s == #[trigger] (front + p + back),
{
    if text::contains(s, p) {
        let i = choose|i: int| text::occurs_at(s, p, i);
        assert(s =~= s.take(i) + p + s.skip(i + p.len()));
    }
    if exists|front: Seq<char>, back: Seq<char>| s == #[trigger] (front + p + back) {
        let (front, back) = choose|front: Seq<char>, back: Seq<char>|
            s == #[trigger] (front + p + back);
        let i = front.len() as int;
        assert(s.subrange(i, i + p.len()) =~= p);
        assert(text::occurs_at(s, p, i));
    }
}

/// The LLM routes are these and no others: those that end as the chat, embedding
/// and conversation routes do, those that hold the name of a message, response,
/// content or prediction route, and the invocations of a model.
pub proof fn law_llm_routes(path: Seq<char>)
    ensures
        llm_path(path) <==> {
            ||| path_ends_in(path, "/completions"@)
            ||| path_ends_in(path, "/embeddings"@)
            ||| path_ends_in(path, "/converse"@)
            ||| path_ends_in(path, "/converse-stream"@)
            ||| path_holds(path, "/v1/messages"@)
            ||| path_holds(path, "generatecontent"@)
            ||| path_holds(path, "/v1/responses"@)
            ||| path_holds(path, ":predict"@)
            ||| path_holds(path, ":rawpredict"@)
            ||| path_holds(path, ":streamrawpredict"@)
            ||| path_holds(path, "/model/"@) && (path_ends_in(path, "/invoke"@) || path_ends_in(
                path,
                "/invoke-with-response-stream"@,
            ))
        },
{
    let p = text::lower(path);
    lemma_ends(p, "/completions"@);
    lemma_ends(p, "/embeddings"@);
    lemma_ends(p, "/converse"@);
    lemma_ends(p, "/converse-stream"@);
    lemma_ends(p, "/invoke"@);
    lemma_ends(p, "/invoke-with-response-stream"@);
    lemma_holds(p, "/v1/messages"@);
    lemma_holds(p, "generatecontent"@);
    lemma_holds(p, "/v1/responses"@);
    lemma_holds(p, ":predict"@);
    lemma_holds(p, ":rawpredict"@);
    lemma_holds(p, ":streamrawpredict"@);
    lemma_holds(p, "/model/"@);
}

/// An ordinary route is no LLM route: a path without a colon whose lowercase form
/// speaks of no completion, embedding, conversation, message, response, content
/// or invocation.
pub proof fn law_ordinary_routes_are_not_llm(path: Seq<char>)
    requires
        !path_holds(path, ":"@),
        !path_holds(path, "completions"@),
        !path_holds(path, "embeddings"@),
        !path_holds(path, "converse"@),
        !path_holds(path, "messages"@),
        !path_holds(path, "responses"@),
        !path_holds(path, "generatecontent"@),
        !path_holds(path, "invoke"@),
    ensures
        !llm_path(path),
{
    law_llm_routes(path);
    let p = text::lower(path);
    reveal_strlit(":");
    reveal_strlit("completions");
    reveal_strlit("embeddings");
    reveal_strlit("converse");
    reveal_strlit("messages");
    reveal_strlit("responses");
    reveal_strlit("invoke");
    reveal_strlit("/completions");
    reveal_strlit("/embeddings");
    reveal_strlit("/converse");
    reveal_strlit("/converse-stream");
    reveal_strlit("/v1/messages");
    reveal_strlit("/v1/responses");
    reveal_strlit(":predict");
    reveal_strlit(":rawpredict");
    reveal_strlit(":streamrawpredict");
    reveal_strlit("/invoke");
    reveal_strlit("/invoke-with-response-stream");
    lemma_end_part(path, "/completions"@, "completions"@, 1);
    lemma_end_part(path, "/embeddings"@, "embeddings"@, 1);
    lemma_end_part(path, "/converse"@, "converse"@, 1);
    lemma_end_part(path, "/converse-stream"@, "converse"@, 1);
    lemma_end_part(path, "/invoke"@, "invoke"@, 1);
    lemma_end_part(path, "/invoke-with-response-stream"@, "invoke"@, 1);
    lemma_part(path, "/v1/messages"@, "messages"@, 4);
    lemma_part(path, "/v1/responses"@, "responses"@, 4);
    lemma_part(path, ":predict"@, ":"@, 0);
    lemma_part(path, ":rawpredict"@, ":"@, 0);
    lemma_part(path, ":streamrawpredict"@, ":"@, 0);
}

/// A path that holds a text holds every part of it.
proof fn lemma_part(path: Seq<char>, whole: Seq<char>, part: Seq<char>, at: int)
    requires
        0 <= at,
        at + part.len() <= whole.len(),
        whole.subrange(at, at + part.len()) =~= part,
    ensures
        path_holds(path, whole) ==> path_holds(path, part),
{
    if path_holds(path, whole) {
        let (front, back) = choose|front: Seq<char>, back: Seq<char>|
            text::lower(path) == #[trigger] (front + whole + back);
        let (a, b) = (front + whole.take(at), whole.skip(at + part.len()) + back);
        assert(whole =~= whole.take(at) + part + whole.skip(at + part.len()));
        assert(front + whole + back =~= a + part + b);
        assert(text::lower(path) == a + part + b);
    }
}

/// A path that ends in a text holds every part of it.
proof fn lemma_end_part(path: Seq<char>, whole: Seq<char>, part: Seq<char>, at: int)
    requires
        0 <= at,
        at + part.len() <= whole.len(),
        whole.subrange(at, at + part.len()) =~= part,
    ensures
        path_ends_in(path, whole) ==> path_holds(path, part),
{
    if path_ends_in(path, whole) {
        let front = choose|front: Seq<char>| text::lower(path) == #[trigger] (front + whole);
        assert(front + whole =~= front + whole + Seq::<char>::empty());
        assert(text::lower(path) == front + whole + Seq::<char>::empty());
        lemma_part(path, whole, part, at);
    }
}

/// The value is an object with a member of that name.
pub open spec fn speaks_of(t: JsonTree, key: Seq<char>) -> bool {
    json::member(t, key) is Some
}

/// The member under `field` is a list, and some object in it has a member `key`.
pub open spec fn list_speaks_of(t: JsonTree, field: Seq<char>, key: Seq<char>) -> bool {
    json::member(t, field) matches Some(JsonTree::Array(items)) && exists|i: int|
        0 <= i < items.len() && #[trigger] speaks_of(items[i], key)
}

/// What a list of names comes to, for one value and for a list of them.
proof fn lemma_single_name(t: JsonTree, field: Seq<char>, keys: Seq<&str>, key: Seq<char>)
    requires
        keys.len() == 1,
        keys[0]@ == key,
    ensures
        item_has_key(t, field, keys) <==> list_speaks_of(t, field, key),
{
    if let Some(JsonTree::Array(items)) = json::member(t, field) {
        assert forall|i: int| 0 <= i < items.len() implies (#[trigger] has_any_key(items[i], keys)
            <==> speaks_of(items[i], key)) by {
            if speaks_of(items[i], key) {
                assert(json::has_member(items[i], keys[0]@));
            }
        }
        if some_has_key(items, keys) {
            let i = choose|i: int| 0 <= i < items.len() && has_any_key(#[trigger] items[i], keys);
            assert(speaks_of(items[i], key));
        }
        if list_speaks_of(t, field, key) {
            let i = choose|i: int| 0 <= i < items.len() && #[trigger] speaks_of(items[i], key);
            assert(has_any_key(items[i], keys));
        }
    }
}

/// A prompt is an object that lists messages with a role or contents with parts,
/// names a model beside what it is to work on, gives a prompt with generation
/// parameters, or has the marks of a provider; or a list whose first entry is a
/// message. Nothing else is one.
pub proof fn law_what_a_prompt_looks_like(t: JsonTree)
    ensures
        t is Object ==> (prompt_shaped(t) <==> {
            ||| list_speaks_of(t, "messages"@, "role"@)
            ||| list_speaks_of(t, "contents"@, "parts"@)
            ||| speaks_of(t, "model"@) && {
                ||| speaks_of(t, "prompt"@)
                ||| speaks_of(t, "input"@)
                ||| speaks_of(t, "messages"@)
                ||| speaks_of(t, "contents"@)
                ||| speaks_of(t, "message"@)
                ||| speaks_of(t, "chat_history"@)
                ||| speaks_of(t, "texts"@)
            }
            ||| speaks_of(t, "prompt"@) && {
                ||| speaks_of(t, "max_tokens"@)
                ||| speaks_of(t, "max_tokens_to_sample"@)
                ||| speaks_of(t, "temperature"@)
                ||| speaks_of(t, "top_p"@)
            }
            ||| speaks_of(t, "anthropic_version"@)
            ||| speaks_of(t, "inputText"@) && speaks_of(t, "textGenerationConfig"@)
        }),
        t matches JsonTree::Array(items) ==> (prompt_shaped(t) <==> items.len() > 0 && speaks_of(
            items[0],
            "role"@,
        ) && speaks_of(items[0], "content"@)),
        prompt_shaped(t) ==> t is Object || t is Array,
{
    lemma_single_name(t, "messages"@, ROLE_KEYS@, "role"@);
    lemma_single_name(t, "contents"@, PARTS_KEYS@, "parts"@);
    assert(MODEL_COMPANIONS@[0]@ == "prompt"@);
    assert(MODEL_COMPANIONS@[1]@ == "input"@);
    assert(MODEL_COMPANIONS@[2]@ == "messages"@);
    assert(MODEL_COMPANIONS@[3]@ == "contents"@);
    assert(MODEL_COMPANIONS@[4]@ == "message"@);
    assert(MODEL_COMPANIONS@[5]@ == "chat_history"@);
    assert(MODEL_COMPANIONS@[6]@ == "texts"@);
    assert(GENERATION_PARAMETERS@[0]@ == "max_tokens"@);
    assert(GENERATION_PARAMETERS@[1]@ == "max_tokens_to_sample"@);
    assert(GENERATION_PARAMETERS@[2]@ == "temperature"@);
    assert(GENERATION_PARAMETERS@[3]@ == "top_p"@);
    assert(has_any_key(t, MODEL_COMPANIONS@) <==> {
        ||| json::has_member(t, "prompt"@)
        ||| json::has_member(t, "input"@)
        ||| json::has_member(t, "messages"@)
        ||| json::has_member(t, "contents"@)
        ||| json::has_member(t, "message"@)
        ||| json::has_member(t, "chat_history"@)
        ||| json::has_member(t, "texts"@)
    });
    assert(has_any_key(t, GENERATION_PARAMETERS@) <==> {
        ||| json::has_member(t, "max_tokens"@)
        ||| json::has_member(t, "max_tokens_to_sample"@)
        ||| json::has_member(t, "temperature"@)
        ||| json::has_member(t, "top_p"@)
    });
}

/// What the names of a chat choice come to.
proof fn lemma_choices(t: JsonTree)
    ensures
        item_has_key(t, "choices"@, CHOICE_KEYS@) <==> {
            ||| list_speaks_of(t, "choices"@, "message"@)
            ||| list_speaks_of(t, "choices"@, "delta"@)
            ||| list_speaks_of(t, "choices"@, "text"@)
            ||| list_speaks_of(t, "choices"@, "finish_reason"@)
        },
{
    assert(CHOICE_KEYS@[0]@ == "message"@);
    assert(CHOICE_KEYS@[1]@ == "delta"@);
    assert(CHOICE_KEYS@[2]@ == "text"@);
    assert(CHOICE_KEYS@[3]@ == "finish_reason"@);
    if let Some(JsonTree::Array(items)) = json::member(t, "choices"@) {
        assert forall|i: int| 0 <= i < items.len() implies (#[trigger] has_any_key(
            items[i],
            CHOICE_KEYS@,
        ) <==> {
            ||| speaks_of(items[i], "message"@)
            ||| speaks_of(items[i], "delta"@)
            ||| speaks_of(items[i], "text"@)
            ||| speaks_of(items[i], "finish_reason"@)
        }) by {}
        if some_has_key(items, CHOICE_KEYS@) {
            let i = choose|i: int|
                0 <= i < items.len() && has_any_key(#[trigger] items[i], CHOICE_KEYS@);
            assert({
                ||| speaks_of(items[i], "message"@)
                ||| speaks_of(items[i], "delta"@)
                ||| speaks_of(items[i], "text"@)
                ||| speaks_of(items[i], "finish_reason"@)
            });
        }
        if list_speaks_of(t, "choices"@, "message"@) {
            let i = choose|i: int| 0 <= i < items.len() && #[trigger] speaks_of(items[i], "message"@);
            assert(has_any_key(items[i], CHOICE_KEYS@));
        }
        if list_speaks_of(t, "choices"@, "delta"@) {
            let i = choose|i: int| 0 <= i < items.len() && #[trigger] speaks_of(items[i], "delta"@);
            assert(has_any_key(items[i], CHOICE_KEYS@));
        }
        if list_speaks_of(t, "choices"@, "text"@) {
            let i = choose|i: int| 0 <= i < items.len() && #[trigger] speaks_of(items[i], "text"@);
            assert(has_any_key(items[i], CHOICE_KEYS@));
        }
        if list_speaks_of(t, "choices"@, "finish_reason"@) {
            let i = choose|i: int| 0 <= i < items.len() && #[trigger] speaks_of(items[i], "finish_reason"@);
            assert(has_any_key(items[i], CHOICE_KEYS@));
        }
    }
}

/// Model output is an object that lists choices, candidates, embeddings or
/// results, an output list of a model or a response, or content, text or output
/// beside the reason why it ends; or a list whose first entry is such an object.
/// Nothing else is.
pub proof fn law_what_a_completion_looks_like(t: JsonTree)
    ensures
        t is Object ==> (completion_shaped(t) <==> {
            ||| list_speaks_of(t, "choices"@, "message"@)
            ||| list_speaks_of(t, "choices"@, "delta"@)
            ||| list_speaks_of(t, "choices"@, "text"@)
            ||| list_speaks_of(t, "choices"@, "finish_reason"@)
            ||| list_speaks_of(t, "candidates"@, "content"@)
            ||| list_speaks_of(t, "data"@, "embedding"@)
            ||| list_speaks_of(t, "results"@, "outputText"@)
            ||| json::member(t, "output"@) matches Some(JsonTree::Array(_)) && (json::member(
                t,
                "object"@,
            ) == Some(JsonTree::Text("response"@)) || speaks_of(t, "model"@))
            ||| speaks_of(t, "content"@) && (json::member(t, "type"@) == Some(
                JsonTree::Text("message"@),
            ) || speaks_of(t, "stop_reason"@))
            ||| speaks_of(t, "stopReason"@) && speaks_of(t, "output"@)
            ||| speaks_of(t, "generated_text"@)
            ||| speaks_of(t, "finish_reason"@) && (speaks_of(t, "message"@) || speaks_of(
                t,
                "text"@,
            ))
        }),
        t matches JsonTree::Array(items) ==> (completion_shaped(t) <==> items.len() > 0
            && items[0] is Object && completion_shaped(items[0])),
        completion_shaped(t) ==> t is Object || t is Array,
{
    lemma_choices(t);
    lemma_single_name(t, "candidates"@, CONTENT_KEYS@, "content"@);
    lemma_single_name(t, "data"@, EMBEDDING_KEYS@, "embedding"@);
    lemma_single_name(t, "results"@, OUTPUT_TEXT_KEYS@, "outputText"@);
}

/// A body is withheld where its path or its shape says that it is a prompt, a
/// response also where it looks like model output; a JSON-RPC envelope never is.
pub proof fn law_what_is_withheld(path: Seq<char>, t: JsonTree)
    ensures
        jsonrpc_shaped(t) <==> speaks_of(t, "jsonrpc"@),
        suppressed_body(path, t) <==> !speaks_of(t, "jsonrpc"@) && (llm_path(path)
            || prompt_shaped(t)),
        suppressed_response(path, t) <==> !speaks_of(t, "jsonrpc"@) && (llm_path(path)
            || prompt_shaped(t) || completion_shaped(t)),
{
}

/// A text is withheld where its path says so or its head carries the marks of
/// model output and no JSON-RPC envelope; a cut body where either end does and
/// neither holds an envelope.
pub proof fn law_which_texts_are_withheld(
    path: Seq<char>,
    s: Seq<char>,
    head: Seq<char>,
    tail: Seq<char>,
)
    ensures
        suppressed_text(path, s) <==> llm_path(path) || (!jsonrpc_text(head_window_of(s))
            && ai_signature(head_window_of(s))),
        suppressed_slices(path, head, tail) <==> llm_path(path) || (!jsonrpc_text(
            head_window_of(head),
        ) && !jsonrpc_text(tail_window_of(tail)) && (ai_signature(head_window_of(head))
            || ai_signature(tail_window_of(tail)))),
{
}

/// A character takes one to four bytes.
proof fn lemma_one_character(c: char)
    ensures
        1 <= vstd::utf8::encode_utf8(seq![c]).len() <= 4,
{
    assert(seq![c].drop_first() =~= Seq::<char>::empty());
    reveal_with_fuel(vstd::utf8::encode_utf8, 2);
}

/// The head window is a front of the text: all of it up to 2048 bytes, and of a
/// longer one 2048 bytes, or up to three more where a character ends only there.
pub proof fn law_the_head_window(s: Seq<char>)
    ensures
        head_window_of(s).len() <= s.len(),
        head_window_of(s) == s.take(head_window_of(s).len() as int),
        vstd::utf8::encode_utf8(s).len() <= 2048 ==> head_window_of(s) == s,
        vstd::utf8::encode_utf8(s).len() > 2048 ==> 2048 <= vstd::utf8::encode_utf8(
            head_window_of(s),
        ).len() <= 2051,
{
    let h = lemma_head_cut_exists(s, 0);
    let n = choose|n: int| head_cut(s, n);
    lemma_head_cut_is_unique(s, h, n);
    assert(s.take(s.len() as int) =~= s);
    if n < s.len() {
        let next = seq![s[n]];
        assert(s =~= s.take(n) + (next + s.skip(n + 1)));
        encode_append(s.take(n), next + s.skip(n + 1));
        encode_append(next, s.skip(n + 1));
        lemma_one_character(s[n]);
    }
    if n > 0 {
        let last = seq![s[n - 1]];
        assert(s.take(n) =~= s.take(n - 1) + last);
        encode_append(s.take(n - 1), last);
        lemma_one_character(s[n - 1]);
    }
}

/// The tail window is an end of the text: all of it up to 2048 bytes, and of a
/// longer one 2048 bytes, or up to three fewer where a character begins only there.
pub proof fn law_the_tail_window(s: Seq<char>)
    ensures
        tail_window_of(s).len() <= s.len(),
        tail_window_of(s) == s.skip(s.len() - tail_window_of(s).len()),
        vstd::utf8::encode_utf8(s).len() <= 2048 ==> tail_window_of(s) == s,
        vstd::utf8::encode_utf8(s).len() > 2048 ==> 2045 <= vstd::utf8::encode_utf8(
            tail_window_of(s),
        ).len() <= 2048,
{
    let t = lemma_tail_cut_exists(s, s.len() as int);
    let m = choose|m: int| tail_cut(s, m);
    lemma_tail_cut_is_unique(s, t, m);
    assert(s.skip(0) =~= s);
    if m > 0 {
        let first = seq![s[m - 1]];
        assert(s.skip(m - 1) =~= first + s.skip(m));
        encode_append(first, s.skip(m));
        lemma_one_character(s[m - 1]);
        lemma_skip_shrinks(s, 0, m - 1);
    }
}

/// The text is made of ASCII white space.
pub open spec fn is_blank_space(s: Seq<char>) -> bool {
    forall|k: int|
        0 <= k < s.len() ==> #[trigger] s[k] == ' ' || s[k] == '\t' || s[k] == '\n' || s[k] == '\r'
            || s[k] == '\u{b}' || s[k] == '\u{c}'
}

/// White space is passed over up to what follows it.
proof fn lemma_past_spaces(front: Seq<char>, gap: Seq<char>, back: Seq<char>)
    requires
        is_blank_space(gap),
        back.len() > 0,
        !is_ascii_space(back[0]),
    ensures
        past_spaces(front + gap + back, front.len() as int) == front.len() + gap.len(),
    decreases gap.len(),
{
    let w = front + gap + back;
    let n = front.len() as int;
    if gap.len() > 0 {
        assert(w[n] == gap[0]);
        let rest = gap.drop_first();
        assert(front.push(gap[0]) + rest + back =~= w);
        lemma_past_spaces(front.push(gap[0]), rest, back);
    } else {
        assert(w[n] == back[0]);
    }
}

/// The name marks model output where it stands as a key.
pub open spec fn marks_output(key: Seq<char>) -> bool {
    ||| key == "choices"@
    ||| key == "candidates"@
    ||| key == "stop_reason"@
    ||| key == "stopReason"@
    ||| key == "finish_reason"@
    ||| key == "finishReason"@
    ||| key == "outputText"@
    ||| key == "embedding"@
    ||| key == "delta"@
    ||| key == "generation_id"@
    ||| key == "generated_text"@
    ||| key == "messages"@
    ||| key == "completionReason"@
    ||| key == "usageMetadata"@
    ||| key == "prompt_tokens"@
    ||| key == "completion_tokens"@
    ||| key == "input_tokens"@
    ||| key == "output_tokens"@
}

/// Model output is recognised by its keys wherever they stand, with any white
/// space before the colon.
pub proof fn law_output_is_recognised_by_its_keys(
    front: Seq<char>,
    key: Seq<char>,
    gap: Seq<char>,
    back: Seq<char>,
)
    requires
        marks_output(key),
        is_blank_space(gap),
    ensures
        ai_signature(front + (seq!['"'] + key + seq!['"']) + gap + (seq![':'] + back)),
{
    let quoted = seq!['"'] + key + seq!['"'];
    let w = front + quoted + gap + (seq![':'] + back);
    let i = front.len() as int;
    assert(w.subrange(i, i + quoted.len()) =~= quoted);
    assert(front + quoted + gap + (seq![':'] + back) =~= (front + quoted) + gap + (seq![':'] + back));
    lemma_past_spaces(front + quoted, gap, seq![':'] + back);
    let colon = i + quoted.len() + gap.len();
    assert(w[colon] == ':');
    assert(member_at(w, key, i, colon + 1));
    assert(SIGNATURE_KEYS@[0]@ == "choices"@);
    assert(SIGNATURE_KEYS@[1]@ == "candidates"@);
    assert(SIGNATURE_KEYS@[2]@ == "stop_reason"@);
    assert(SIGNATURE_KEYS@[3]@ == "stopReason"@);
    assert(SIGNATURE_KEYS@[4]@ == "finish_reason"@);
    assert(SIGNATURE_KEYS@[5]@ == "finishReason"@);
    assert(SIGNATURE_KEYS@[6]@ == "outputText"@);
    assert(SIGNATURE_KEYS@[7]@ == "embedding"@);
    assert(SIGNATURE_KEYS@[8]@ == "delta"@);
    assert(SIGNATURE_KEYS@[9]@ == "generation_id"@);
    assert(SIGNATURE_KEYS@[10]@ == "generated_text"@);
    assert(SIGNATURE_KEYS@[11]@ == "messages"@);
    assert(SIGNATURE_KEYS@[12]@ == "completionReason"@);
    assert(SIGNATURE_KEYS@[13]@ == "usageMetadata"@);
    assert(SIGNATURE_KEYS@[14]@ == "prompt_tokens"@);
    assert(SIGNATURE_KEYS@[15]@ == "completion_tokens"@);
    assert(SIGNATURE_KEYS@[16]@ == "input_tokens"@);
    assert(SIGNATURE_KEYS@[17]@ == "output_tokens"@);
    assert(exists|k: int| 0 <= k < SIGNATURE_KEYS@.len() && #[trigger] SIGNATURE_KEYS@[k]@ == key);
    let k = choose|k: int| 0 <= k < SIGNATURE_KEYS@.len() && #[trigger] SIGNATURE_KEYS@[k]@ == key;
    assert(member_at(w, SIGNATURE_KEYS@[k]@, i, colon + 1));
    assert(signature_at(w, i));
}

/// The value of an object or type member marks model output by how it begins.
pub open spec fn marks_kind(key: Seq<char>, value: Seq<char>) -> bool {
    ||| key == "object"@ && {
        ||| value == "chat.completion"@
        ||| value == "text_completion"@
        ||| value == "response"@
        ||| value == "list"@
    }
    ||| key == "type"@ && {
        ||| value == "message"@
        ||| value == "content_block"@
        ||| value == "response."@
    }
}

/// Model output is also recognised by what its object or type begins with.
pub proof fn law_output_is_recognised_by_its_kind(
    front: Seq<char>,
    key: Seq<char>,
    value: Seq<char>,
    gap: Seq<char>,
    second: Seq<char>,
    back: Seq<char>,
)
    requires
        is_blank_space(gap),
        is_blank_space(second),
        marks_kind(key, value),
    ensures
        ai_signature(
            front + (seq!['"'] + key + seq!['"']) + gap + seq![':'] + second + (seq!['"'] + value
                + back),
        ),
{
    let quoted = seq!['"'] + key + seq!['"'];
    let opening = seq!['"'] + value;
    let w = front + quoted + gap + seq![':'] + second + (seq!['"'] + value + back);
    let i = front.len() as int;
    assert(w.subrange(i, i + quoted.len()) =~= quoted);
    let after = seq![':'] + second + (seq!['"'] + value + back);
    assert(w =~= (front + quoted) + gap + after);
    lemma_past_spaces(front + quoted, gap, after);
    let colon = i + quoted.len() + gap.len();
    assert(w[colon] == ':');
    assert(member_at(w, key, i, colon + 1));
    let upto = front + quoted + gap + seq![':'];
    assert(w =~= upto + second + (seq!['"'] + value + back));
    assert((seq!['"'] + value + back)[0] == '"');
    lemma_past_spaces(upto, second, seq!['"'] + value + back);
    let at = colon + 1 + second.len();
    assert(w.subrange(at, at + opening.len()) =~= opening);
    assert(text::occurs_at(w, opening, past_spaces(w, colon + 1)));
    assert(member_begins_at(w, key, value, i));
    assert(SIGNATURE_OBJECTS@[0]@ == "chat.completion"@);
    assert(SIGNATURE_OBJECTS@[1]@ == "text_completion"@);
    assert(SIGNATURE_OBJECTS@[2]@ == "response"@);
    assert(SIGNATURE_OBJECTS@[3]@ == "list"@);
    assert(SIGNATURE_TYPES@[0]@ == "message"@);
    assert(SIGNATURE_TYPES@[1]@ == "content_block"@);
    assert(SIGNATURE_TYPES@[2]@ == "response."@);
    if key == "object"@ && (exists|k: int|
        0 <= k < SIGNATURE_OBJECTS@.len() && #[trigger] SIGNATURE_OBJECTS@[k]@ == value) {
        let k = choose|k: int|
            0 <= k < SIGNATURE_OBJECTS@.len() && #[trigger] SIGNATURE_OBJECTS@[k]@ == value;
        assert(member_begins_at(w, "object"@, SIGNATURE_OBJECTS@[k]@, i));
    } else {
        assert(exists|k: int|
            0 <= k < SIGNATURE_TYPES@.len() && #[trigger] SIGNATURE_TYPES@[k]@ == value);
        let k = choose|k: int|
            0 <= k < SIGNATURE_TYPES@.len() && #[trigger] SIGNATURE_TYPES@[k]@ == value;
        assert(member_begins_at(w, "type"@, SIGNATURE_TYPES@[k]@, i));
    }
    assert(signature_at(w, i));
}

/// Nothing else is taken for model output: a text in which none of those keys,
/// nor an object or a type, stands in quotes is not.
pub proof fn law_other_text_is_no_output(w: Seq<char>)
    requires
        forall|key: Seq<char>|
            (marks_output(key) || key == "object"@ || key == "type"@) ==> !text::contains(
                w,
                #[trigger] (seq!['"'] + key + seq!['"']),
            ),
    ensures
        !ai_signature(w),
{
    if ai_signature(w) {
        let i = choose|i: int| signature_at(w, i);
        assert(SIGNATURE_KEYS@[0]@ == "choices"@);
        assert(SIGNATURE_KEYS@[1]@ == "candidates"@);
        assert(SIGNATURE_KEYS@[2]@ == "stop_reason"@);
        assert(SIGNATURE_KEYS@[3]@ == "stopReason"@);
        assert(SIGNATURE_KEYS@[4]@ == "finish_reason"@);
        assert(SIGNATURE_KEYS@[5]@ == "finishReason"@);
        assert(SIGNATURE_KEYS@[6]@ == "outputText"@);
        assert(SIGNATURE_KEYS@[7]@ == "embedding"@);
        assert(SIGNATURE_KEYS@[8]@ == "delta"@);
        assert(SIGNATURE_KEYS@[9]@ == "generation_id"@);
        assert(SIGNATURE_KEYS@[10]@ == "generated_text"@);
        assert(SIGNATURE_KEYS@[11]@ == "messages"@);
        assert(SIGNATURE_KEYS@[12]@ == "completionReason"@);
        assert(SIGNATURE_KEYS@[13]@ == "usageMetadata"@);
        assert(SIGNATURE_KEYS@[14]@ == "prompt_tokens"@);
        assert(SIGNATURE_KEYS@[15]@ == "completion_tokens"@);
        assert(SIGNATURE_KEYS@[16]@ == "input_tokens"@);
        assert(SIGNATURE_KEYS@[17]@ == "output_tokens"@);
        if exists|k: int, past: int|
            0 <= k < SIGNATURE_KEYS@.len() && #[trigger] member_at(w, SIGNATURE_KEYS@[k]@, i, past) {
            let (k, past) = choose|k: int, past: int|
                0 <= k < SIGNATURE_KEYS@.len() && #[trigger] member_at(
                    w,
                    SIGNATURE_KEYS@[k]@,
                    i,
                    past,
                );
            let key = SIGNATURE_KEYS@[k]@;
            assert(marks_output(key));
            assert(text::occurs_at(w, seq!['"'] + key + seq!['"'], i));
        } else if exists|k: int|
            0 <= k < SIGNATURE_OBJECTS@.len() && #[trigger] member_begins_at(
                w,
                "object"@,
                SIGNATURE_OBJECTS@[k]@,
                i,
            ) {
            assert(text::occurs_at(w, seq!['"'] + "object"@ + seq!['"'], i));
        } else {
            assert(text::occurs_at(w, seq!['"'] + "type"@ + seq!['"'], i));
        }
    }
}

/// A JSON-RPC envelope is recognised at the start of any line, indented or not
/// and behind a data prefix or not; and a text that nowhere names the protocol
/// holds none.
pub proof fn law_envelopes_are_recognised(
    front: Seq<char>,
    gap: Seq<char>,
    second: Seq<char>,
    third: Seq<char>,
    back: Seq<char>,
    w: Seq<char>,
)
    requires
        front.len() == 0 || front.last() == '\n',
        is_blank_space(gap),
        is_blank_space(second),
        is_blank_space(third),
    ensures
        jsonrpc_text(front + gap + (seq!['{'] + third + ("\"jsonrpc\""@ + back))),
        jsonrpc_text(
            front + gap + ("data:"@ + second + (seq!['{'] + third + ("\"jsonrpc\""@ + back))),
        ),
        !text::contains(w, "\"jsonrpc\""@) ==> !jsonrpc_text(w),
{
    reveal_strlit("\"jsonrpc\"");
    reveal_strlit("data:");
    let n = front.len() as int;
    let body = seq!['{'] + third + ("\"jsonrpc\""@ + back);
    let a = front + gap + body;
    lemma_past_spaces(front, gap, body);
    let b = n + gap.len();
    assert(a[b] == '{');
    assert(!text::occurs_at(a, "data:"@, b)) by {
        assert(a.subrange(b, b + 5)[0] == '{' || b + 5 > a.len());
    }
    assert(a =~= (front + gap + seq!['{']) + third + ("\"jsonrpc\""@ + back));
    lemma_past_spaces(front + gap + seq!['{'], third, "\"jsonrpc\""@ + back);
    let at = b + 1 + third.len();
    assert(a.subrange(at, at + 9) =~= "\"jsonrpc\""@);
    assert(jsonrpc_opener_at(a, n));

    let framed = "data:"@ + second + body;
    let c = front + gap + framed;
    lemma_past_spaces(front, gap, framed);
    assert(c.subrange(b, b + 5) =~= "data:"@);
    assert(c =~= (front + gap + "data:"@) + second + body);
    lemma_past_spaces(front + gap + "data:"@, second, body);
    let d = b + 5 + second.len();
    assert(c[d] == '{');
    let upto = front + gap + "data:"@ + second + seq!['{'];
    assert(c =~= upto + third + ("\"jsonrpc\""@ + back));
    lemma_past_spaces(upto, third, "\"jsonrpc\""@ + back);
    let e = d + 1 + third.len();
    assert(c.subrange(e, e + 9) =~= "\"jsonrpc\""@);
    assert(jsonrpc_opener_at(c, n));
    if jsonrpc_text(w) {
        let i = choose|i: int| jsonrpc_opener_at(w, i);
        assert(text::contains(w, "\"jsonrpc\""@));
    }
}

} // verus!
