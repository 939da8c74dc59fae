//! The policy's configuration, and the error message for one that is refused.

use vstd::prelude::*;
use vstd::string::*;

use crate::json;
use crate::json::{Json, JsonTree};
use crate::pii_rules::PiiPatternConfig;
use crate::sample_rate;
use crate::sample_rate::SampleRate;
use crate::sanitize::REDACTED;
use crate::text;

verus! {

/// The policy's configuration.
#[derive(Debug, Clone)]
pub struct Config {
    /// API key, sent with every batch.
    pub token: String,
    /// HMAC-SHA256 key for pseudonyms.
    pub secret_key: Option<String>,
    /// Backend to fetch the HMAC key from.
    pub backend_url: Option<String>,
    /// Header to read the client address from.
    pub client_ip_header: String,
    /// Header to read the user identity from.
    pub user_id_header: Option<String>,
    /// Allowlist of request headers to capture. Empty or unset: all of them.
    pub capture_headers: Option<Vec<String>>,
    /// Key names whose values are redacted, beside the built-in ones.
    pub custom_sensitive_keys: Option<Vec<String>>,
    /// Custom scrubbing rules.
    pub custom_pii_patterns: Option<Vec<PiiPatternConfig>>,
    /// Glob allowlist of paths.
    pub capture_paths: Option<Vec<String>>,
    /// Glob denylist of paths.
    pub exclude_paths: Option<Vec<String>>,
    /// Fraction of traffic to sample.
    pub sample_rate: SampleRate,
    /// Sampling unit: "session" or "request".
    pub sample_by: String,
    /// Request headers that key the sampling where there is no MCP session.
    pub session_key_header: Option<Vec<String>>,
    /// Capture JSON request bodies.
    pub capture_request_body: bool,
    /// Capture bodies detected as LLM/AI content.
    pub capture_ai_content: bool,
    /// Observe response bodies.
    pub capture_response_body: bool,
    /// Allowlist of response headers to capture. Empty: none of them.
    pub capture_response_headers: Vec<String>,
    /// How many bytes of the front of a response body are retained.
    pub response_head_bytes: u32,
    /// How many bytes of the end of a response body are retained.
    pub response_tail_bytes: u32,
    /// Events per batch, at most.
    pub batch_size: u32,
    /// Flush interval in milliseconds.
    pub flush_interval_ms: u32,
    /// Capacity of the queue.
    pub queue_capacity: u32,
    /// Log verbosity.
    pub log_level: String,
}

/// Default of `client_ip_header`.
pub fn default_client_ip_header() -> (r: String)
    ensures
        r@ == "X-Forwarded-For"@,
{
    "X-Forwarded-For".to_string()
}

/// Default of `sample_rate`: everything.
pub fn default_sample_rate() -> (r: SampleRate)
    ensures
        r.bits == sample_rate::ONE_BITS,
{
    SampleRate { bits: sample_rate::ONE_BITS }
}

/// Default of `sample_by`.
pub fn default_sample_by() -> (r: String)
    ensures
        r@ == "session"@,
{
    "session".to_string()
}

/// Default of `capture_request_body`.
pub fn default_capture_request_body() -> (r: bool)
    ensures
        r,
{
    true
}

/// Default of `capture_ai_content`.
pub fn default_capture_ai_content() -> (r: bool)
    ensures
        r,
{
    true
}

/// Default of `capture_response_headers`: the MCP session id.
pub fn default_capture_response_headers() -> (r: Vec<String>)
    ensures
        text::views(r@) == seq!["mcp-session-id"@],
{
    let mut names: Vec<String> = Vec::new();
    names.push("mcp-session-id".to_string());
    proof {
        assert(text::views(names@) =~= seq!["mcp-session-id"@]);
    }
    names
}

/// Default of `response_head_bytes`.
pub fn default_response_head_bytes() -> (r: u32)
    ensures
        r == 24_576,
{
    24_576
}

/// Default of `response_tail_bytes`.
pub fn default_response_tail_bytes() -> (r: u32)
    ensures
        r == 16_384,
{
    16_384
}

/// Default of `batch_size`.
pub fn default_batch_size() -> (r: u32)
    ensures
        r == 50,
{
    50
}

/// Default of `flush_interval_ms`.
pub fn default_flush_interval_ms() -> (r: u32)
    ensures
        r == 2000,
{
    2000
}

/// Default of `queue_capacity`.
pub fn default_queue_capacity() -> (r: u32)
    ensures
        r == 10_000,
{
    10_000
}

/// Default of `log_level`.
pub fn default_log_level() -> (r: String)
    ensures
        r@ == "info"@,
{
    "info".to_string()
}

// ---------------------------------------------------------------------------
// The message for a refused configuration
// ---------------------------------------------------------------------------

#[verifier::external_type_specification]
#[verifier::external_body]
pub struct ExJsonError(serde_json::Error);

/// What `serde_json::Error`'s `Display` prints.
pub uninterp spec fn error_text(err: serde_json::Error) -> Seq<char>;

/// Prints a `serde_json::Error` with its `Display`.
#[verifier::external_body]
fn print_error(err: &serde_json::Error) -> (r: String)
    ensures
        r@ == error_text(*err),
{
    err.to_string()
}

/// The configuration properties whose values must never reach a log.
pub const SENSITIVE_CONFIG_KEYS: [&'static str; 2] = ["token", "secretKey"];

/// How a message quotes a value: a string as it is, any other value as JSON.
pub open spec fn quoted_value(t: JsonTree) -> Seq<char> {
    match t {
        JsonTree::Text(s) => s,
        _ => json::printed(t),
    }
}

/// The value under one property, as a list: empty where there is none or where
/// it reads as nothing.
pub open spec fn sensitive_value(t: JsonTree, key: Seq<char>) -> Seq<Seq<char>> {
    match json::member(t, key) {
        Some(v) => if quoted_value(v).len() > 0 {
            seq![quoted_value(v)]
        } else {
            Seq::empty()
        },
        None => Seq::empty(),
    }
}

/// The sensitive values in a configuration text, where it is an object.
pub open spec fn sensitive_values(bytes: Seq<u8>) -> Seq<Seq<char>> {
    match json::parsed(bytes) {
        Some(t) => sensitive_value(t, "token"@) + sensitive_value(t, "secretKey"@),
        None => Seq::empty(),
    }
}

/// A message without a value: neither as a quoted string nor as it is.
pub open spec fn without_value(message: Seq<char>, value: Seq<char>) -> Seq<char> {
    text::replaced(
        text::replaced(message, text::debug_text(value), REDACTED@),
        value,
        REDACTED@,
    )
}

/// A message without any of the values.
pub open spec fn without_values(message: Seq<char>, values: Seq<Seq<char>>) -> Seq<char>
    decreases values.len(),
{
    if values.len() == 0 {
        message
    } else {
        without_value(without_values(message, values.drop_last()), values.last())
    }
}

/// Appends the value under one property, where there is one.
fn push_sensitive_value(out: &mut Vec<String>, config: &Json, key: &str)
    requires
        json::ordered(config.tree()),
    ensures
        text::views(final(out)@) == text::views(old(out)@) + sensitive_value(config.tree(), key@),
{
    match config.get(key) {
        Some(v) => {
            proof {
                lemma_member_is_ordered(config.tree(), key@);
            }
            let s = match v {
                Json::Text(s) => s.clone(),
                _ => v.to_text(),
            };
            if !s.as_str().is_empty() {
                out.push(s);
            }
        },
        None => {},
    }
    proof {
        assert(text::views(out@) =~= text::views(old(out)@) + sensitive_value(config.tree(), key@));
    }
}

/// The members of an ordered object are ordered.
proof fn lemma_member_is_ordered(t: JsonTree, key: Seq<char>)
    requires
        json::ordered(t),
    ensures
        json::member(t, key) matches Some(v) ==> json::ordered(v),
{
    if let JsonTree::Object(members) = t {
        lemma_lookup_is_ordered(members, key);
    }
}

/// What is looked up among ordered values is ordered.
proof fn lemma_lookup_is_ordered(members: Seq<(Seq<char>, JsonTree)>, key: Seq<char>)
    requires
        forall|i: int| 0 <= i < members.len() ==> json::ordered((#[trigger] members[i]).1),
    ensures
        json::lookup(members, key) matches Some(v) ==> json::ordered(v),
    decreases members.len(),
{
    if members.len() > 0 {
        assert(json::ordered(members[0].1));
        assert forall|i: int| 0 <= i < members.drop_first().len() implies json::ordered(
            (#[trigger] members.drop_first()[i]).1,
        ) by {
            assert(json::ordered(members[i + 1].1));
        }
        lemma_lookup_is_ordered(members.drop_first(), key);
    }
}

/// The sensitive values in a configuration text.
pub fn sensitive_config_values(bytes: &[u8]) -> (r: Vec<String>)
    ensures
        text::views(r@) == sensitive_values(bytes@),
{
    let mut out: Vec<String> = Vec::new();
    match Json::parse(bytes) {
        Some(config) => {
            push_sensitive_value(&mut out, &config, SENSITIVE_CONFIG_KEYS[0]);
            push_sensitive_value(&mut out, &config, SENSITIVE_CONFIG_KEYS[1]);
        },
        None => {},
    }
    proof {
        assert(text::views(out@) =~= sensitive_values(bytes@));
    }
    out
}

/// Takes the values out of a message.
pub fn redact_values(message: &str, values: &Vec<String>) -> (r: String)
    ensures
        r@ == without_values(message@, text::views(values@)),
{
    let ghost all = text::views(values@);
    let mut out = message.to_string();
    let mut i: usize = 0;
    proof {
        assert(all.take(0) =~= Seq::<Seq<char>>::empty());
    }
    while i < values.len()
        invariant
            all == text::views(values@),
            i <= values@.len(),
            out@ == without_values(message@, all.take(i as int)),
        decreases values@.len() - i,
    {
        proof {
            assert(all.take(i + 1).drop_last() =~= all.take(i as int));
            assert(all.take(i + 1).last() == values@[i as int]@);
        }
        let quoted = text::to_debug(values[i].as_str());
        out = text::replace_all(out.as_str(), quoted.as_str(), REDACTED);
        out = text::replace_all(out.as_str(), values[i].as_str(), REDACTED);
        i += 1;
    }
    proof {
        assert(all.take(i as int) =~= all);
    }
    out
}

/// Renders the error for a refused configuration. The message of a type
/// mismatch quotes the value that does not fit; the values of the sensitive
/// properties are taken out of it, both as quoted strings and as they are.
pub fn redact_parse_error(bytes: &[u8], err: &serde_json::Error) -> (r: String)
    ensures
        r@ == without_values(error_text(*err), sensitive_values(bytes@)),
{
    let message = print_error(err);
    let values = sensitive_config_values(bytes);
    redact_values(message.as_str(), &values)
}

/// What is reported of a refused configuration. It names the problem and never
/// quotes the configuration itself.
pub fn parse_failure(bytes: &[u8], err: &serde_json::Error) -> (r: String)
    ensures
        r@ == "cerberus-flex-gateway: failed to parse config: "@ + without_values(
            error_text(*err),
            sensitive_values(bytes@),
        ),
{
    let mut out = "cerberus-flex-gateway: failed to parse config: ".to_string();
    out.append(redact_parse_error(bytes, err).as_str());
    out
}

// ---------------------------------------------------------------------------
// Laws
// ---------------------------------------------------------------------------

/// Laid `d` places into the marker, the value agrees with it wherever both
/// stand.
pub open spec fn agrees_at(value: Seq<char>, marker: Seq<char>, d: int) -> bool {
    &&& -value.len() < d < marker.len()
    &&& forall|i: int|
        0 <= i < value.len() && 0 <= i + d < marker.len() ==> #[trigger] value[i] == marker[i + d]
}

/// The value could stand in a text so that it overlaps the marker.
pub open spec fn overlaps(value: Seq<char>, marker: Seq<char>) -> bool {
    exists|d: int| agrees_at(value, marker, d)
}

/// Where the end of a value opens the replaced text, it opens the text itself.
proof fn lemma_opening(
    s: Seq<char>,
    needle: Seq<char>,
    marker: Seq<char>,
    value: Seq<char>,
    k: int,
)
    requires
        0 <= k <= value.len(),
        marker.len() > 0,
        !overlaps(value, marker),
        text::starts_with(text::replaced(s, needle, marker), value.skip(k)),
    ensures
        text::starts_with(s, value.skip(k)),
    decreases s.len(),
{
    let r = text::replaced(s, needle, marker);
    let v = value.skip(k);
    if v.len() == 0 {
        assert(s.subrange(0, 0) =~= v);
    } else {
        assert forall|i: int| 0 <= i < v.len() implies v[i] == r[i] by {
            assert(r.subrange(0, v.len() as int)[i] == r[i]);
        }
        if r.len() >= marker.len() && r.take(marker.len() as int) == marker && !(needle.len() > 0
            && s.len() > 0 && !text::starts_with(s, needle)) {
            assert forall|i: int|
                0 <= i < value.len() && 0 <= i + (-k) < marker.len() implies #[trigger] value[i]
                == marker[i + (-k)] by {
                assert(value[i] == v[i - k]);
                assert(marker[i - k] == r.take(marker.len() as int)[i - k]);
            }
            assert(agrees_at(value, marker, -k));
        } else if needle.len() == 0 {
            assert(r.take(marker.len() as int) =~= marker);
        } else if s.len() > 0 {
            if text::starts_with(s, needle) {
                assert(r.take(marker.len() as int) =~= marker);
            } else {
                let rest = text::replaced(s.drop_first(), needle, marker);
                assert(r =~= seq![s[0]] + rest);
                assert forall|j: int| 0 <= j < v.len() - 1 implies #[trigger] rest[j]
                    == value.skip(k + 1)[j] by {
                    assert(rest[j] == r[j + 1]);
                    assert(v[j + 1] == r[j + 1]);
                }
                assert(rest.subrange(0, v.len() - 1) =~= value.skip(k + 1));
                lemma_opening(s.drop_first(), needle, marker, value, k + 1);
                assert(s.drop_first().subrange(0, v.len() - 1) =~= value.skip(k + 1));
                assert forall|i: int| 0 <= i < v.len() implies s[i] == v[i] by {
                    if i > 0 {
                        assert(s.drop_first().subrange(0, v.len() - 1)[i - 1] == s[i]);
                        assert(value.skip(k + 1)[i - 1] == v[i]);
                    }
                }
                assert(s.subrange(0, v.len() as int) =~= v);
            }
        }
    }
}

/// Replacing leaves no occurrence of a value that it takes out, and makes none
/// of a value that was not there.
proof fn lemma_no_occurrence(
    s: Seq<char>,
    needle: Seq<char>,
    marker: Seq<char>,
    value: Seq<char>,
    p: int,
)
    requires
        value.len() > 0,
        marker.len() > 0,
        !overlaps(value, marker),
        needle == value || !text::contains(s, value),
    ensures
        !text::occurs_at(text::replaced(s, needle, marker), value, p),
    decreases s.len(),
{
    let r = text::replaced(s, needle, marker);
    if text::occurs_at(r, value, p) {
        assert forall|i: int| 0 <= i < value.len() implies value[i] == r[p + i] by {
            assert(r.subrange(p, p + value.len())[i] == r[p + i]);
        }
        let begins_with_marker = needle.len() == 0 || (s.len() > 0 && text::starts_with(s, needle));
        if begins_with_marker {
            if needle.len() == 0 && s.len() == 0 {
                assert(r == marker);
            }
            assert(r.take(marker.len() as int) =~= marker);
            if p < marker.len() {
                assert forall|i: int|
                    0 <= i < value.len() && 0 <= i + p < marker.len() implies #[trigger] value[i]
                    == marker[i + p] by {
                    assert(marker[i + p] == r.take(marker.len() as int)[i + p]);
                }
                assert(agrees_at(value, marker, p));
            } else if needle.len() == 0 {
                if s.len() > 0 {
                    let rest = text::replaced(s.drop_first(), needle, marker);
                    assert(r =~= marker + seq![s[0]] + rest);
                    if p == marker.len() {
                        if value.len() > 1 {
                            if rest.len() >= marker.len() {
                                assert(rest.take(marker.len() as int) =~= marker);
                            }
                            assert(agrees_at(value, marker, -1)) by {
                                assert forall|i: int|
                                    0 <= i < value.len() && 0 <= i + (-1)
                                        < marker.len() implies #[trigger] value[i] == marker[i + (-1)] by {
                                    assert(value[i] == rest[i - 1]);
                                    assert(rest[i - 1] == marker[i - 1]);
                                }
                            }
                        } else {
                            assert(s.subrange(0, 1) =~= value);
                            assert(text::occurs_at(s, value, 0));
                        }
                    } else {
                        lemma_tail_has_no_value(s, value, 1);
                        lemma_no_occurrence(
                            s.drop_first(),
                            needle,
                            marker,
                            value,
                            p - marker.len() - 1,
                        );
                        assert(rest.subrange(
                            p - marker.len() - 1,
                            p - marker.len() - 1 + value.len(),
                        ) =~= value);
                    }
                }
            } else {
                let n = needle.len() as int;
                let rest = text::replaced(s.skip(n), needle, marker);
                assert(r =~= marker + rest);
                lemma_tail_has_no_value(s, value, n);
                lemma_no_occurrence(s.skip(n), needle, marker, value, p - marker.len());
                assert(rest.subrange(p - marker.len(), p - marker.len() + value.len()) =~= value);
            }
        } else if s.len() > 0 {
            let rest = text::replaced(s.drop_first(), needle, marker);
            assert(r =~= seq![s[0]] + rest);
            if p == 0 {
                assert(value.skip(0) =~= value);
                assert(text::starts_with(r, value.skip(0)));
                lemma_opening(s, needle, marker, value, 0);
                assert(text::occurs_at(s, value, 0));
            } else {
                lemma_tail_has_no_value(s, value, 1);
                lemma_no_occurrence(s.drop_first(), needle, marker, value, p - 1);
                assert(rest.subrange(p - 1, p - 1 + value.len()) =~= value);
            }
        }
    }
}

/// A text without a value has none in its end.
proof fn lemma_tail_has_no_value(s: Seq<char>, value: Seq<char>, n: int)
    requires
        0 <= n <= s.len(),
    ensures
        !text::contains(s, value) ==> !text::contains(s.skip(n), value),
        n == 1 ==> s.drop_first() == s.skip(n),
{
    if n == 1 {
        assert(s.drop_first() =~= s.skip(1));
    }
    if text::contains(s.skip(n), value) {
        let i = choose|i: int| text::occurs_at(s.skip(n), value, i);
        assert(s.subrange(n + i, n + i + value.len()) =~= s.skip(n).subrange(i, i + value.len()));
        assert(text::occurs_at(s, value, n + i));
    }
}

/// No value that is taken out of a message is left in it, whatever the other
/// values are. Left aside are values that can overlap the marker that replaces
/// them.
pub proof fn law_values_do_not_survive(message: Seq<char>, values: Seq<Seq<char>>, i: int)
    requires
        0 <= i < values.len(),
        values[i].len() > 0,
        !overlaps(values[i], REDACTED@),
    ensures
        !text::contains(without_values(message, values), values[i]),
    decreases values.len(),
{
    reveal_strlit("[REDACTED]");
    let v = values[i];
    let front = without_values(message, values.drop_last());
    let last = values.last();
    let quoted = text::replaced(front, text::debug_text(last), REDACTED@);
    if i < values.len() - 1 {
        law_values_do_not_survive(message, values.drop_last(), i);
        assert forall|p: int| !text::occurs_at(quoted, v, p) by {
            lemma_no_occurrence(front, text::debug_text(last), REDACTED@, v, p);
        }
        assert(!text::contains(quoted, v));
    }
    assert forall|p: int| !text::occurs_at(without_values(message, values), v, p) by {
        lemma_no_occurrence(quoted, last, REDACTED@, v, p);
    }
}

/// The message for a refused configuration holds neither its token nor its
/// secret key. Left aside are values that can overlap the marker that replaces
/// them.
pub proof fn law_parse_error_hides_secrets(
    message: Seq<char>,
    bytes: Seq<u8>,
    t: JsonTree,
    key: Seq<char>,
    v: JsonTree,
)
    requires
        json::parsed(bytes) == Some(t),
        key == "token"@ || key == "secretKey"@,
        json::member(t, key) == Some(v),
        quoted_value(v).len() > 0,
        !overlaps(quoted_value(v), REDACTED@),
    ensures
        !text::contains(without_values(message, sensitive_values(bytes)), quoted_value(v)),
{
    let first = sensitive_value(t, "token"@);
    let second = sensitive_value(t, "secretKey"@);
    let all = sensitive_values(bytes);
    assert(all == first + second);
    let i: int = if key == "token"@ {
        0
    } else {
        first.len() as int
    };
    assert(all[i] == quoted_value(v));
    law_values_do_not_survive(message, all, i);
}

/// Only secrets go: a message that holds none of the values, in quotes or not, is
/// reported as it is.
pub proof fn law_other_messages_are_kept(message: Seq<char>, values: Seq<Seq<char>>)
    requires
        forall|i: int|
            0 <= i < values.len() ==> (#[trigger] values[i]).len() > 0 && !text::contains(
                message,
                values[i],
            ) && text::debug_text(values[i]).len() > 0 && !text::contains(
                message,
                text::debug_text(values[i]),
            ),
    ensures
        without_values(message, values) == message,
    decreases values.len(),
{
    if values.len() > 0 {
        let front = values.drop_last();
        assert forall|i: int| 0 <= i < front.len() implies (#[trigger] front[i]).len() > 0
            && !text::contains(message, front[i]) && text::debug_text(front[i]).len() > 0
            && !text::contains(message, text::debug_text(front[i])) by {
            assert(values[i] == front[i]);
        }
        law_other_messages_are_kept(message, front);
        let v = values[values.len() - 1];
        lemma_kept(message, text::debug_text(v));
        lemma_kept(message, v);
    }
}

/// A message that does not hold a text stays as it is when that text is taken
/// out.
proof fn lemma_kept(message: Seq<char>, v: Seq<char>)
    requires
        v.len() > 0,
        !text::contains(message, v),
    ensures
        text::replaced(message, v, REDACTED@) == message,
{
    assert forall|i: int| 0 <= i < Seq::<char>::empty().len() implies !#[trigger] text::occurs_at(
        Seq::<char>::empty() + v + message,
        v,
        i,
    ) by {}
    text::law_replacing_is_exact(Seq::empty(), v, message, REDACTED@);
}

/// The values that must not be reported are those of the token and of the secret
/// key, where they are there and not empty: a string as it is, any other value as
/// JSON.
pub proof fn law_which_values_are_sensitive(bytes: Seq<u8>, t: JsonTree)
    requires
        json::parsed(bytes) == Some(t),
    ensures
        json::member(t, "token"@) matches Some(JsonTree::Text(s)) && s.len() > 0
            ==> sensitive_values(bytes).contains(json::member(t, "token"@)->0->Text_0),
        json::member(t, "secretKey"@) matches Some(JsonTree::Text(s)) && s.len() > 0
            ==> sensitive_values(bytes).contains(json::member(t, "secretKey"@)->0->Text_0),
        json::member(t, "token"@) matches Some(v) && !(v is Text) && json::printed(v).len() > 0
            ==> sensitive_values(bytes).contains(json::printed(json::member(t, "token"@)->0)),
        json::member(t, "secretKey"@) matches Some(v) && !(v is Text) && json::printed(v).len() > 0
            ==> sensitive_values(bytes).contains(json::printed(json::member(t, "secretKey"@)->0)),
        sensitive_values(bytes).len() <= 2,
{
    let a = sensitive_value(t, "token"@);
    let b = sensitive_value(t, "secretKey"@);
    let all = sensitive_values(bytes);
    assert(all == a + b);
    if a.len() > 0 {
        assert(all[0] == a[0]);
    }
    if b.len() > 0 {
        assert(all[a.len() as int] == b[0]);
    }
}

} // verus!
