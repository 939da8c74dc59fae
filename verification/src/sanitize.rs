//! Sanitization of JSON values and header names.
//!
//! The built-in rules are a floor: the value under a sensitive key is replaced
//! whole, whatever custom rules say. Custom rules only add to it: extra keys,
//! rules on key names, and rules that rewrite matches inside string values.

use vstd::prelude::*;
use vstd::string::*;

use crate::hash;
use crate::json;
use crate::json::{Json, JsonTree};
use crate::pattern;
use crate::pii_rules::{CompiledPattern, CompiledPiiRules, PiiAction};
use crate::text;

verus! {

/// What stands in place of a redacted value.
pub const REDACTED: &'static str = "[REDACTED]";

/// Lowercase names of the headers whose values never ship raw.
pub const SENSITIVE_HEADERS_LOWER: [&'static str; 6] = [
    "authorization",
    "cookie",
    "set-cookie",
    "x-api-key",
    "x-auth-token",
    "proxy-authorization",
];

/// Lowercase key names whose values are redacted.
pub const SENSITIVE_KEYS_LOWER: [&'static str; 22] = [
    "password",
    "passwd",
    "secret",
    "token",
    "api_key",
    "apikey",
    "api_secret",
    "access_token",
    "refresh_token",
    "authorization",
    "auth",
    "credential",
    "credentials",
    "private_key",
    "ssh_key",
    "session_id",
    "session_token",
    "cookie",
    "credit_card",
    "card_number",
    "cvv",
    "ssn",
];

/// The nesting depth below which values are redacted whole.
pub const MAX_DEPTH: usize = 20;

// ---------------------------------------------------------------------------
// What sanitizing means
// ---------------------------------------------------------------------------

/// The lowercase header name is sensitive.
pub open spec fn sensitive_header(name: Seq<char>) -> bool {
    exists|i: int|
        0 <= i < SENSITIVE_HEADERS_LOWER@.len() && (#[trigger] SENSITIVE_HEADERS_LOWER@[i])@ == name
}

/// The lowercase key is sensitive by the built-in rules.
pub open spec fn builtin_key(key: Seq<char>) -> bool {
    exists|i: int|
        0 <= i < SENSITIVE_KEYS_LOWER@.len() && (#[trigger] SENSITIVE_KEYS_LOWER@[i])@ == key
}

/// The key is sensitive, in whatever case it is written.
pub open spec fn sensitive_key(key: Seq<char>, rules: CompiledPiiRules) -> bool {
    builtin_key(text::unicode_lower(key)) || rules.has_extra_key(text::unicode_lower(key))
}

/// The value that stands for a redacted one.
pub open spec fn redacted() -> JsonTree {
    JsonTree::Text(REDACTED@)
}

/// A string after one rule on values. A rule that hashes redacts where there
/// is no secret.
pub open spec fn after_rule(s: Seq<char>, rule: CompiledPattern, secret: Option<Seq<char>>) -> Seq<
    char,
> {
    if !rule.match_values {
        s
    } else {
        match (rule.action, secret) {
            (PiiAction::Hash, Some(k)) => pattern::replaced_by_hash(rule.regex, s, k),
            _ => pattern::replaced_with(rule.regex, s, REDACTED@),
        }
    }
}

/// A string after all rules on values, in declaration order; each sees what
/// the one before has left.
pub open spec fn scrubbed(
    s: Seq<char>,
    rules: Seq<CompiledPattern>,
    secret: Option<Seq<char>>,
) -> Seq<char>
    decreases rules.len(),
{
    if rules.len() == 0 {
        s
    } else {
        after_rule(scrubbed(s, rules.drop_last(), secret), rules.last(), secret)
    }
}

/// A value that is neither object nor array: rules on values apply to strings
/// alone.
pub open spec fn scrubbed_leaf(
    t: JsonTree,
    rules: CompiledPiiRules,
    secret: Option<Seq<char>>,
) -> JsonTree {
    match t {
        JsonTree::Text(s) => JsonTree::Text(scrubbed(s, rules.patterns@, secret)),
        _ => t,
    }
}

/// The action of the first rule on keys that matches `key`.
pub open spec fn key_rule(rules: Seq<CompiledPattern>, key: Seq<char>) -> Option<PiiAction>
    decreases rules.len(),
{
    if rules.len() == 0 {
        None
    } else if rules[0].match_keys && pattern::spans(rules[0].regex, key).len() > 0 {
        Some(rules[0].action)
    } else {
        key_rule(rules.drop_first(), key)
    }
}

/// What a rule on keys puts in place of a value. Only a string can be hashed,
/// and only where there is a secret.
pub open spec fn key_rule_value(
    action: PiiAction,
    t: JsonTree,
    secret: Option<Seq<char>>,
) -> JsonTree {
    match (action, t, secret) {
        (PiiAction::Hash, JsonTree::Text(s), Some(k)) => JsonTree::Text(hash::pii_hash(s, k)),
        _ => redacted(),
    }
}

/// The sanitized form of a value at nesting depth `depth`.
pub open spec fn sanitized(
    t: JsonTree,
    depth: nat,
    rules: CompiledPiiRules,
    secret: Option<Seq<char>>,
) -> JsonTree
    decreases MAX_DEPTH + 1 - depth,
{
    if depth > MAX_DEPTH {
        redacted()
    } else {
        match t {
            JsonTree::Object(members) => JsonTree::Object(
                Seq::new(
                    members.len(),
                    |i: int|
                        (
                            members[i].0,
                            if sensitive_key(members[i].0, rules) {
                                redacted()
                            } else {
                                match key_rule(rules.patterns@, members[i].0) {
                                    Some(action) => key_rule_value(action, members[i].1, secret),
                                    None => if json::is_container(members[i].1) {
                                        sanitized(members[i].1, depth + 1, rules, secret)
                                    } else {
                                        scrubbed_leaf(members[i].1, rules, secret)
                                    },
                                }
                            },
                        ),
                ),
            ),
            JsonTree::Array(items) => JsonTree::Array(
                Seq::new(
                    items.len(),
                    |i: int|
                        if json::is_container(items[i]) {
                            sanitized(items[i], depth + 1, rules, secret)
                        } else {
                            scrubbed_leaf(items[i], rules, secret)
                        },
                ),
            ),
            _ => scrubbed_leaf(t, rules, secret),
        }
    }
}

// ---------------------------------------------------------------------------
// Sanitizing
// ---------------------------------------------------------------------------

/// The pseudonym of a value where there is a secret, the value itself where
/// there is none.
pub open spec fn hashed_or_raw(secret: Option<Seq<char>>, value: Seq<char>) -> Seq<char> {
    match secret {
        Some(k) => hash::pii_hash(value, k),
        None => value,
    }
}

/// The pseudonym of a value where there is a secret, nothing of it where there
/// is none.
pub open spec fn hashed_or_redacted(secret: Option<Seq<char>>, value: Seq<char>) -> Seq<char> {
    match secret {
        Some(k) => hash::pii_hash(value, k),
        None => REDACTED@,
    }
}

/// Hashes a value where there is a secret and otherwise passes it through. For
/// values that may ship raw, such as the source address.
pub fn pseudonymize_or_passthrough(secret_key: Option<&str>, value: &str) -> (r: String)
    ensures
        r@ == hashed_or_raw(text::str_of(secret_key), value@),
{
    match secret_key {
        Some(key) => hash::hash_pii(value, key),
        None => value.to_string(),
    }
}

/// Hashes a value where there is a secret and otherwise redacts it. For values
/// that must never ship raw, such as the `Authorization` header.
pub fn pseudonymize_or_redact(secret_key: Option<&str>, value: &str) -> (r: String)
    ensures
        r@ == hashed_or_redacted(text::str_of(secret_key), value@),
{
    match secret_key {
        Some(key) => hash::hash_pii(value, key),
        None => REDACTED.to_string(),
    }
}

/// Whether a header name, given in lowercase, is sensitive.
pub fn is_sensitive_header_lower(header_lower: &str) -> (r: bool)
    ensures
        r == sensitive_header(header_lower@),
{
    text::listed(SENSITIVE_HEADERS_LOWER.as_slice(), header_lower)
}

/// Whether a key is sensitive.
fn is_sensitive_key(key: &str, rules: &CompiledPiiRules) -> (r: bool)
    ensures
        r == sensitive_key(key@, *rules),
{
    let lower = text::to_unicode_lower(key);
    text::listed(SENSITIVE_KEYS_LOWER.as_slice(), lower.as_str()) || text::holds(
        &rules.extra_keys,
        lower.as_str(),
    )
}

/// Sanitizes with the built-in rules only.
pub fn sanitize_value(value: Json) -> (r: Json)
    ensures
        forall|rules: CompiledPiiRules| #[trigger]
            rules.no_rules() ==> r.tree() == sanitized(value.tree(), 0, rules, None),
        json::ordered(value.tree()) ==> json::ordered(r.tree()),
{
    let none = CompiledPiiRules::default();
    proof {
        assert forall|rules: CompiledPiiRules| #[trigger] rules.no_rules() implies sanitized(
            value.tree(),
            0,
            rules,
            None,
        ) == sanitized(value.tree(), 0, none, None) by {
            lemma_empty_rules_agree(value.tree(), 0, rules, none, None);
        }
    }
    sanitize_value_with(value, &none, None)
}

/// Sanitizes with custom rules on top of the built-in ones.
pub fn sanitize_value_with(value: Json, rules: &CompiledPiiRules, secret: Option<&str>) -> (r: Json)
    ensures
        r.tree() == sanitized(value.tree(), 0, *rules, text::str_of(secret)),
        json::ordered(value.tree()) ==> json::ordered(r.tree()),
{
    proof {
        if json::ordered(value.tree()) {
            lemma_sanitized_is_ordered(value.tree(), 0, *rules, text::str_of(secret));
        }
    }
    sanitize_inner(value, 0, rules, secret)
}

/// Sanitizes a value at nesting depth `depth`.
fn sanitize_inner(
    value: Json,
    depth: usize,
    rules: &CompiledPiiRules,
    secret: Option<&str>,
) -> (r: Json)
    requires
        depth <= MAX_DEPTH + 1,
    ensures
        r.tree() == sanitized(value.tree(), depth as nat, *rules, text::str_of(secret)),
    decreases MAX_DEPTH + 1 - depth, 1nat,
{
    if depth > MAX_DEPTH {
        return Json::Text(REDACTED.to_string());
    }
    let ghost whole = value.tree();
    let ghost expected = sanitized(whole, depth as nat, *rules, text::str_of(secret));
    match value {
        Json::Object(members) => {
            let mut out: Vec<(String, Json)> = Vec::new();
            for member in it: members
                invariant
                    it.seq() == members@,
                    depth <= MAX_DEPTH,
                    whole is Object,
                    whole->Object_0.len() == members@.len(),
                    forall|k: int|
                        0 <= k < members@.len() ==> (#[trigger] whole->Object_0[k]) == (
                            members@[k].0@,
                            members@[k].1.tree(),
                        ),
                    expected == sanitized(whole, depth as nat, *rules, text::str_of(secret)),
                    out@.len() == it.index(),
                    forall|k: int|
                        0 <= k < out@.len() ==> (#[trigger] expected->Object_0[k]) == (
                            out@[k].0@,
                            out@[k].1.tree(),
                        ),
            {
                let (key, item) = member;
                let ghost at = it.index() as int;
                assert(whole->Object_0[at] == (key@, item.tree()));
                let clean = if is_sensitive_key(key.as_str(), rules) {
                    Json::Text(REDACTED.to_string())
                } else {
                    match key_rule_replacement(key.as_str(), &item, rules, secret) {
                        Some(replacement) => replacement,
                        None => sanitize_item(item, depth, rules, secret),
                    }
                };
                assert(expected->Object_0[at] == (key@, clean.tree()));
                out.push((key, clean));
            }
            let r = Json::Object(out);
            assert(r.tree()->Object_0 =~= expected->Object_0);
            r
        },
        Json::Array(items) => {
            let mut out: Vec<Json> = Vec::new();
            for item in it: items
                invariant
                    it.seq() == items@,
                    depth <= MAX_DEPTH,
                    whole is Array,
                    whole->Array_0.len() == items@.len(),
                    forall|k: int|
                        0 <= k < items@.len() ==> (#[trigger] whole->Array_0[k])
                            == items@[k].tree(),
                    expected == sanitized(whole, depth as nat, *rules, text::str_of(secret)),
                    out@.len() == it.index(),
                    forall|k: int|
                        0 <= k < out@.len() ==> (#[trigger] expected->Array_0[k]) == out@[k].tree(),
            {
                let ghost at = it.index() as int;
                assert(whole->Array_0[at] == item.tree());
                let clean = sanitize_item(item, depth, rules, secret);
                assert(expected->Array_0[at] == clean.tree());
                out.push(clean);
            }
            let r = Json::Array(out);
            assert(r.tree()->Array_0 =~= expected->Array_0);
            r
        },
        other => scrub_leaf(other, rules, secret),
    }
}

/// Sanitizes what stands in an object or array at nesting depth `depth`.
fn sanitize_item(
    item: Json,
    depth: usize,
    rules: &CompiledPiiRules,
    secret: Option<&str>,
) -> (r: Json)
    requires
        depth <= MAX_DEPTH,
    ensures
        r.tree() == (if json::is_container(item.tree()) {
            sanitized(item.tree(), (depth + 1) as nat, *rules, text::str_of(secret))
        } else {
            scrubbed_leaf(item.tree(), *rules, text::str_of(secret))
        }),
    decreases MAX_DEPTH + 1 - depth, 0nat,
{
    if item.is_container() {
        sanitize_inner(item, depth + 1, rules, secret)
    } else {
        scrub_leaf(item, rules, secret)
    }
}

/// What the first rule on keys that matches `key` puts in place of `value`.
fn key_rule_replacement(
    key: &str,
    value: &Json,
    rules: &CompiledPiiRules,
    secret: Option<&str>,
) -> (r: Option<Json>)
    ensures
        match r {
            Some(j) => key_rule(rules.patterns@, key@) is Some && j.tree() == key_rule_value(
                key_rule(rules.patterns@, key@)->0,
                value.tree(),
                text::str_of(secret),
            ),
            None => key_rule(rules.patterns@, key@) is None,
        },
{
    let ghost all = rules.patterns@;
    let mut i: usize = 0;
    proof {
        assert(all.skip(0) =~= all);
    }
    while i < rules.patterns.len()
        invariant
            all == rules.patterns@,
            i <= all.len(),
            key_rule(all, key@) == key_rule(all.skip(i as int), key@),
        decreases all.len() - i,
    {
        let rule = &rules.patterns[i];
        if rule.match_keys && pattern::is_match(&rule.regex, key) {
            let replacement = match (rule.action, value, secret) {
                (PiiAction::Hash, Json::Text(s), Some(k)) => hash::hash_pii(s.as_str(), k),
                _ => REDACTED.to_string(),
            };
            return Some(Json::Text(replacement));
        }
        proof {
            assert(all.skip(i as int).drop_first() =~= all.skip(i + 1));
        }
        i += 1;
    }
    None
}

/// Applies the rules on values to a string; other values stay as they are.
fn scrub_leaf(value: Json, rules: &CompiledPiiRules, secret: Option<&str>) -> (r: Json)
    ensures
        r.tree() == scrubbed_leaf(value.tree(), *rules, text::str_of(secret)),
{
    match value {
        Json::Text(s) => Json::Text(scrub_text(s, rules, secret)),
        other => other,
    }
}

/// `r` starts no line and ends none that `s` does not.
pub open spec fn keeps_line(s: Seq<char>, r: Seq<char>) -> bool {
    &&& r.contains('\n') ==> s.contains('\n')
    &&& r.len() > 0 && r.last() == '\r' ==> s.len() > 0 && s.last() == '\r'
}

/// Applies the rules on values to a text.
pub fn scrub_text(s: String, rules: &CompiledPiiRules, secret: Option<&str>) -> (r: String)
    ensures
        r@ == scrubbed(s@, rules.patterns@, text::str_of(secret)),
        keeps_line(s@, r@),
{
    let ghost all = rules.patterns@;
    let ghost start = s@;
    let mut current = s;
    let mut i: usize = 0;
    proof {
        assert(all.take(0) =~= Seq::<CompiledPattern>::empty());
        reveal_strlit("[REDACTED]");
    }
    while i < rules.patterns.len()
        invariant
            all == rules.patterns@,
            i <= all.len(),
            !REDACTED@.contains('$'),
            plain(REDACTED@),
            current@ == scrubbed(start, all.take(i as int), text::str_of(secret)),
            keeps_line(start, current@),
        decreases all.len() - i,
    {
        let rule = &rules.patterns[i];
        let ghost prev = current@;
        proof {
            assert(all.take(i + 1).drop_last() =~= all.take(i as int));
            assert(all.take(i + 1).last() == all[i as int]);
        }
        if rule.match_values {
            if pattern::is_match(&rule.regex, current.as_str()) {
                current = match (rule.action, secret) {
                    (PiiAction::Hash, Some(k)) => pattern::replace_by_hash(
                        &rule.regex,
                        current.as_str(),
                        k,
                    ),
                    _ => pattern::replace_with(&rule.regex, current.as_str(), REDACTED),
                };
                proof {
                    let rep = match (rule.action, secret) {
                        (PiiAction::Hash, Some(k)) => |m: Seq<char>| hash::pii_hash(m, k@),
                        _ => |m: Seq<char>| REDACTED@,
                    };
                    assert forall|m: Seq<char>| plain(#[trigger] rep(m)) by {
                        if let (PiiAction::Hash, Some(k)) = (rule.action, secret) {
                            lemma_hash_is_plain(m, k@);
                        }
                    }
                    lemma_spliced_keeps_line(prev, pattern::spans(rule.regex, prev), 0, rep);
                }
            } else {
                proof {
                    assert(current@.skip(0) =~= current@);
                }
            }
        }
        i += 1;
    }
    proof {
        assert(all.take(i as int) =~= all);
    }
    current
}

// ---------------------------------------------------------------------------
// Proofs
// ---------------------------------------------------------------------------

/// A replacement: some characters, none of them a control character.
spec fn plain(s: Seq<char>) -> bool {
    s.len() > 0 && forall|i: int| 0 <= i < s.len() ==> #[trigger] s[i] != '\n' && s[i] != '\r'
}

/// Hexadecimal digits are no control characters.
proof fn lemma_hex_is_plain(bytes: Seq<u8>)
    ensures
        forall|i: int|
            0 <= i < hash::hex_text(bytes).len() ==> #[trigger] hash::hex_text(bytes)[i] != '\n'
                && hash::hex_text(bytes)[i] != '\r',
        hash::hex_text(bytes).len() == 2 * bytes.len(),
    decreases bytes.len(),
{
    if bytes.len() > 0 {
        lemma_hex_is_plain(bytes.drop_last());
    }
}

/// A pseudonym is a replacement.
proof fn lemma_hash_is_plain(value: Seq<char>, secret: Seq<char>)
    ensures
        plain(hash::pii_hash(value, secret)),
{
    lemma_hex_is_plain(
        hash::hmac_sha256(vstd::utf8::encode_utf8(secret), vstd::utf8::encode_utf8(value))@,
    );
}

/// Replacing matches starts and ends no line.
proof fn lemma_spliced_keeps_line(
    s: Seq<char>,
    spans: Seq<(int, int)>,
    from: int,
    rep: spec_fn(Seq<char>) -> Seq<char>,
)
    requires
        0 <= from <= s.len(),
        pattern::spans_in_order(spans, s.len()),
        spans.len() > 0 ==> from <= spans[0].0,
        forall|m: Seq<char>| plain(#[trigger] rep(m)),
    ensures
        ({
            let r = pattern::spliced(s, spans, from, rep);
            &&& r.contains('\n') ==> s.contains('\n')
            &&& r.len() > 0 ==> r.last() != '\r' || r.last() == s.last()
            &&& r.len() > 0 && r.last() == '\r' ==> s.len() > 0
        }),
    decreases spans.len(),
{
    let r = pattern::spliced(s, spans, from, rep);
    if spans.len() == 0 {
        if r.contains('\n') {
            let i = choose|i: int| 0 <= i < r.len() && r[i] == '\n';
            assert(s[from + i] == '\n');
        }
    } else {
        let (a, b) = spans[0];
        let rest = pattern::spliced(s, spans.drop_first(), b, rep);
        let mid = rep(s.subrange(a, b));
        let front = s.subrange(from, a);
        assert(plain(mid));
        lemma_spliced_keeps_line(s, spans.drop_first(), b, rep);
        if r.contains('\n') {
            let i = choose|i: int| 0 <= i < r.len() && r[i] == '\n';
            if i < front.len() {
                assert(s[from + i] == '\n');
            } else if i < front.len() + mid.len() {
                assert(mid[i - front.len()] == '\n');
            } else {
                assert(rest[i - front.len() - mid.len()] == '\n');
            }
        }
        if rest.len() > 0 {
            assert(r.last() == rest.last());
        } else {
            assert(r.last() == mid.last());
        }
    }
}

/// Rule sets without rules sanitize alike.
proof fn lemma_empty_rules_agree(
    t: JsonTree,
    depth: nat,
    a: CompiledPiiRules,
    b: CompiledPiiRules,
    secret: Option<Seq<char>>,
)
    requires
        a.no_rules(),
        b.no_rules(),
    ensures
        sanitized(t, depth, a, secret) == sanitized(t, depth, b, secret),
    decreases MAX_DEPTH + 1 - depth,
{
    if depth <= MAX_DEPTH {
        match t {
            JsonTree::Object(members) => {
                assert forall|i: int| 0 <= i < members.len() implies sanitized(
                    t,
                    depth,
                    a,
                    secret,
                )->Object_0[i] == sanitized(t, depth, b, secret)->Object_0[i] by {
                    lemma_empty_rules_agree(members[i].1, depth + 1, a, b, secret);
                }
                assert(sanitized(t, depth, a, secret)->Object_0 =~= sanitized(
                    t,
                    depth,
                    b,
                    secret,
                )->Object_0);
            },
            JsonTree::Array(items) => {
                assert forall|i: int| 0 <= i < items.len() implies sanitized(
                    t,
                    depth,
                    a,
                    secret,
                )->Array_0[i] == sanitized(t, depth, b, secret)->Array_0[i] by {
                    lemma_empty_rules_agree(items[i], depth + 1, a, b, secret);
                }
                assert(sanitized(t, depth, a, secret)->Array_0 =~= sanitized(
                    t,
                    depth,
                    b,
                    secret,
                )->Array_0);
            },
            _ => {},
        }
    }
}

/// Sanitizing keeps every object in key order.
pub proof fn lemma_sanitized_is_ordered(
    t: JsonTree,
    depth: nat,
    rules: CompiledPiiRules,
    secret: Option<Seq<char>>,
)
    requires
        json::ordered(t),
    ensures
        json::ordered(sanitized(t, depth, rules, secret)),
    decreases MAX_DEPTH + 1 - depth,
{
    if depth <= MAX_DEPTH {
        let s = sanitized(t, depth, rules, secret);
        match t {
            JsonTree::Object(members) => {
                let out = s->Object_0;
                assert forall|i: int| 0 <= i < out.len() implies json::ordered(
                    (#[trigger] out[i]).1,
                ) by {
                    assert(json::ordered(members[i].1));
                    lemma_sanitized_is_ordered(members[i].1, depth + 1, rules, secret);
                }
                assert forall|i: int, j: int| 0 <= i < j < out.len() implies text::precedes(
                    #[trigger] out[i].0,
                    #[trigger] out[j].0,
                ) by {
                    assert(text::precedes(members[i].0, members[j].0));
                }
            },
            JsonTree::Array(items) => {
                let out = s->Array_0;
                assert forall|i: int| 0 <= i < out.len() implies json::ordered(#[trigger] out[i]) by {
                    assert(json::ordered(items[i]));
                    lemma_sanitized_is_ordered(items[i], depth + 1, rules, secret);
                }
            },
            _ => {},
        }
    }
}

// ---------------------------------------------------------------------------
// Laws
// ---------------------------------------------------------------------------

/// The built-in floor holds under every custom rule set, with or without a
/// secret: the value under a built-in sensitive key, in whatever case the key
/// is written, is redacted whole.
pub proof fn law_builtin_keys_always_redact(
    members: Seq<(Seq<char>, JsonTree)>,
    i: int,
    depth: nat,
    rules: CompiledPiiRules,
    secret: Option<Seq<char>>,
)
    requires
        0 <= i < members.len(),
        builtin_key(text::unicode_lower(members[i].0)),
        depth <= MAX_DEPTH,
    ensures
        sanitized(JsonTree::Object(members), depth, rules, secret)->Object_0[i] == (
            members[i].0,
            redacted(),
        ),
{
}

/// Custom keys only ever add: what is redacted as sensitive under one rule set
/// is so under every rule set with more extra keys.
pub proof fn law_custom_keys_only_add(
    key: Seq<char>,
    fewer: CompiledPiiRules,
    more: CompiledPiiRules,
)
    requires
        forall|k: Seq<char>| fewer.has_extra_key(k) ==> more.has_extra_key(k),
        sensitive_key(key, fewer),
    ensures
        sensitive_key(key, more),
{
}

/// Sanitizing keeps the shape: an object keeps its keys and their order, an
/// array its length.
pub proof fn law_shape_is_kept(
    t: JsonTree,
    depth: nat,
    rules: CompiledPiiRules,
    secret: Option<Seq<char>>,
)
    requires
        depth <= MAX_DEPTH,
    ensures
        match (t, sanitized(t, depth, rules, secret)) {
            (JsonTree::Object(a), JsonTree::Object(b)) => a.len() == b.len() && forall|i: int|
                0 <= i < a.len() ==> (#[trigger] a[i]).0 == (#[trigger] b[i]).0,
            (JsonTree::Array(a), JsonTree::Array(b)) => a.len() == b.len(),
            (JsonTree::Text(_), JsonTree::Text(_)) => true,
            (a, b) => a == b,
        },
{
}

/// Numbers, booleans and null are never matched against a rule on values.
pub proof fn law_only_text_is_scrubbed(
    t: JsonTree,
    depth: nat,
    rules: CompiledPiiRules,
    secret: Option<Seq<char>>,
)
    requires
        depth <= MAX_DEPTH,
        t is Null || t is Bool || t is Number,
    ensures
        sanitized(t, depth, rules, secret) == t,
{
}

/// Objects and arrays nested deeper than the cap are redacted whole.
pub proof fn law_depth_is_capped(
    items: Seq<JsonTree>,
    i: int,
    rules: CompiledPiiRules,
    secret: Option<Seq<char>>,
)
    requires
        0 <= i < items.len(),
        json::is_container(items[i]),
    ensures
        sanitized(JsonTree::Array(items), MAX_DEPTH as nat, rules, secret)->Array_0[i]
            == redacted(),
{
    assert(sanitized(items[i], (MAX_DEPTH + 1) as nat, rules, secret) == redacted());
}

/// Without a secret nothing is hashed: every rule redacts, so that what it
/// matches never ships raw.
pub proof fn law_hash_without_secret_redacts(
    s: Seq<char>,
    rule: CompiledPattern,
    t: JsonTree,
    action: PiiAction,
)
    ensures
        rule.match_values ==> after_rule(s, rule, None) == pattern::replaced_with(
            rule.regex,
            s,
            REDACTED@,
        ),
        key_rule_value(action, t, None) == redacted(),
{
}

/// The built-in rules are idempotent: sanitizing a sanitized value changes
/// nothing.
pub proof fn law_builtin_sanitizing_is_idempotent(
    t: JsonTree,
    depth: nat,
    rules: CompiledPiiRules,
    secret: Option<Seq<char>>,
)
    requires
        rules.no_rules(),
    ensures
        sanitized(sanitized(t, depth, rules, secret), depth, rules, secret) == sanitized(
            t,
            depth,
            rules,
            secret,
        ),
    decreases MAX_DEPTH + 1 - depth,
{
    let once = sanitized(t, depth, rules, secret);
    let twice = sanitized(once, depth, rules, secret);
    if depth <= MAX_DEPTH {
        match t {
            JsonTree::Object(members) => {
                assert forall|i: int| 0 <= i < members.len() implies twice->Object_0[i]
                    == once->Object_0[i] by {
                    law_builtin_sanitizing_is_idempotent(members[i].1, depth + 1, rules, secret);
                }
                assert(twice->Object_0 =~= once->Object_0);
            },
            JsonTree::Array(items) => {
                assert forall|i: int| 0 <= i < items.len() implies twice->Array_0[i]
                    == once->Array_0[i] by {
                    law_builtin_sanitizing_is_idempotent(items[i], depth + 1, rules, secret);
                }
                assert(twice->Array_0 =~= once->Array_0);
            },
            _ => {},
        }
    }
}

/// The lowercase key names a secret.
pub open spec fn names_secret(k: Seq<char>) -> bool {
    ||| k == "password"@
    ||| k == "passwd"@
    ||| k == "secret"@
    ||| k == "token"@
    ||| k == "api_key"@
    ||| k == "apikey"@
    ||| k == "api_secret"@
    ||| k == "access_token"@
    ||| k == "refresh_token"@
    ||| k == "authorization"@
    ||| k == "auth"@
    ||| k == "credential"@
    ||| k == "credentials"@
    ||| k == "private_key"@
    ||| k == "ssh_key"@
    ||| k == "session_id"@
    ||| k == "session_token"@
    ||| k == "cookie"@
    ||| k == "credit_card"@
    ||| k == "card_number"@
    ||| k == "cvv"@
    ||| k == "ssn"@
}

/// The built-in sensitive keys are the names of secrets, and no others.
pub proof fn law_builtin_keys_name_secrets(k: Seq<char>)
    ensures
        builtin_key(k) <==> names_secret(k),
{
    assert(SENSITIVE_KEYS_LOWER@[0]@ == "password"@);
    assert(SENSITIVE_KEYS_LOWER@[1]@ == "passwd"@);
    assert(SENSITIVE_KEYS_LOWER@[2]@ == "secret"@);
    assert(SENSITIVE_KEYS_LOWER@[3]@ == "token"@);
    assert(SENSITIVE_KEYS_LOWER@[4]@ == "api_key"@);
    assert(SENSITIVE_KEYS_LOWER@[5]@ == "apikey"@);
    assert(SENSITIVE_KEYS_LOWER@[6]@ == "api_secret"@);
    assert(SENSITIVE_KEYS_LOWER@[7]@ == "access_token"@);
    assert(SENSITIVE_KEYS_LOWER@[8]@ == "refresh_token"@);
    assert(SENSITIVE_KEYS_LOWER@[9]@ == "authorization"@);
    assert(SENSITIVE_KEYS_LOWER@[10]@ == "auth"@);
    assert(SENSITIVE_KEYS_LOWER@[11]@ == "credential"@);
    assert(SENSITIVE_KEYS_LOWER@[12]@ == "credentials"@);
    assert(SENSITIVE_KEYS_LOWER@[13]@ == "private_key"@);
    assert(SENSITIVE_KEYS_LOWER@[14]@ == "ssh_key"@);
    assert(SENSITIVE_KEYS_LOWER@[15]@ == "session_id"@);
    assert(SENSITIVE_KEYS_LOWER@[16]@ == "session_token"@);
    assert(SENSITIVE_KEYS_LOWER@[17]@ == "cookie"@);
    assert(SENSITIVE_KEYS_LOWER@[18]@ == "credit_card"@);
    assert(SENSITIVE_KEYS_LOWER@[19]@ == "card_number"@);
    assert(SENSITIVE_KEYS_LOWER@[20]@ == "cvv"@);
    assert(SENSITIVE_KEYS_LOWER@[21]@ == "ssn"@);
}

/// The built-in sensitive headers are those that carry credentials, and no
/// others.
pub proof fn law_builtin_headers_carry_credentials(name: Seq<char>)
    ensures
        sensitive_header(name) <==> {
            ||| name == "authorization"@
            ||| name == "cookie"@
            ||| name == "set-cookie"@
            ||| name == "x-api-key"@
            ||| name == "x-auth-token"@
            ||| name == "proxy-authorization"@
        },
{
    assert(SENSITIVE_HEADERS_LOWER@[0]@ == "authorization"@);
    assert(SENSITIVE_HEADERS_LOWER@[1]@ == "cookie"@);
    assert(SENSITIVE_HEADERS_LOWER@[2]@ == "set-cookie"@);
    assert(SENSITIVE_HEADERS_LOWER@[3]@ == "x-api-key"@);
    assert(SENSITIVE_HEADERS_LOWER@[4]@ == "x-auth-token"@);
    assert(SENSITIVE_HEADERS_LOWER@[5]@ == "proxy-authorization"@);
}

/// The value under the key must not ship: its lowercase form names a secret, or
/// is one of the operator's extra keys.
pub open spec fn is_secret(key: Seq<char>, rules: CompiledPiiRules) -> bool {
    ||| names_secret(text::unicode_lower(key))
    ||| exists|j: int|
        0 <= j < rules.extra_keys@.len() && (#[trigger] rules.extra_keys@[j])@
            == text::unicode_lower(key)
}

/// Wherever an object in the tree has a secret key, the value under it is the
/// marker and nothing else.
pub open spec fn ships_no_secret(t: JsonTree, rules: CompiledPiiRules) -> bool
    decreases t,
{
    match t {
        JsonTree::Object(members) => forall|i: int|
            0 <= i < members.len() ==> {
                &&& is_secret((#[trigger] members[i]).0, rules) ==> members[i].1 == JsonTree::Text(
                    "[REDACTED]"@,
                )
                &&& ships_no_secret(members[i].1, rules)
            },
        JsonTree::Array(items) => forall|i: int|
            0 <= i < items.len() ==> ships_no_secret(#[trigger] items[i], rules),
        _ => true,
    }
}

/// Which keys are sensitive.
proof fn lemma_sensitive_is_secret(key: Seq<char>, rules: CompiledPiiRules)
    ensures
        sensitive_key(key, rules) <==> is_secret(key, rules),
{
    law_builtin_keys_name_secrets(text::unicode_lower(key));
}

/// No secret ships: at whatever depth a secret key stands in a sanitized value,
/// its value is the marker. That holds of built-in and extra keys alike.
pub proof fn law_no_secret_ships_at_any_depth(
    t: JsonTree,
    depth: nat,
    rules: CompiledPiiRules,
    secret: Option<Seq<char>>,
)
    ensures
        ships_no_secret(sanitized(t, depth, rules, secret), rules),
    decreases MAX_DEPTH + 1 - depth,
{
    let r = sanitized(t, depth, rules, secret);
    if depth <= MAX_DEPTH {
        match t {
            JsonTree::Object(members) => {
                let out = r->Object_0;
                assert forall|i: int| 0 <= i < out.len() implies {
                    &&& is_secret((#[trigger] out[i]).0, rules) ==> out[i].1 == JsonTree::Text(
                        "[REDACTED]"@,
                    )
                    &&& ships_no_secret(out[i].1, rules)
                } by {
                    lemma_sensitive_is_secret(members[i].0, rules);
                    law_no_secret_ships_at_any_depth(members[i].1, depth + 1, rules, secret);
                }
            },
            JsonTree::Array(items) => {
                let out = r->Array_0;
                assert forall|i: int| 0 <= i < out.len() implies ships_no_secret(
                    #[trigger] out[i],
                    rules,
                ) by {
                    law_no_secret_ships_at_any_depth(items[i], depth + 1, rules, secret);
                }
            },
            _ => {},
        }
    }
}

/// The tree holds no secret key, no key or text that a rule matches, and no
/// container nested deeper than the cap; it stands at nesting depth `depth`.
pub open spec fn is_harmless(t: JsonTree, depth: nat, rules: CompiledPiiRules) -> bool
    decreases t,
{
    match t {
        JsonTree::Object(members) => depth <= 20 && forall|i: int|
            0 <= i < members.len() ==> {
                &&& !is_secret((#[trigger] members[i]).0, rules)
                &&& forall|j: int|
                    0 <= j < rules.patterns@.len() && (#[trigger] rules.patterns@[j]).match_keys
                        ==> pattern::spans(rules.patterns@[j].regex, members[i].0).len() == 0
                &&& is_harmless(members[i].1, depth + 1, rules)
            },
        JsonTree::Array(items) => depth <= 20 && forall|i: int|
            0 <= i < items.len() ==> is_harmless(#[trigger] items[i], depth + 1, rules),
        JsonTree::Text(s) => untouched_by(s, rules),
        _ => true,
    }
}

/// No rule on values matches in the text.
pub open spec fn untouched_by(s: Seq<char>, rules: CompiledPiiRules) -> bool {
    forall|j: int|
        0 <= j < rules.patterns@.len() && (#[trigger] rules.patterns@[j]).match_values
            ==> pattern::spans(rules.patterns@[j].regex, s).len() == 0
}

/// A key that no rule matches is left to the other rules.
proof fn lemma_no_key_rule(rules: Seq<CompiledPattern>, key: Seq<char>)
    requires
        forall|j: int|
            0 <= j < rules.len() && (#[trigger] rules[j]).match_keys ==> pattern::spans(
                rules[j].regex,
                key,
            ).len() == 0,
    ensures
        key_rule(rules, key) is None,
    decreases rules.len(),
{
    if rules.len() > 0 {
        assert(!(rules[0].match_keys && pattern::spans(rules[0].regex, key).len() > 0));
        assert forall|j: int|
            0 <= j < rules.drop_first().len() && (
            #[trigger] rules.drop_first()[j]).match_keys implies pattern::spans(
            rules.drop_first()[j].regex,
            key,
        ).len() == 0 by {
            assert(rules[j + 1].match_keys);
        }
        lemma_no_key_rule(rules.drop_first(), key);
    }
}

/// A text that no rule matches stays as it is.
proof fn lemma_untouched(s: Seq<char>, rules: Seq<CompiledPattern>, secret: Option<Seq<char>>)
    requires
        forall|j: int|
            0 <= j < rules.len() && (#[trigger] rules[j]).match_values ==> pattern::spans(
                rules[j].regex,
                s,
            ).len() == 0,
    ensures
        scrubbed(s, rules, secret) == s,
    decreases rules.len(),
{
    if rules.len() > 0 {
        assert forall|j: int|
            0 <= j < rules.drop_last().len() && (
            #[trigger] rules.drop_last()[j]).match_values implies pattern::spans(
            rules.drop_last()[j].regex,
            s,
        ).len() == 0 by {
            assert(rules[j].match_values);
        }
        lemma_untouched(s, rules.drop_last(), secret);
        assert(rules.last() == rules[rules.len() - 1]);
        assert(s.skip(0) =~= s);
    }
}

/// Nothing is redacted without a reason: a value in which no key is secret, no
/// rule matches and no container is nested too deep ships as it is.
pub proof fn law_harmless_values_ship_unchanged(
    t: JsonTree,
    depth: nat,
    rules: CompiledPiiRules,
    secret: Option<Seq<char>>,
)
    requires
        is_harmless(t, depth, rules),
        json::is_container(t) || depth <= 20,
    ensures
        sanitized(t, depth, rules, secret) == t,
    decreases t,
{
    let r = sanitized(t, depth, rules, secret);
    match t {
        JsonTree::Object(members) => {
            assert forall|i: int| 0 <= i < members.len() implies r->Object_0[i] == members[i] by {
                let (key, value) = members[i];
                assert(!is_secret(members[i].0, rules));
                lemma_sensitive_is_secret(key, rules);
                lemma_no_key_rule(rules.patterns@, key);
                if json::is_container(value) {
                    law_harmless_values_ship_unchanged(value, depth + 1, rules, secret);
                } else if let JsonTree::Text(s) = value {
                    lemma_untouched(s, rules.patterns@, secret);
                }
            }
            assert(r->Object_0 =~= members);
        },
        JsonTree::Array(items) => {
            assert forall|i: int| 0 <= i < items.len() implies r->Array_0[i] == items[i] by {
                assert(is_harmless(items[i], depth + 1, rules));
                if json::is_container(items[i]) {
                    law_harmless_values_ship_unchanged(items[i], depth + 1, rules, secret);
                } else if let JsonTree::Text(s) = items[i] {
                    lemma_untouched(s, rules.patterns@, secret);
                }
            }
            assert(r->Array_0 =~= items);
        },
        JsonTree::Text(s) => {
            lemma_untouched(s, rules.patterns@, secret);
        },
        _ => {},
    }
}

/// The first rule on keys that matches decides what stands under a key that is
/// no secret: the pseudonym of a string where it hashes and there is a secret,
/// and the marker otherwise.
pub proof fn law_key_rules_replace_whole_values(
    members: Seq<(Seq<char>, JsonTree)>,
    i: int,
    j: int,
    depth: nat,
    rules: CompiledPiiRules,
    secret: Option<Seq<char>>,
)
    requires
        0 <= i < members.len(),
        depth <= 20,
        !is_secret(members[i].0, rules),
        0 <= j < rules.patterns@.len(),
        rules.patterns@[j].match_keys,
        pattern::spans(rules.patterns@[j].regex, members[i].0).len() > 0,
        forall|k: int|
            0 <= k < j && (#[trigger] rules.patterns@[k]).match_keys ==> pattern::spans(
                rules.patterns@[k].regex,
                members[i].0,
            ).len() == 0,
    ensures
        sanitized(JsonTree::Object(members), depth, rules, secret)->Object_0[i].1 == match (
            rules.patterns@[j].action,
            members[i].1,
            secret,
        ) {
            (PiiAction::Hash, JsonTree::Text(s), Some(k)) => JsonTree::Text(hash::pii_hash(s, k)),
            _ => JsonTree::Text("[REDACTED]"@),
        },
{
    lemma_sensitive_is_secret(members[i].0, rules);
    lemma_first_key_rule(rules.patterns@, members[i].0, j);
}

/// The first rule on keys that matches a key decides.
proof fn lemma_first_key_rule(rules: Seq<CompiledPattern>, key: Seq<char>, j: int)
    requires
        0 <= j < rules.len(),
        rules[j].match_keys,
        pattern::spans(rules[j].regex, key).len() > 0,
        forall|k: int|
            0 <= k < j && (#[trigger] rules[k]).match_keys ==> pattern::spans(
                rules[k].regex,
                key,
            ).len() == 0,
    ensures
        key_rule(rules, key) == Some(rules[j].action),
    decreases j,
{
    if j > 0 {
        assert(!(rules[0].match_keys && pattern::spans(rules[0].regex, key).len() > 0));
        assert forall|k: int|
            0 <= k < j - 1 && (#[trigger] rules.drop_first()[k]).match_keys implies pattern::spans(
            rules.drop_first()[k].regex,
            key,
        ).len() == 0 by {
            assert(rules[k + 1].match_keys);
        }
        lemma_first_key_rule(rules.drop_first(), key, j - 1);
    }
}

/// Texts are scrubbed wherever they stand: a member that is no secret and that
/// no rule on keys matches ships with every rule on values applied to it, and so
/// does every item of an array; what is nested deeper is sanitized in turn.
pub proof fn law_texts_are_scrubbed_wherever_they_stand(
    members: Seq<(Seq<char>, JsonTree)>,
    items: Seq<JsonTree>,
    i: int,
    depth: nat,
    rules: CompiledPiiRules,
    secret: Option<Seq<char>>,
)
    requires
        depth <= 20,
    ensures
        0 <= i < members.len() && !is_secret(members[i].0, rules) && (forall|j: int|
            0 <= j < rules.patterns@.len() && (#[trigger] rules.patterns@[j]).match_keys
                ==> pattern::spans(rules.patterns@[j].regex, members[i].0).len() == 0) ==> sanitized(
            JsonTree::Object(members),
            depth,
            rules,
            secret,
        )->Object_0[i] == (
            members[i].0,
            match members[i].1 {
                JsonTree::Text(s) => JsonTree::Text(scrubbed(s, rules.patterns@, secret)),
                JsonTree::Object(_) => sanitized(members[i].1, depth + 1, rules, secret),
                JsonTree::Array(_) => sanitized(members[i].1, depth + 1, rules, secret),
                other => other,
            },
        ),
        0 <= i < items.len() ==> sanitized(JsonTree::Array(items), depth, rules, secret)->Array_0[i]
            == match items[i] {
            JsonTree::Text(s) => JsonTree::Text(scrubbed(s, rules.patterns@, secret)),
            JsonTree::Object(_) => sanitized(items[i], depth + 1, rules, secret),
            JsonTree::Array(_) => sanitized(items[i], depth + 1, rules, secret),
            other => other,
        },
{
    if 0 <= i < members.len() && !is_secret(members[i].0, rules) && (forall|j: int|
        0 <= j < rules.patterns@.len() && (#[trigger] rules.patterns@[j]).match_keys
            ==> pattern::spans(rules.patterns@[j].regex, members[i].0).len() == 0) {
        lemma_sensitive_is_secret(members[i].0, rules);
        lemma_no_key_rule(rules.patterns@, members[i].0);
    }
}

/// What stands beyond nesting depth 20 ships as the marker, and nothing above it
/// does for its depth.
pub proof fn law_the_cap_is_twenty(
    t: JsonTree,
    depth: nat,
    rules: CompiledPiiRules,
    secret: Option<Seq<char>>,
)
    ensures
        depth > 20 ==> sanitized(t, depth, rules, secret) == JsonTree::Text("[REDACTED]"@),
        depth <= 20 && json::is_container(t) ==> json::is_container(
            sanitized(t, depth, rules, secret),
        ),
{
}

/// Every rule on values runs, in declaration order, each on what the rules
/// before it have left: it puts the pseudonym of a match in its place where it
/// hashes and there is a secret, and the marker otherwise.
pub proof fn law_rules_on_values_run_in_order(
    s: Seq<char>,
    rules: Seq<CompiledPattern>,
    rule: CompiledPattern,
    secret: Option<Seq<char>>,
)
    ensures
        scrubbed(s, Seq::empty(), secret) == s,
        !rule.match_values ==> scrubbed(s, rules.push(rule), secret) == scrubbed(s, rules, secret),
        rule.match_values && rule.action == PiiAction::Hash ==> (secret matches Some(k) ==> scrubbed(
            s,
            rules.push(rule),
            secret,
        ) == pattern::replaced_by_hash(rule.regex, scrubbed(s, rules, secret), k)),
        rule.match_values && (rule.action == PiiAction::Redact || secret is None) ==> scrubbed(
            s,
            rules.push(rule),
            secret,
        ) == pattern::replaced_with(rule.regex, scrubbed(s, rules, secret), "[REDACTED]"@),
{
    assert(rules.push(rule).drop_last() =~= rules);
}

/// A source address ships as its pseudonym where there is a secret and as it is
/// where there is none; a credential without a secret does not ship at all.
pub proof fn law_pseudonyms_need_a_secret(value: Seq<char>, k: Seq<char>)
    ensures
        hashed_or_raw(Some(k), value) == hash::pii_hash(value, k),
        hashed_or_raw(None, value) == value,
        hashed_or_redacted(Some(k), value) == hash::pii_hash(value, k),
        hashed_or_redacted(None, value) == "[REDACTED]"@,
{
}

} // verus!
