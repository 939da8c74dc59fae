//! The sampling decision for a request, made from its headers.
//!
//! Where the sampling unit is the session, a ladder of keys decides: the MCP
//! session id, then the headers that the operator names, then the identity of
//! the caller, and a coin where there is none of them. The ladder is ordered
//! so that a session either always or never has each key. A key is used in
//! memory only; of all that is read here only the MCP session id ships.

use vstd::prelude::*;
use vstd::string::*;

use crate::ai_content;
use crate::config::Config;
use crate::event::SampleKey;
use crate::headers;
use crate::policy;
use crate::policy::{PolicyContext, SampleMode};
use crate::query;
use crate::sample_rate::SampleRate;
use crate::sampler;
use crate::sampler::{
    Coin, DOMAIN_AUTHORIZATION, DOMAIN_PRINCIPAL, DOMAIN_SESSION, DOMAIN_USER, EPOCH_SECONDS,
};
use crate::text;

verus! {

/// What the decision reads from a request, raw.
#[derive(Debug)]
pub struct SamplingKeys {
    /// The MCP session header.
    pub mcp_session_id: Option<String>,
    /// The headers that the operator names, in configured order.
    pub session_key_values: Vec<Option<String>>,
    /// The principal that an authentication policy has established.
    pub principal: Option<String>,
    /// The client id that an authentication policy has established.
    pub client_id: Option<String>,
    /// The configured user id header; `None` where none is configured.
    pub user_id: Option<String>,
    /// The `Authorization` header.
    pub authorization: Option<String>,
    /// The `Content-Type` header.
    pub content_type: Option<String>,
    /// The `Accept` header.
    pub accept: Option<String>,
    /// The MCP protocol version header.
    pub mcp_protocol_version: Option<String>,
}

/// Outcome of the decision.
#[derive(Debug)]
pub enum SampleDecision {
    /// Everything is captured: no sampling fields are stamped.
    CaptureAll,
    /// Sampled in by the given key, which is an MCP session id where there is
    /// one.
    Keep { kind: SampleKey, session_id: Option<String> },
    /// Sampled out.
    Drop,
    /// An MCP handshake: its verdict depends on the session id that the
    /// response may carry, and is the given one where it carries none.
    PendingHandshake { fallback_keep: bool, fallback_kind: SampleKey },
}

/// The model of [`SampleDecision`].
pub enum Verdict {
    CaptureAll,
    Keep { kind: SampleKey, session_id: Option<Seq<char>> },
    Drop,
    PendingHandshake { fallback_keep: bool, fallback_kind: SampleKey },
}

impl SampleDecision {
    pub open spec fn view(&self) -> Verdict {
        match self {
            SampleDecision::CaptureAll => Verdict::CaptureAll,
            SampleDecision::Keep { kind, session_id } => Verdict::Keep {
                kind: *kind,
                session_id: text::text_of(*session_id),
            },
            SampleDecision::Drop => Verdict::Drop,
            SampleDecision::PendingHandshake { fallback_keep, fallback_kind } =>
                Verdict::PendingHandshake {
                    fallback_keep: *fallback_keep,
                    fallback_kind: *fallback_kind,
                },
        }
    }
}

// ---------------------------------------------------------------------------
// What is decided
// ---------------------------------------------------------------------------

/// A value without surrounding white space, where anything is left of it.
pub open spec fn nonblank(value: Option<Seq<char>>) -> Option<Seq<char>> {
    match value {
        Some(s) => if text::trim(s).len() > 0 {
            Some(text::trim(s))
        } else {
            None
        },
        None => None,
    }
}

/// The verdict of a key: sampled in or out.
pub open spec fn verdict_of(keep: bool, kind: SampleKey, session_id: Option<Seq<char>>) -> Verdict {
    if keep {
        Verdict::Keep { kind, session_id }
    } else {
        Verdict::Drop
    }
}

/// The MCP session id of a request: from its header, or from the query string
/// as in the older transport.
pub open spec fn request_session(keys: SamplingKeys, query: Option<Seq<char>>) -> Option<
    Seq<char>,
> {
    match nonblank(text::text_of(keys.mcp_session_id)) {
        Some(s) => Some(s),
        None => match query {
            Some(q) => query::session_of(query::form_pairs(vstd::utf8::encode_utf8(q))),
            None => None,
        },
    }
}

/// The first of the named headers that the request has, with its value.
pub open spec fn header_key(names: Seq<String>, values: Seq<Option<String>>) -> Option<
    (Seq<char>, Seq<char>),
>
    decreases names.len(),
{
    if names.len() == 0 || values.len() == 0 {
        None
    } else {
        match nonblank(text::text_of(values[0])) {
            Some(v) => Some((names[0]@, v)),
            None => header_key(names.drop_first(), values.drop_first()),
        }
    }
}

/// The hash domain of a named header.
pub open spec fn header_domain(name: Seq<char>) -> Seq<char> {
    "header:"@ + name
}

/// The caller that an authentication policy has established.
pub open spec fn principal_key(keys: SamplingKeys) -> Option<Seq<char>> {
    match keys.principal {
        Some(p) => nonblank(Some(p@)),
        None => nonblank(text::text_of(keys.client_id)),
    }
}

/// The week of an instant.
pub open spec fn epoch_of(now_micros: u64) -> u64 {
    now_micros / 1_000_000 / EPOCH_SECONDS
}

/// The verdict on a key in a hash domain.
pub open spec fn keyed_verdict(
    rate: SampleRate,
    k: Seq<u8>,
    domain: Seq<char>,
    key: Seq<char>,
    epoch: Option<u64>,
) -> bool {
    sampler::keeps(rate, sampler::decision_hash(k, domain, key, epoch))
}

/// The identity of the caller decides: by key, or by the coin where there is
/// none. Principals and users rotate with the week.
pub open spec fn identity_verdict(
    rate: SampleRate,
    k: Seq<u8>,
    keys: SamplingKeys,
    now_micros: u64,
    coin: u64,
) -> (bool, SampleKey) {
    let epoch = Some(epoch_of(now_micros));
    match principal_key(keys) {
        Some(p) => (keyed_verdict(rate, k, DOMAIN_PRINCIPAL@, p, epoch), SampleKey::Principal),
        None => match nonblank(text::text_of(keys.user_id)) {
            Some(u) => (keyed_verdict(rate, k, DOMAIN_USER@, u, epoch), SampleKey::UserId),
            None => match nonblank(text::text_of(keys.authorization)) {
                Some(a) => (
                    keyed_verdict(rate, k, DOMAIN_AUTHORIZATION@, a, None),
                    SampleKey::Authorization,
                ),
                None => (sampler::coin_verdict(rate, coin), SampleKey::Request),
            },
        },
    }
}

/// The request has an identity that decides by key.
pub open spec fn has_identity(keys: SamplingKeys) -> bool {
    ||| principal_key(keys) is Some
    ||| nonblank(text::text_of(keys.user_id)) is Some
    ||| nonblank(text::text_of(keys.authorization)) is Some
}

/// The request looks like an MCP handshake: a JSON POST that accepts both JSON
/// and events and names no protocol version yet.
pub open spec fn handshake_shaped(keys: SamplingKeys, method: Seq<char>) -> bool {
    &&& method == "POST"@
    &&& keys.content_type matches Some(ct) && headers::json_type(ct@)
    &&& keys.accept matches Some(a) && headers::json_type(a@) && headers::sse_type(a@)
    &&& keys.mcp_protocol_version is None
}

/// The decision where the sampling unit is the session and the rate lies
/// between 0 and 1.
pub open spec fn session_verdict(
    ctx: PolicyContext,
    keys: SamplingKeys,
    endpoint: Seq<char>,
    method: Seq<char>,
    query: Option<Seq<char>>,
    now_micros: u64,
    coin: u64,
) -> Verdict {
    let rate = ctx.config.sample_rate;
    let k = ctx.keyed.key();
    match request_session(keys, query) {
        Some(id) => verdict_of(
            keyed_verdict(rate, k, DOMAIN_SESSION@, id, None),
            SampleKey::SessionRequest,
            Some(id),
        ),
        None => match header_key(ctx.session_key_headers@, keys.session_key_values@) {
            Some((name, value)) => verdict_of(
                keyed_verdict(rate, k, header_domain(name), value, None),
                SampleKey::SessionHeader,
                None,
            ),
            None => if ai_content::llm_path(endpoint) {
                verdict_of(sampler::coin_verdict(rate, coin), SampleKey::Request, None)
            } else {
                let (keep, kind) = identity_verdict(rate, k, keys, now_micros, coin);
                if handshake_shaped(keys, method) {
                    Verdict::PendingHandshake { fallback_keep: keep, fallback_kind: kind }
                } else {
                    verdict_of(keep, kind, None)
                }
            },
        },
    }
}

/// The decision where the sampling unit is the session draws from the coin.
pub open spec fn session_flips(
    ctx: PolicyContext,
    keys: SamplingKeys,
    endpoint: Seq<char>,
    query: Option<Seq<char>>,
) -> bool {
    &&& request_session(keys, query) is None
    &&& header_key(ctx.session_key_headers@, keys.session_key_values@) is None
    &&& ai_content::llm_path(endpoint) || !has_identity(keys)
}

/// The sampling decision for a request.
pub open spec fn decide(
    ctx: PolicyContext,
    keys: SamplingKeys,
    endpoint: Seq<char>,
    method: Seq<char>,
    query: Option<Seq<char>>,
    now_micros: u64,
    coin: u64,
) -> Verdict {
    let rate = ctx.config.sample_rate;
    if rate.at_least_one() {
        Verdict::CaptureAll
    } else if !rate.positive() {
        Verdict::Drop
    } else if ctx.sample_mode == SampleMode::Request {
        verdict_of(sampler::coin_verdict(rate, coin), SampleKey::Request, None)
    } else {
        session_verdict(ctx, keys, endpoint, method, query, now_micros, coin)
    }
}

/// The state of the coin after the decision.
pub open spec fn coin_after(
    ctx: PolicyContext,
    keys: SamplingKeys,
    endpoint: Seq<char>,
    query: Option<Seq<char>>,
    coin: u64,
) -> u64 {
    let rate = ctx.config.sample_rate;
    if rate.at_least_one() || !rate.positive() {
        coin
    } else if ctx.sample_mode == SampleMode::Request || session_flips(ctx, keys, endpoint, query) {
        sampler::coin_next(rate, coin)
    } else {
        coin
    }
}

// ---------------------------------------------------------------------------
// Deciding
// ---------------------------------------------------------------------------

/// Trims a value; blank reads as absent, so that a blank header can never key
/// the sampling.
pub fn nonempty(value: Option<String>) -> (r: Option<String>)
    ensures
        text::text_of(r) == nonblank(text::text_of(value)),
{
    match value {
        Some(v) => read_nonblank(&Some(v)),
        None => None,
    }
}

/// Reads a value; blank reads as absent.
fn read_nonblank(value: &Option<String>) -> (r: Option<String>)
    ensures
        text::text_of(r) == nonblank(text::text_of(*value)),
{
    match value {
        Some(v) => {
            let trimmed = text::trimmed(v.as_str());
            if trimmed.as_str().is_empty() {
                None
            } else {
                Some(trimmed)
            }
        },
        None => None,
    }
}

/// The verdict of a key.
fn keep_or_drop(keep: bool, kind: SampleKey, session_id: Option<String>) -> (r: SampleDecision)
    ensures
        r.view() == verdict_of(keep, kind, text::text_of(session_id)),
{
    if keep {
        SampleDecision::Keep { kind, session_id }
    } else {
        SampleDecision::Drop
    }
}

/// The MCP session id of a request.
fn find_request_session(keys: &SamplingKeys, query_string: Option<&str>) -> (r: Option<String>)
    ensures
        text::text_of(r) == request_session(*keys, text::str_of(query_string)),
{
    match read_nonblank(&keys.mcp_session_id) {
        Some(s) => Some(s),
        None => query::legacy_mcp_session_query(query_string),
    }
}

/// The position of the first named header that the request has, with its
/// value.
fn find_header_key(names: &Vec<String>, values: &Vec<Option<String>>) -> (r: Option<
    (usize, String),
>)
    ensures
        match r {
            Some((i, v)) => i < names@.len() && header_key(names@, values@) == Some(
                (names@[i as int]@, v@),
            ),
            None => header_key(names@, values@) is None,
        },
{
    let mut i: usize = 0;
    proof {
        assert(names@.skip(0) =~= names@);
        assert(values@.skip(0) =~= values@);
    }
    while i < names.len() && i < values.len()
        invariant
            i <= names@.len(),
            i <= values@.len(),
            header_key(names@, values@) == header_key(
                names@.skip(i as int),
                values@.skip(i as int),
            ),
        decreases names@.len() - i,
    {
        proof {
            assert(names@.skip(i as int).drop_first() =~= names@.skip(i + 1));
            assert(values@.skip(i as int).drop_first() =~= values@.skip(i + 1));
        }
        match read_nonblank(&values[i]) {
            Some(v) => {
                return Some((i, v));
            },
            None => {},
        }
        i += 1;
    }
    None
}

/// The verdict by the identity of the caller.
fn decide_by_identity(ctx: &PolicyContext, coin: &mut Coin, keys: &SamplingKeys, now_micros: u64) -> (r: (bool, SampleKey))
    requires
        ctx.wf(),
        old(coin).rate() == ctx.config.sample_rate,
    ensures
        r == identity_verdict(
            ctx.config.sample_rate,
            ctx.keyed.key(),
            *keys,
            now_micros,
            old(coin).state(),
        ),
        final(coin).rate() == old(coin).rate(),
        final(coin).state() == if has_identity(*keys) {
            old(coin).state()
        } else {
            sampler::coin_next(old(coin).rate(), old(coin).state())
        },
{
    let epoch: Option<u64> = Some(now_micros / 1_000_000 / EPOCH_SECONDS);
    let principal = match &keys.principal {
        Some(_) => read_nonblank(&keys.principal),
        None => read_nonblank(&keys.client_id),
    };
    match principal {
        Some(p) => {
            return (
                ctx.keyed.keep(DOMAIN_PRINCIPAL, p.as_str(), epoch),
                SampleKey::Principal,
            );
        },
        None => {},
    }
    match read_nonblank(&keys.user_id) {
        Some(u) => {
            return (ctx.keyed.keep(DOMAIN_USER, u.as_str(), epoch), SampleKey::UserId);
        },
        None => {},
    }
    match read_nonblank(&keys.authorization) {
        Some(a) => {
            return (
                ctx.keyed.keep(DOMAIN_AUTHORIZATION, a.as_str(), None),
                SampleKey::Authorization,
            );
        },
        None => {},
    }
    (coin.flip(), SampleKey::Request)
}

/// Whether the request looks like an MCP handshake.
fn is_handshake_shaped(keys: &SamplingKeys, method: &str) -> (r: bool)
    ensures
        r == handshake_shaped(*keys, method@),
{
    text::same(method, "POST") && headers::content_type_is_json(text::as_text(&keys.content_type))
        && headers::accept_lists_json_and_sse(text::as_text(&keys.accept))
        && keys.mcp_protocol_version.is_none()
}

/// Makes the sampling decision for a request. It reads raw headers only, so
/// that no capture setting can change it.
pub fn sampling_decision(
    ctx: &PolicyContext,
    coin: &mut Coin,
    keys: &SamplingKeys,
    endpoint: &str,
    method: &str,
    query_string: Option<&str>,
    now_epoch_micros: u64,
) -> (r: SampleDecision)
    requires
        ctx.wf(),
        old(coin).rate() == ctx.config.sample_rate,
    ensures
        r.view() == decide(
            *ctx,
            *keys,
            endpoint@,
            method@,
            text::str_of(query_string),
            now_epoch_micros,
            old(coin).state(),
        ),
        final(coin).rate() == old(coin).rate(),
        final(coin).state() == coin_after(
            *ctx,
            *keys,
            endpoint@,
            text::str_of(query_string),
            old(coin).state(),
        ),
{
    let rate = ctx.config.sample_rate;
    if rate.is_at_least_one() {
        return SampleDecision::CaptureAll;
    }
    if !rate.is_positive() {
        return SampleDecision::Drop;
    }
    if ctx.sample_mode == SampleMode::Request {
        return keep_or_drop(coin.flip(), SampleKey::Request, None);
    }
    match find_request_session(keys, query_string) {
        Some(id) => {
            let keep = ctx.keyed.keep(DOMAIN_SESSION, id.as_str(), None);
            return keep_or_drop(keep, SampleKey::SessionRequest, Some(id));
        },
        None => {},
    }
    match find_header_key(&ctx.session_key_headers, &keys.session_key_values) {
        Some((i, value)) => {
            // The name is part of the domain, so that equal values of two
            // headers do not share a decision.
            let mut domain = "header:".to_string();
            domain.append(ctx.session_key_headers[i].as_str());
            let keep = ctx.keyed.keep(domain.as_str(), value.as_str(), None);
            return keep_or_drop(keep, SampleKey::SessionHeader, None);
        },
        None => {},
    }
    // A chat request carries the whole conversation so far, so that one sampled
    // request already holds the session: such traffic is sampled by request.
    if ai_content::is_llm_path(endpoint) {
        return keep_or_drop(coin.flip(), SampleKey::Request, None);
    }
    let (fallback_keep, fallback_kind) = decide_by_identity(ctx, coin, keys, now_epoch_micros);
    if is_handshake_shaped(keys, method) {
        return SampleDecision::PendingHandshake { fallback_keep, fallback_kind };
    }
    keep_or_drop(fallback_keep, fallback_kind, None)
}

// ---------------------------------------------------------------------------
// Laws
// ---------------------------------------------------------------------------

/// At rate 1 everything is captured and no sampling key is stamped; at rate 0
/// nothing is captured.
pub proof fn law_rate_bounds(
    ctx: PolicyContext,
    keys: SamplingKeys,
    endpoint: Seq<char>,
    method: Seq<char>,
    query: Option<Seq<char>>,
    now_micros: u64,
    coin: u64,
)
    ensures
        ctx.config.sample_rate.at_least_one() ==> decide(
            ctx,
            keys,
            endpoint,
            method,
            query,
            now_micros,
            coin,
        ) == Verdict::CaptureAll,
        !ctx.config.sample_rate.positive() ==> decide(
            ctx,
            keys,
            endpoint,
            method,
            query,
            now_micros,
            coin,
        ) == Verdict::Drop,
{
    vstd::arithmetic::power2::lemma_pow2_pos(1074);
}

/// No key ships but the MCP session id: a verdict carries a session id only
/// where that id made it, and then it is the request's own.
pub proof fn law_only_session_ids_ship(
    ctx: PolicyContext,
    keys: SamplingKeys,
    endpoint: Seq<char>,
    method: Seq<char>,
    query: Option<Seq<char>>,
    now_micros: u64,
    coin: u64,
)
    ensures
        decide(ctx, keys, endpoint, method, query, now_micros, coin) matches Verdict::Keep {
            kind,
            session_id: Some(id),
        } ==> kind == SampleKey::SessionRequest && request_session(keys, query) == Some(id),
{
}

/// A request with a key gets the same verdict from every worker: where an MCP
/// session id, a named header, or off LLM paths an identity is present, the
/// coin does not decide.
pub proof fn law_keyed_verdicts_ignore_the_coin(
    ctx: PolicyContext,
    keys: SamplingKeys,
    endpoint: Seq<char>,
    method: Seq<char>,
    query: Option<Seq<char>>,
    now_micros: u64,
    a: u64,
    b: u64,
)
    requires
        ctx.sample_mode == SampleMode::Session,
        !session_flips(ctx, keys, endpoint, query),
    ensures
        decide(ctx, keys, endpoint, method, query, now_micros, a) == decide(
            ctx,
            keys,
            endpoint,
            method,
            query,
            now_micros,
            b,
        ),
        coin_after(ctx, keys, endpoint, query, a) == a,
{
}

/// A session is kept or dropped whole: all requests that carry one MCP session
/// id get one decision, whatever their path, method, time and other headers.
pub proof fn law_a_session_is_kept_whole(
    ctx: PolicyContext,
    keys_a: SamplingKeys,
    endpoint_a: Seq<char>,
    method_a: Seq<char>,
    query_a: Option<Seq<char>>,
    now_a: u64,
    coin_a: u64,
    keys_b: SamplingKeys,
    endpoint_b: Seq<char>,
    method_b: Seq<char>,
    query_b: Option<Seq<char>>,
    now_b: u64,
    coin_b: u64,
)
    requires
        ctx.sample_mode == SampleMode::Session,
        request_session(keys_a, query_a) is Some,
        request_session(keys_a, query_a) == request_session(keys_b, query_b),
    ensures
        decide(ctx, keys_a, endpoint_a, method_a, query_a, now_a, coin_a) == decide(
            ctx,
            keys_b,
            endpoint_b,
            method_b,
            query_b,
            now_b,
            coin_b,
        ),
{
}

/// Identities rotate with the week and with nothing shorter: within one week the
/// time of a request does not decide.
pub proof fn law_decisions_last_a_week(
    ctx: PolicyContext,
    keys: SamplingKeys,
    endpoint: Seq<char>,
    method: Seq<char>,
    query: Option<Seq<char>>,
    now_a: u64,
    now_b: u64,
    coin: u64,
)
    requires
        epoch_of(now_a) == epoch_of(now_b),
    ensures
        decide(ctx, keys, endpoint, method, query, now_a, coin) == decide(
            ctx,
            keys,
            endpoint,
            method,
            query,
            now_b,
            coin,
        ),
{
}

/// Which header decides depends on the names alone.
proof fn lemma_header_key_of_names(a: Seq<String>, b: Seq<String>, values: Seq<Option<String>>)
    requires
        text::views(a) == text::views(b),
    ensures
        header_key(a, values) == header_key(b, values),
    decreases a.len(),
{
    assert(a.len() == text::views(a).len() && b.len() == text::views(b).len());
    if a.len() > 0 && values.len() > 0 {
        assert(text::views(a)[0] == a[0]@ && text::views(b)[0] == b[0]@);
        assert(text::views(a.drop_first()) =~= text::views(a).drop_first());
        assert(text::views(b.drop_first()) =~= text::views(b).drop_first());
        lemma_header_key_of_names(a.drop_first(), b.drop_first(), values.drop_first());
    }
}

/// Workers and replicas agree without shared state: two policies loaded from
/// one configuration with one secret reach the same decision on every request
/// that a key decides, whatever the state of their coins.
pub proof fn law_workers_agree(
    a: PolicyContext,
    b: PolicyContext,
    config: Config,
    secret: Option<String>,
    keys: SamplingKeys,
    endpoint: Seq<char>,
    method: Seq<char>,
    query: Option<Seq<char>>,
    now_micros: u64,
    coin_a: u64,
    coin_b: u64,
)
    requires
        policy::context_matches(a, config, secret),
        policy::context_matches(b, config, secret),
        a.sample_mode == SampleMode::Session,
        !session_flips(a, keys, endpoint, query),
    ensures
        decide(a, keys, endpoint, method, query, now_micros, coin_a) == decide(
            b,
            keys,
            endpoint,
            method,
            query,
            now_micros,
            coin_b,
        ),
{
    lemma_header_key_of_names(
        a.session_key_headers@,
        b.session_key_headers@,
        keys.session_key_values@,
    );
    law_keyed_verdicts_ignore_the_coin(
        a,
        keys,
        endpoint,
        method,
        query,
        now_micros,
        coin_a,
        coin_b,
    );
}

/// A setting or header value that holds nothing but white space, or is absent.
pub open spec fn blank_value(v: Option<String>) -> bool {
    v matches Some(s) ==> text::trim(s@).len() == 0
}

/// The request names no MCP session: neither in its header nor in its query
/// string.
pub open spec fn names_no_session(keys: SamplingKeys, query: Option<Seq<char>>) -> bool {
    &&& blank_value(keys.mcp_session_id)
    &&& query matches Some(q) ==> forall|j: int|
        0 <= j < query::form_pairs(vstd::utf8::encode_utf8(q)).len() ==> !carries_session(
            #[trigger] query::form_pairs(vstd::utf8::encode_utf8(q))[j],
        )
}

/// The parameter is a session id, in either spelling, that is not blank.
pub open spec fn carries_session(pair: (Seq<char>, Seq<char>)) -> bool {
    (pair.0 == "sessionId"@ || pair.0 == "session_id"@) && text::trim(pair.1).len() > 0
}

/// None of the headers that the operator names has a value.
pub open spec fn names_no_header(ctx: PolicyContext, keys: SamplingKeys) -> bool {
    forall|j: int|
        0 <= j < ctx.session_key_headers@.len() && 0 <= j < keys.session_key_values@.len()
            ==> blank_value(#[trigger] keys.session_key_values@[j])
}

/// Sampling is active, by session.
pub open spec fn samples_sessions(ctx: PolicyContext) -> bool {
    &&& ctx.sample_mode == SampleMode::Session
    &&& ctx.config.sample_rate.positive()
    &&& !ctx.config.sample_rate.at_least_one()
}

/// The key is kept at the rate of the context.
pub open spec fn kept(
    ctx: PolicyContext,
    domain: Seq<char>,
    key: Seq<char>,
    epoch: Option<u64>,
) -> bool {
    sampler::keeps(
        ctx.config.sample_rate,
        sampler::decision_hash(ctx.keyed.key(), domain, key, epoch),
    )
}

/// No parameter before position `i` carries a session, and that one does.
proof fn lemma_first_session(pairs: Seq<(Seq<char>, Seq<char>)>, i: int)
    requires
        0 <= i <= pairs.len(),
        forall|j: int| 0 <= j < i ==> !carries_session(#[trigger] pairs[j]),
        i < pairs.len() ==> carries_session(pairs[i]),
    ensures
        query::session_of(pairs) == if i < pairs.len() {
            Some(text::trim(pairs[i].1))
        } else {
            None
        },
    decreases i,
{
    if i > 0 {
        assert(!carries_session(pairs[0]));
        assert forall|j: int| 0 <= j < i - 1 implies !carries_session(
            #[trigger] pairs.drop_first()[j],
        ) by {
            assert(!carries_session(pairs[j + 1]));
        }
        lemma_first_session(pairs.drop_first(), i - 1);
    }
}

/// No header before position `i` has a value, and that one does.
proof fn lemma_first_header(names: Seq<String>, values: Seq<Option<String>>, i: int)
    requires
        0 <= i,
        forall|j: int|
            0 <= j < i && j < names.len() && j < values.len() ==> blank_value(#[trigger] values[j]),
        i < names.len() && i < values.len() ==> !blank_value(values[i]),
    ensures
        header_key(names, values) == if i < names.len() && i < values.len() {
            Some((names[i]@, text::trim(values[i]->0@)))
        } else {
            None
        },
    decreases i,
{
    if names.len() > 0 && values.len() > 0 && i > 0 {
        assert(blank_value(values[0]));
        assert forall|j: int|
            0 <= j < i - 1 && j < names.drop_first().len() && j
                < values.drop_first().len() implies blank_value(
            #[trigger] values.drop_first()[j],
        ) by {
            assert(blank_value(values[j + 1]));
        }
        lemma_first_header(names.drop_first(), values.drop_first(), i - 1);
    }
}

/// A request that names no session has none.
proof fn lemma_no_session(keys: SamplingKeys, query: Option<Seq<char>>)
    requires
        names_no_session(keys, query),
    ensures
        request_session(keys, query) is None,
{
    if let Some(q) = query {
        let pairs = query::form_pairs(vstd::utf8::encode_utf8(q));
        lemma_first_session(pairs, pairs.len() as int);
    }
}

/// A request without a value under a named header has no header key.
proof fn lemma_no_header(ctx: PolicyContext, keys: SamplingKeys)
    requires
        names_no_header(ctx, keys),
    ensures
        header_key(ctx.session_key_headers@, keys.session_key_values@) is None,
{
    lemma_first_header(
        ctx.session_key_headers@,
        keys.session_key_values@,
        ctx.session_key_headers@.len() as int,
    );
}

/// The MCP session header decides before anything else, and its id ships with
/// the events that it keeps.
pub proof fn law_session_header_decides(
    ctx: PolicyContext,
    keys: SamplingKeys,
    id: Seq<char>,
    endpoint: Seq<char>,
    method: Seq<char>,
    query: Option<Seq<char>>,
    now_micros: u64,
    coin: u64,
)
    requires
        samples_sessions(ctx),
        keys.mcp_session_id matches Some(s) && text::trim(s@) == id,
        id.len() > 0,
    ensures
        decide(ctx, keys, endpoint, method, query, now_micros, coin) == if kept(
            ctx,
            "session"@,
            id,
            None,
        ) {
            Verdict::Keep { kind: SampleKey::SessionRequest, session_id: Some(id) }
        } else {
            Verdict::Drop
        },
        coin_after(ctx, keys, endpoint, query, coin) == coin,
{
}

/// Without that header the first session parameter of the query string decides
/// in its place, as the same id in the header would.
pub proof fn law_session_parameter_decides(
    ctx: PolicyContext,
    keys: SamplingKeys,
    query: Seq<char>,
    i: int,
    endpoint: Seq<char>,
    method: Seq<char>,
    now_micros: u64,
    coin: u64,
)
    requires
        samples_sessions(ctx),
        blank_value(keys.mcp_session_id),
        0 <= i < query::form_pairs(vstd::utf8::encode_utf8(query)).len(),
        carries_session(query::form_pairs(vstd::utf8::encode_utf8(query))[i]),
        forall|j: int|
            0 <= j < i ==> !carries_session(
                #[trigger] query::form_pairs(vstd::utf8::encode_utf8(query))[j],
            ),
    ensures
        ({
            let id = text::trim(query::form_pairs(vstd::utf8::encode_utf8(query))[i].1);
            decide(ctx, keys, endpoint, method, Some(query), now_micros, coin) == if kept(
                ctx,
                "session"@,
                id,
                None,
            ) {
                Verdict::Keep { kind: SampleKey::SessionRequest, session_id: Some(id) }
            } else {
                Verdict::Drop
            }
        }),
        coin_after(ctx, keys, endpoint, Some(query), coin) == coin,
{
    lemma_first_session(query::form_pairs(vstd::utf8::encode_utf8(query)), i);
}

/// Without a session the first named header that has a value decides, by its
/// name and value and on every path, that of an LLM API included. Nothing of it
/// ships, and the coin stays where it is.
pub proof fn law_named_header_decides(
    ctx: PolicyContext,
    keys: SamplingKeys,
    i: int,
    endpoint: Seq<char>,
    method: Seq<char>,
    query: Option<Seq<char>>,
    now_micros: u64,
    coin: u64,
)
    requires
        samples_sessions(ctx),
        names_no_session(keys, query),
        0 <= i < ctx.session_key_headers@.len(),
        i < keys.session_key_values@.len(),
        !blank_value(keys.session_key_values@[i]),
        forall|j: int| 0 <= j < i ==> blank_value(#[trigger] keys.session_key_values@[j]),
    ensures
        decide(ctx, keys, endpoint, method, query, now_micros, coin) == if kept(
            ctx,
            "header:"@ + ctx.session_key_headers@[i]@,
            text::trim(keys.session_key_values@[i]->0@),
            None,
        ) {
            Verdict::Keep { kind: SampleKey::SessionHeader, session_id: None }
        } else {
            Verdict::Drop
        },
        coin_after(ctx, keys, endpoint, query, coin) == coin,
{
    lemma_no_session(keys, query);
    lemma_first_header(ctx.session_key_headers@, keys.session_key_values@, i);
}

/// Requests that share the value of a named header are kept or dropped together,
/// whatever their path, method and time, and whatever their workers' coins.
pub proof fn law_a_conversation_is_kept_whole(
    ctx: PolicyContext,
    a: SamplingKeys,
    b: SamplingKeys,
    i: int,
    endpoint_a: Seq<char>,
    endpoint_b: Seq<char>,
    method_a: Seq<char>,
    method_b: Seq<char>,
    query_a: Option<Seq<char>>,
    query_b: Option<Seq<char>>,
    now_a: u64,
    now_b: u64,
    coin_a: u64,
    coin_b: u64,
)
    requires
        samples_sessions(ctx),
        names_no_session(a, query_a),
        names_no_session(b, query_b),
        0 <= i < ctx.session_key_headers@.len(),
        i < a.session_key_values@.len(),
        i < b.session_key_values@.len(),
        !blank_value(a.session_key_values@[i]),
        a.session_key_values@[i] == b.session_key_values@[i],
        forall|j: int| 0 <= j < i ==> blank_value(#[trigger] a.session_key_values@[j]),
        forall|j: int| 0 <= j < i ==> blank_value(#[trigger] b.session_key_values@[j]),
    ensures
        decide(ctx, a, endpoint_a, method_a, query_a, now_a, coin_a) == decide(
            ctx,
            b,
            endpoint_b,
            method_b,
            query_b,
            now_b,
            coin_b,
        ),
{
    law_named_header_decides(ctx, a, i, endpoint_a, method_a, query_a, now_a, coin_a);
    law_named_header_decides(ctx, b, i, endpoint_b, method_b, query_b, now_b, coin_b);
}

/// Chat traffic without a session key is sampled by the coin, one flip for each
/// request, whoever the caller is.
pub proof fn law_chat_is_sampled_by_request(
    ctx: PolicyContext,
    keys: SamplingKeys,
    endpoint: Seq<char>,
    method: Seq<char>,
    query: Option<Seq<char>>,
    now_micros: u64,
    coin: u64,
)
    requires
        samples_sessions(ctx),
        names_no_session(keys, query),
        names_no_header(ctx, keys),
        ai_content::llm_path(endpoint),
    ensures
        decide(ctx, keys, endpoint, method, query, now_micros, coin) == if sampler::coin_verdict(
            ctx.config.sample_rate,
            coin,
        ) {
            Verdict::Keep { kind: SampleKey::Request, session_id: None }
        } else {
            Verdict::Drop
        },
        coin_after(ctx, keys, endpoint, query, coin) == sampler::next_state(coin),
{
    lemma_no_session(keys, query);
    lemma_no_header(ctx, keys);
}

/// Where the sampling unit is the request, the coin decides and nothing else.
pub proof fn law_request_mode_flips(
    ctx: PolicyContext,
    keys: SamplingKeys,
    endpoint: Seq<char>,
    method: Seq<char>,
    query: Option<Seq<char>>,
    now_micros: u64,
    coin: u64,
)
    requires
        ctx.sample_mode == SampleMode::Request,
        ctx.config.sample_rate.positive(),
        !ctx.config.sample_rate.at_least_one(),
    ensures
        decide(ctx, keys, endpoint, method, query, now_micros, coin) == if sampler::coin_verdict(
            ctx.config.sample_rate,
            coin,
        ) {
            Verdict::Keep { kind: SampleKey::Request, session_id: None }
        } else {
            Verdict::Drop
        },
        coin_after(ctx, keys, endpoint, query, coin) == sampler::next_state(coin),
{
}

/// The request is judged by the identity of its caller: it has no session key,
/// and its path is not that of an LLM API.
pub open spec fn judged_by_identity(
    ctx: PolicyContext,
    keys: SamplingKeys,
    endpoint: Seq<char>,
    query: Option<Seq<char>>,
) -> bool {
    &&& samples_sessions(ctx)
    &&& names_no_session(keys, query)
    &&& names_no_header(ctx, keys)
    &&& !ai_content::llm_path(endpoint)
}

/// The verdict is the given one, at once or as the fallback of a handshake.
pub open spec fn comes_to(v: Verdict, keep: bool, kind: SampleKey) -> bool {
    match v {
        Verdict::Keep { kind: k, session_id } => keep && k == kind && session_id is None,
        Verdict::Drop => !keep,
        Verdict::PendingHandshake { fallback_keep, fallback_kind } => fallback_keep == keep
            && fallback_kind == kind,
        Verdict::CaptureAll => false,
    }
}

/// The principal decides before the user id, in a hash domain that changes with
/// the week; the client id stands in where there is no principal.
pub proof fn law_principal_decides(
    ctx: PolicyContext,
    keys: SamplingKeys,
    p: String,
    endpoint: Seq<char>,
    method: Seq<char>,
    query: Option<Seq<char>>,
    now_micros: u64,
    coin: u64,
)
    requires
        judged_by_identity(ctx, keys, endpoint, query),
        keys.principal == Some(p) || (keys.principal is None && keys.client_id == Some(p)),
        text::trim(p@).len() > 0,
    ensures
        comes_to(
            decide(ctx, keys, endpoint, method, query, now_micros, coin),
            kept(
                ctx,
                "principal"@,
                text::trim(p@),
                Some((now_micros / 1_000_000 / 604_800) as u64),
            ),
            SampleKey::Principal,
        ),
        coin_after(ctx, keys, endpoint, query, coin) == coin,
{
    lemma_no_session(keys, query);
    lemma_no_header(ctx, keys);
}

/// Without a principal the user id decides, in a hash domain that changes with
/// the week.
pub proof fn law_user_decides(
    ctx: PolicyContext,
    keys: SamplingKeys,
    u: String,
    endpoint: Seq<char>,
    method: Seq<char>,
    query: Option<Seq<char>>,
    now_micros: u64,
    coin: u64,
)
    requires
        judged_by_identity(ctx, keys, endpoint, query),
        blank_value(keys.principal),
        keys.principal is Some || blank_value(keys.client_id),
        keys.user_id == Some(u),
        text::trim(u@).len() > 0,
    ensures
        comes_to(
            decide(ctx, keys, endpoint, method, query, now_micros, coin),
            kept(
                ctx,
                "user"@,
                text::trim(u@),
                Some((now_micros / 1_000_000 / 604_800) as u64),
            ),
            SampleKey::UserId,
        ),
        coin_after(ctx, keys, endpoint, query, coin) == coin,
{
    lemma_no_session(keys, query);
    lemma_no_header(ctx, keys);
}

/// Without either the `Authorization` value decides, at all times alike; and
/// without any identity the coin does.
pub proof fn law_authorization_decides(
    ctx: PolicyContext,
    keys: SamplingKeys,
    endpoint: Seq<char>,
    method: Seq<char>,
    query: Option<Seq<char>>,
    now_micros: u64,
    coin: u64,
)
    requires
        judged_by_identity(ctx, keys, endpoint, query),
        blank_value(keys.principal),
        keys.principal is Some || blank_value(keys.client_id),
        blank_value(keys.user_id),
    ensures
        !blank_value(keys.authorization) ==> comes_to(
            decide(ctx, keys, endpoint, method, query, now_micros, coin),
            kept(ctx, "authorization"@, text::trim(keys.authorization->0@), None),
            SampleKey::Authorization,
        ) && coin_after(ctx, keys, endpoint, query, coin) == coin,
        blank_value(keys.authorization) ==> comes_to(
            decide(ctx, keys, endpoint, method, query, now_micros, coin),
            sampler::coin_verdict(ctx.config.sample_rate, coin),
            SampleKey::Request,
        ) && coin_after(ctx, keys, endpoint, query, coin) == sampler::next_state(coin),
{
    lemma_no_session(keys, query);
    lemma_no_header(ctx, keys);
}

/// A request waits for its response exactly where it is judged by identity and
/// looks like an MCP handshake: a POST of JSON that accepts both JSON and events
/// and names no protocol version.
pub proof fn law_handshakes_wait(
    ctx: PolicyContext,
    keys: SamplingKeys,
    endpoint: Seq<char>,
    method: Seq<char>,
    query: Option<Seq<char>>,
    now_micros: u64,
    coin: u64,
)
    requires
        judged_by_identity(ctx, keys, endpoint, query),
    ensures
        decide(ctx, keys, endpoint, method, query, now_micros, coin) is PendingHandshake <==> {
            &&& method == "POST"@
            &&& keys.content_type matches Some(ct) && text::contains(
                text::lower(ct@),
                "application/json"@,
            )
            &&& keys.accept matches Some(a) && text::contains(text::lower(a@), "application/json"@)
                && text::contains(text::lower(a@), "text/event-stream"@)
            &&& keys.mcp_protocol_version is None
        },
{
    lemma_no_session(keys, query);
    lemma_no_header(ctx, keys);
}

} // verus!
