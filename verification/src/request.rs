//! The request side: which requests are captured, and the event that is built
//! for one.

use vstd::prelude::*;
use vstd::string::*;

use crate::ai_content;
use crate::event::{CerberusEvent, EventModel, SampleKey};
use crate::event;
use crate::groups;
use crate::hash;
use crate::headers;
use crate::json;
use crate::json::{Json, JsonTree};
use crate::policy::PolicyContext;
use crate::query;
use crate::sampler::Coin;
use crate::sampling;
use crate::sampling::{SampleDecision, SamplingKeys, Verdict};
use crate::sanitize;
use crate::source_ip;
use crate::text;
use crate::timestamp;

verus! {

/// Paths of health checks, which are never captured.
pub const HEALTH_ENDPOINTS: [&'static str; 3] = ["/health", "/health_check", "/ready"];

/// What the policy reads from a request to decide whether it is captured.
#[derive(Debug)]
pub struct RequestArrival {
    /// Path with query string.
    pub path: String,
    pub method: String,
    pub keys: SamplingKeys,
    /// Arrival of the request, in microseconds since the start of 1970.
    pub now_epoch_micros: u64,
}

/// What the policy reads from a captured request beside its body.
#[derive(Debug)]
pub struct RequestFacts {
    pub scheme: String,
    /// All headers, as the proxy presents them.
    pub headers: Vec<(String, String)>,
    pub user_agent: Option<String>,
    /// Value of the configured client address header.
    pub client_ip: Option<String>,
    /// Source address of the connection.
    pub source_address: Option<Vec<u8>>,
}

/// A request that is captured, before its body is read.
#[derive(Debug)]
pub struct Admission {
    /// Path without query string.
    pub endpoint: String,
    pub query_string: Option<String>,
    /// Uppercased method.
    pub method: String,
    pub sample_key: Option<SampleKey>,
    pub session_id: Option<String>,
    /// Verdict of a handshake whose response carries no session id.
    pub pending: Option<(bool, SampleKey)>,
}

/// The model of [`Admission`].
pub struct AdmissionModel {
    pub endpoint: Seq<char>,
    pub query: Option<Seq<char>>,
    pub method: Seq<char>,
    pub sample_key: Option<SampleKey>,
    pub session_id: Option<Seq<char>>,
    pub pending: Option<(bool, SampleKey)>,
}

impl Admission {
    pub open spec fn view(&self) -> AdmissionModel {
        AdmissionModel {
            endpoint: self.endpoint@,
            query: text::text_of(self.query_string),
            method: self.method@,
            sample_key: self.sample_key,
            session_id: text::text_of(self.session_id),
            pending: self.pending,
        }
    }
}

/// What is carried from a request to its response.
#[derive(Debug)]
pub enum RequestSlot {
    /// The request is not captured.
    Skip,
    /// The event is built but for the response.
    Capture { event: CerberusEvent, start_epoch_micros: u64, ai_content_withheld: bool },
    /// As above, but the response decides whether the event is kept.
    PendingHandshake {
        event: CerberusEvent,
        start_epoch_micros: u64,
        ai_content_withheld: bool,
        fallback_keep: bool,
        fallback_kind: SampleKey,
    },
}

/// The model of [`RequestSlot`].
pub enum SlotModel {
    Skip,
    Capture { event: EventModel, start: u64, withheld: bool },
    PendingHandshake {
        event: EventModel,
        start: u64,
        withheld: bool,
        fallback_keep: bool,
        fallback_kind: SampleKey,
    },
}

impl RequestSlot {
    pub open spec fn view(&self) -> SlotModel {
        match self {
            RequestSlot::Skip => SlotModel::Skip,
            RequestSlot::Capture { event, start_epoch_micros, ai_content_withheld } =>
                SlotModel::Capture {
                    event: event.view(),
                    start: *start_epoch_micros,
                    withheld: *ai_content_withheld,
                },
            RequestSlot::PendingHandshake {
                event,
                start_epoch_micros,
                ai_content_withheld,
                fallback_keep,
                fallback_kind,
            } => SlotModel::PendingHandshake {
                event: event.view(),
                start: *start_epoch_micros,
                withheld: *ai_content_withheld,
                fallback_keep: *fallback_keep,
                fallback_kind: *fallback_kind,
            },
        }
    }
}

// ---------------------------------------------------------------------------
// Admission
// ---------------------------------------------------------------------------

/// The path before the query string.
pub open spec fn endpoint_of(path: Seq<char>) -> Seq<char> {
    text::before(path, '?')
}

/// The query string of a path.
pub open spec fn query_of(path: Seq<char>) -> Option<Seq<char>> {
    match path.index_of_first('?') {
        Some(i) => Some(path.skip(i + 1)),
        None => None,
    }
}

/// The path is that of a health check.
pub open spec fn is_health_endpoint(endpoint: Seq<char>) -> bool {
    exists|i: int| 0 <= i < HEALTH_ENDPOINTS@.len() && (#[trigger] HEALTH_ENDPOINTS@[i])@ == endpoint
}

/// The request passes the filters on its path.
pub open spec fn path_passes(ctx: PolicyContext, arrival: RequestArrival) -> bool {
    let endpoint = endpoint_of(arrival.path@);
    !is_health_endpoint(endpoint) && ctx.path_filter.captures(endpoint)
}

/// The sampling verdict on the request.
pub open spec fn request_verdict(ctx: PolicyContext, arrival: RequestArrival, coin: u64) -> Verdict {
    sampling::decide(
        ctx,
        arrival.keys,
        endpoint_of(arrival.path@),
        text::unicode_upper(arrival.method@),
        query_of(arrival.path@),
        arrival.now_epoch_micros,
        coin,
    )
}

/// What is known of a captured request before its body; `None` where it is not
/// captured.
pub open spec fn admission(ctx: PolicyContext, arrival: RequestArrival, coin: u64) -> Option<
    AdmissionModel,
> {
    if !path_passes(ctx, arrival) {
        None
    } else {
        let base = AdmissionModel {
            endpoint: endpoint_of(arrival.path@),
            query: query_of(arrival.path@),
            method: text::unicode_upper(arrival.method@),
            sample_key: None,
            session_id: None,
            pending: None,
        };
        match request_verdict(ctx, arrival, coin) {
            Verdict::Drop => None,
            Verdict::CaptureAll => Some(base),
            Verdict::Keep { kind, session_id } => Some(
                AdmissionModel { sample_key: Some(kind), session_id, ..base },
            ),
            Verdict::PendingHandshake { fallback_keep, fallback_kind } => Some(
                AdmissionModel { pending: Some((fallback_keep, fallback_kind)), ..base },
            ),
        }
    }
}

/// The coin after the admission. It is not touched where the path decides.
pub open spec fn coin_after_admission(ctx: PolicyContext, arrival: RequestArrival, coin: u64) -> u64 {
    if path_passes(ctx, arrival) {
        sampling::coin_after(
            ctx,
            arrival.keys,
            endpoint_of(arrival.path@),
            query_of(arrival.path@),
            coin,
        )
    } else {
        coin
    }
}

/// Splits a path at its first question mark.
fn split_path(path: &str) -> (r: (String, Option<String>))
    ensures
        r.0@ == endpoint_of(path@),
        text::text_of(r.1) == query_of(path@),
{
    let chars = text::chars_of(path);
    let at = text::find_char(chars.as_slice(), '?');
    let endpoint = text::string_of(text::chars_before(chars.as_slice(), '?').as_slice());
    if at < chars.len() {
        (endpoint, Some(text::string_of(text::slice_from(chars.as_slice(), at + 1))))
    } else {
        (endpoint, None)
    }
}

/// Decides whether a request is captured: health checks and filtered paths are
/// not, and sampling comes last, before any capture work.
pub fn admit_request(ctx: &PolicyContext, coin: &mut Coin, arrival: &RequestArrival) -> (r: Option<
    Admission,
>)
    requires
        ctx.wf(),
        old(coin).rate() == ctx.config.sample_rate,
    ensures
        match r {
            Some(a) => admission(*ctx, *arrival, old(coin).state()) == Some(a.view()),
            None => admission(*ctx, *arrival, old(coin).state()) is None,
        },
        final(coin).rate() == old(coin).rate(),
        final(coin).state() == coin_after_admission(*ctx, *arrival, old(coin).state()),
{
    let (endpoint, query_string) = split_path(arrival.path.as_str());
    if text::listed(HEALTH_ENDPOINTS.as_slice(), endpoint.as_str()) {
        return None;
    }
    if !ctx.path_filter.should_capture(endpoint.as_str()) {
        return None;
    }
    let method = text::to_unicode_upper(arrival.method.as_str());
    let decision = sampling::sampling_decision(
        ctx,
        coin,
        &arrival.keys,
        endpoint.as_str(),
        method.as_str(),
        text::as_text(&query_string),
        arrival.now_epoch_micros,
    );
    match decision {
        SampleDecision::Drop => None,
        SampleDecision::CaptureAll => Some(
            Admission {
                endpoint,
                query_string,
                method,
                sample_key: None,
                session_id: None,
                pending: None,
            },
        ),
        SampleDecision::Keep { kind, session_id } => Some(
            Admission {
                endpoint,
                query_string,
                method,
                sample_key: Some(kind),
                session_id,
                pending: None,
            },
        ),
        SampleDecision::PendingHandshake { fallback_keep, fallback_kind } => Some(
            Admission {
                endpoint,
                query_string,
                method,
                sample_key: None,
                session_id: None,
                pending: Some((fallback_keep, fallback_kind)),
            },
        ),
    }
}

// ---------------------------------------------------------------------------
// The body
// ---------------------------------------------------------------------------

/// The body of the request is read: bodies are captured, the method writes, the
/// content is JSON, and it is not withheld for its path alone.
pub open spec fn body_is_wanted(
    ctx: PolicyContext,
    endpoint: Seq<char>,
    method: Seq<char>,
    content_type: Option<Seq<char>>,
) -> bool {
    &&& ctx.config.capture_request_body
    &&& method == "POST"@ || method == "PUT"@ || method == "PATCH"@
    &&& content_type matches Some(ct) && headers::json_type(ct)
    &&& ctx.config.capture_ai_content || !ai_content::llm_path(endpoint)
}

/// What an event carries of a request body, and whether it was withheld as AI
/// content. Only objects and arrays are captured.
pub open spec fn request_body(ctx: PolicyContext, endpoint: Seq<char>, bytes: Seq<u8>) -> (
    Option<JsonTree>,
    bool,
) {
    match json::parsed(bytes) {
        Some(t) if bytes.len() > 0 && json::is_container(t) => if !ctx.config.capture_ai_content
            && ai_content::suppressed_body(endpoint, t) {
            (None, true)
        } else {
            (Some(sanitize::sanitized(t, 0, ctx.pii_rules, ctx.secret())), false)
        },
        _ => (None, false),
    }
}

/// Whether the body of the request is to be read.
pub fn wants_request_body(ctx: &PolicyContext, admission: &Admission, arrival: &RequestArrival) -> (r:
    bool)
    ensures
        r == body_is_wanted(
            *ctx,
            admission.endpoint@,
            admission.method@,
            text::text_of(arrival.keys.content_type),
        ),
{
    let method = admission.method.as_str();
    ctx.config.capture_request_body && (text::same(method, "POST") || text::same(method, "PUT")
        || text::same(method, "PATCH")) && headers::content_type_is_json(
        text::as_text(&arrival.keys.content_type),
    ) && (ctx.config.capture_ai_content || !ai_content::is_llm_path(admission.endpoint.as_str()))
}

/// Parses and sanitizes a request body. The second result says that it was
/// withheld as AI content.
pub fn capture_request_body(ctx: &PolicyContext, endpoint: &str, bytes: &[u8]) -> (r: (
    Option<Json>,
    bool,
))
    ensures
        event::tree_of(r.0) == request_body(*ctx, endpoint@, bytes@).0,
        r.1 == request_body(*ctx, endpoint@, bytes@).1,
        r.0 matches Some(j) ==> json::ordered(j.tree()),
{
    if bytes.len() == 0 {
        return (None, false);
    }
    match Json::parse(bytes) {
        Some(parsed) => {
            if !parsed.is_container() {
                return (None, false);
            }
            if !ctx.config.capture_ai_content && ai_content::should_suppress_body(
                endpoint,
                &parsed,
            ) {
                return (None, true);
            }
            (
                Some(sanitize::sanitize_value_with(parsed, &ctx.pii_rules, ctx.secret_str())),
                false,
            )
        },
        None => (None, false),
    }
}

// ---------------------------------------------------------------------------
// The event
// ---------------------------------------------------------------------------

/// The source address that ships.
pub open spec fn shipped_address(ctx: PolicyContext, facts: RequestFacts) -> Option<Seq<char>> {
    match source_ip::resolved(
        text::text_of(facts.client_ip),
        source_ip::bytes_of(facts.source_address),
    ) {
        Some(raw) => Some(sanitize::hashed_or_raw(ctx.secret(), hash::normalized_ip(raw))),
        None => None,
    }
}

/// The query parameters that ship.
pub open spec fn shipped_parameters(ctx: PolicyContext, query: Option<Seq<char>>) -> Option<
    JsonTree,
> {
    match query {
        Some(q) => match query::parameters(query::form_pairs(vstd::utf8::encode_utf8(q))) {
            Some(t) => Some(sanitize::sanitized(t, 0, ctx.pii_rules, ctx.secret())),
            None => None,
        },
        None => None,
    }
}

/// The names on an optional allowlist.
pub open spec fn allowed(list: Option<Vec<String>>) -> Option<Seq<String>> {
    match list {
        Some(v) => Some(v@),
        None => None,
    }
}

/// The event of a captured request, before its response.
pub open spec fn request_event(
    ctx: PolicyContext,
    admission: AdmissionModel,
    arrival: RequestArrival,
    facts: RequestFacts,
    body: Option<JsonTree>,
) -> EventModel {
    EventModel {
        remote_addr: shipped_address(ctx, facts),
        endpoint: admission.endpoint,
        scheme: text::lower(facts.scheme@) == "https"@,
        method: admission.method,
        timestamp: timestamp::epoch_text(
            (arrival.now_epoch_micros / 1_000_000) as i64,
            (arrival.now_epoch_micros % 1_000_000) as u32,
        ),
        headers: headers::collected(
            groups::pair_views(facts.headers@),
            allowed(ctx.header_allowlist),
            ctx.secret(),
        ),
        query_params: shipped_parameters(ctx, admission.query),
        body,
        user_agent: text::text_of(facts.user_agent),
        user_id: text::text_of(arrival.keys.user_id),
        status_code: None,
        latency_ms: None,
        response_headers: None,
        response_body: None,
        session_id: admission.session_id,
        sample_rate: if ctx.config.sample_rate.at_least_one() {
            None
        } else {
            Some(ctx.config.sample_rate)
        },
        sample_key: admission.sample_key,
    }
}

/// What the request leaves for its response. A body counts only where it was
/// wanted.
pub open spec fn request_slot(
    ctx: PolicyContext,
    admission: AdmissionModel,
    arrival: RequestArrival,
    facts: RequestFacts,
    body: Option<Seq<u8>>,
) -> SlotModel {
    let wanted = body_is_wanted(
        ctx,
        admission.endpoint,
        admission.method,
        text::text_of(arrival.keys.content_type),
    );
    let (captured, withheld) = match body {
        Some(b) if wanted => request_body(ctx, admission.endpoint, b),
        _ => (None, false),
    };
    let e = request_event(ctx, admission, arrival, facts, captured);
    match admission.pending {
        None => SlotModel::Capture { event: e, start: arrival.now_epoch_micros, withheld },
        Some((fallback_keep, fallback_kind)) => SlotModel::PendingHandshake {
            event: e,
            start: arrival.now_epoch_micros,
            withheld,
            fallback_keep,
            fallback_kind,
        },
    }
}

/// The source address that ships.
fn ship_address(
    ctx: &PolicyContext,
    client_ip: Option<String>,
    source_address: Option<Vec<u8>>,
) -> (r: Option<String>)
    ensures
        text::text_of(r) == (match source_ip::resolved(
            text::text_of(client_ip),
            source_ip::bytes_of(source_address),
        ) {
            Some(raw) => Some(sanitize::hashed_or_raw(ctx.secret(), hash::normalized_ip(raw))),
            None => None,
        }),
{
    match source_ip::resolve(client_ip, source_address) {
        Some(raw) => {
            let normalized = hash::normalize_ip(raw.as_str());
            Some(ctx.maybe_hash(normalized.as_str()))
        },
        None => None,
    }
}

/// The query parameters that ship.
fn ship_parameters(ctx: &PolicyContext, query_string: &Option<String>) -> (r: Option<Json>)
    ensures
        event::tree_of(r) == shipped_parameters(*ctx, text::text_of(*query_string)),
        r matches Some(j) ==> json::ordered(j.tree()),
{
    match query_string {
        Some(qs) => match query::parse_query_string(qs.as_str()) {
            Some(parameters) => Some(
                sanitize::sanitize_value_with(parameters, &ctx.pii_rules, ctx.secret_str()),
            ),
            None => None,
        },
        None => None,
    }
}

/// Every JSON value of an event lists its members in key order.
pub open spec fn event_is_ordered(e: CerberusEvent) -> bool {
    &&& e.query_params matches Some(j) ==> json::ordered(j.tree())
    &&& e.body matches Some(j) ==> json::ordered(j.tree())
    &&& e.response_body matches Some(j) ==> json::ordered(j.tree())
}

/// The event in the slot lists the members of its JSON values in key order.
pub open spec fn slot_is_ordered(slot: RequestSlot) -> bool {
    match slot {
        RequestSlot::Skip => true,
        RequestSlot::Capture { event, .. } => event_is_ordered(event),
        RequestSlot::PendingHandshake { event, .. } => event_is_ordered(event),
    }
}

/// Builds the event of a captured request and what is carried to its response.
pub fn build_request_slot(
    ctx: &PolicyContext,
    admission: Admission,
    arrival: RequestArrival,
    facts: RequestFacts,
    body: Option<Vec<u8>>,
) -> (r: RequestSlot)
    ensures
        r.view() == request_slot(
            *ctx,
            admission.view(),
            arrival,
            facts,
            source_ip::bytes_of(body),
        ),
        slot_is_ordered(r),
{
    let wanted = wants_request_body(ctx, &admission, &arrival);
    let (captured, ai_content_withheld) = match body {
        Some(bytes) => if wanted {
            capture_request_body(ctx, admission.endpoint.as_str(), bytes.as_slice())
        } else {
            (None, false)
        },
        None => (None, false),
    };
    let allowlist = match &ctx.header_allowlist {
        Some(names) => Some(names),
        None => None,
    };
    let start_epoch_micros: u64 = arrival.now_epoch_micros;
    let sample_rate = if ctx.config.sample_rate.is_at_least_one() {
        None
    } else {
        Some(ctx.config.sample_rate)
    };
    let event = CerberusEvent {
        remote_addr: ship_address(ctx, facts.client_ip, facts.source_address),
        scheme: text::lower_is(facts.scheme.as_str(), "https"),
        timestamp: timestamp::format_epoch_micros(start_epoch_micros),
        headers: headers::collect_headers(facts.headers, allowlist, ctx.secret_str()),
        query_params: ship_parameters(ctx, &admission.query_string),
        endpoint: admission.endpoint,
        method: admission.method,
        body: captured,
        user_agent: facts.user_agent,
        user_id: arrival.keys.user_id,
        status_code: None,
        latency_ms: None,
        response_headers: None,
        response_body: None,
        session_id: admission.session_id,
        sample_rate,
        sample_key: admission.sample_key,
    };
    match admission.pending {
        None => RequestSlot::Capture { event, start_epoch_micros, ai_content_withheld },
        Some((fallback_keep, fallback_kind)) => RequestSlot::PendingHandshake {
            event,
            start_epoch_micros,
            ai_content_withheld,
            fallback_keep,
            fallback_kind,
        },
    }
}

// ---------------------------------------------------------------------------
// Laws
// ---------------------------------------------------------------------------

/// Health checks are never captured, and neither they nor the paths that the
/// filters keep out move the coin.
pub proof fn law_health_checks_are_skipped(
    ctx: PolicyContext,
    arrival: RequestArrival,
    coin: u64,
)
    ensures
        is_health_endpoint(endpoint_of(arrival.path@)) ==> admission(ctx, arrival, coin) is None,
        !ctx.path_filter.captures(endpoint_of(arrival.path@)) ==> admission(ctx, arrival, coin) is None,
        !path_passes(ctx, arrival) ==> coin_after_admission(ctx, arrival, coin) == coin,
{
}

/// At rate 1 every request that passes the filters on its path is captured, and
/// its event carries no sampling field; at rate 0 none is captured.
pub proof fn law_sampling_bounds_admission(
    ctx: PolicyContext,
    arrival: RequestArrival,
    facts: RequestFacts,
    coin: u64,
    body: Option<Seq<u8>>,
)
    ensures
        ctx.config.sample_rate.at_least_one() && path_passes(ctx, arrival) ==> {
            &&& admission(ctx, arrival, coin) matches Some(a)
            &&& request_slot(ctx, a, arrival, facts, body) matches SlotModel::Capture { event, .. }
            &&& event.sample_rate is None && event.sample_key is None && event.session_id is None
        },
        !ctx.config.sample_rate.positive() ==> admission(ctx, arrival, coin) is None,
{
    sampling::law_rate_bounds(
        ctx,
        arrival.keys,
        endpoint_of(arrival.path@),
        text::unicode_upper(arrival.method@),
        query_of(arrival.path@),
        arrival.now_epoch_micros,
        coin,
    );
}

/// No capture setting changes a sampling decision: what is admitted, and by
/// which key, depends on the filters on the path and on the sampling settings
/// alone.
pub proof fn law_capture_settings_do_not_decide(
    a: PolicyContext,
    b: PolicyContext,
    arrival: RequestArrival,
    coin: u64,
)
    requires
        a.path_filter == b.path_filter,
        a.config.sample_rate == b.config.sample_rate,
        a.sample_mode == b.sample_mode,
        a.session_key_headers == b.session_key_headers,
        a.keyed == b.keyed,
    ensures
        admission(a, arrival, coin) == admission(b, arrival, coin),
        coin_after_admission(a, arrival, coin) == coin_after_admission(b, arrival, coin),
{
}

/// The event that a slot holds, and whether a body was withheld from it.
pub open spec fn slot_event(slot: SlotModel) -> Option<(EventModel, bool)> {
    match slot {
        SlotModel::Skip => None,
        SlotModel::Capture { event, withheld, .. } => Some((event, withheld)),
        SlotModel::PendingHandshake { event, withheld, .. } => Some((event, withheld)),
    }
}

/// A body ships only where it was wanted, and never where it was withheld as AI
/// content, which happens only with the capture of AI content off. The rest of
/// the event ships all the same.
pub proof fn law_withheld_bodies_do_not_ship(
    ctx: PolicyContext,
    admission: AdmissionModel,
    arrival: RequestArrival,
    facts: RequestFacts,
    body: Option<Seq<u8>>,
)
    ensures
        slot_event(request_slot(ctx, admission, arrival, facts, body)) matches Some((event, withheld)) && {
            &&& withheld ==> event.body is None && !ctx.config.capture_ai_content
            &&& event.body is Some ==> body_is_wanted(
                ctx,
                admission.endpoint,
                admission.method,
                text::text_of(arrival.keys.content_type),
            )
            &&& event == request_event(ctx, admission, arrival, facts, event.body)
        },
{
}

/// A JSON-RPC body that is wanted ships, sanitized, whatever is done with AI
/// content.
pub proof fn law_jsonrpc_bodies_ship(
    ctx: PolicyContext,
    admission: AdmissionModel,
    arrival: RequestArrival,
    facts: RequestFacts,
    bytes: Seq<u8>,
    t: JsonTree,
)
    requires
        body_is_wanted(
            ctx,
            admission.endpoint,
            admission.method,
            text::text_of(arrival.keys.content_type),
        ),
        bytes.len() > 0,
        json::parsed(bytes) == Some(t),
        ai_content::jsonrpc_shaped(t),
    ensures
        slot_event(request_slot(ctx, admission, arrival, facts, Some(bytes))) matches Some((event, withheld))
            && !withheld && event.body == Some(
            sanitize::sanitized(t, 0, ctx.pii_rules, ctx.secret()),
        ),
{
    ai_content::law_jsonrpc_body_is_never_ai(admission.endpoint, t);
}

/// An event ships without a source address where neither the configured header
/// nor the connection yields a text that is not blank.
pub proof fn law_no_address_without_a_source(
    ctx: PolicyContext,
    admission: AdmissionModel,
    arrival: RequestArrival,
    facts: RequestFacts,
    body: Option<JsonTree>,
)
    requires
        facts.client_ip matches Some(v) ==> source_ip::first_hop(v@).len() == 0,
        facts.source_address matches Some(b) ==> !vstd::utf8::valid_utf8(b@) || text::trim(
            vstd::utf8::decode_utf8(b@),
        ).len() == 0,
    ensures
        request_event(ctx, admission, arrival, facts, body).remote_addr is None,
{
}

/// Query parameters ship as an object: sanitizing keeps what they are.
pub proof fn law_parameters_stay_an_object(ctx: PolicyContext, query: Seq<char>)
    ensures
        shipped_parameters(ctx, Some(query)) matches Some(t) ==> t is Object,
{
}

/// The first question mark parts a path: before it stands the endpoint, and all
/// that stands behind it is the query string.
pub proof fn law_a_path_parts_at_the_question_mark(front: Seq<char>, rest: Seq<char>)
    requires
        !front.contains('?'),
    ensures
        endpoint_of(front + seq!['?'] + rest) == front,
        query_of(front + seq!['?'] + rest) == Some(rest),
        endpoint_of(front) == front,
        query_of(front) is None,
{
    let p = front + seq!['?'] + rest;
    front.index_of_first_ensures('?');
    p.index_of_first_ensures('?');
    assert(p[front.len() as int] == '?');
    assert(p.contains('?'));
    let i = p.index_of_first('?')->0;
    if i < front.len() {
        assert(front[i] == '?');
    }
    assert(p.take(i) =~= front);
    assert(p.skip(i + 1) =~= rest);
}

/// The paths of health checks are these three, and no other.
pub proof fn law_which_paths_are_health_checks(endpoint: Seq<char>)
    ensures
        is_health_endpoint(endpoint) <==> endpoint == "/health"@ || endpoint == "/health_check"@
            || endpoint == "/ready"@,
{
    assert(HEALTH_ENDPOINTS@[0]@ == "/health"@);
    assert(HEALTH_ENDPOINTS@[1]@ == "/health_check"@);
    assert(HEALTH_ENDPOINTS@[2]@ == "/ready"@);
}

/// A request is admitted exactly where its path passes, health checks and filters
/// both, and sampling does not drop it. Sampling sees the endpoint, the uppercased
/// method, the query string and the arrival; what it decided by is recorded.
pub proof fn law_what_is_admitted(ctx: PolicyContext, arrival: RequestArrival, coin: u64)
    ensures
        ({
            let endpoint = endpoint_of(arrival.path@);
            let method = text::unicode_upper(arrival.method@);
            let query = query_of(arrival.path@);
            let verdict = sampling::decide(
                ctx,
                arrival.keys,
                endpoint,
                method,
                query,
                arrival.now_epoch_micros,
                coin,
            );
            let passes = !is_health_endpoint(endpoint) && ctx.path_filter.captures(endpoint);
            &&& admission(ctx, arrival, coin) is Some <==> passes && !(verdict is Drop)
            &&& admission(ctx, arrival, coin) matches Some(a) ==> {
                &&& a.endpoint == endpoint && a.method == method && a.query == query
                &&& verdict is CaptureAll ==> a.sample_key is None && a.session_id is None
                    && a.pending is None
                &&& verdict matches Verdict::Keep { kind, session_id } ==> a.sample_key == Some(kind)
                    && a.session_id == session_id && a.pending is None
                &&& verdict matches Verdict::PendingHandshake { fallback_keep, fallback_kind }
                    ==> a.sample_key is None && a.session_id is None && a.pending == Some(
                    (fallback_keep, fallback_kind),
                )
            }
            &&& passes ==> coin_after_admission(ctx, arrival, coin) == sampling::coin_after(
                ctx,
                arrival.keys,
                endpoint,
                query,
                coin,
            )
        }),
{
}

/// A body is read exactly where bodies are captured, the method is one of the three
/// that write, the content is JSON, and the path alone does not withhold it.
pub proof fn law_which_bodies_are_read(
    ctx: PolicyContext,
    endpoint: Seq<char>,
    method: Seq<char>,
    content_type: Option<Seq<char>>,
)
    ensures
        body_is_wanted(ctx, endpoint, method, content_type) <==> ctx.config.capture_request_body && (
        method == "POST"@ || method == "PUT"@ || method == "PATCH"@) && (content_type matches Some(
            ct,
        ) && text::contains(text::lower(ct), "application/json"@)) && (ctx.config.capture_ai_content
            || !ai_content::llm_path(endpoint)),
{
    if let Some(ct) = content_type {
        if text::contains(text::lower(ct), "application/json"@) {
            let s = text::lower(ct);
            let n = "application/json"@;
            let i = choose|i: int| text::occurs_at(s, n, i);
            assert(s =~= s.take(i) + n + s.skip(i + n.len()));
            headers::law_types_are_read_in_any_case(s.take(i), s.skip(i + n.len()), ct);
        }
        headers::law_types_are_read_in_any_case(Seq::empty(), Seq::empty(), ct);
    }
}

/// What ships of a body: nothing where it is no JSON object or array, nothing where
/// it is withheld as AI content, and else all of it, sanitized from its root.
pub proof fn law_what_ships_of_a_body(ctx: PolicyContext, endpoint: Seq<char>, bytes: Seq<u8>)
    ensures
        request_body(ctx, endpoint, Seq::empty()) == (None::<JsonTree>, false),
        json::parsed(bytes) is None ==> request_body(ctx, endpoint, bytes) == (
            None::<JsonTree>,
            false,
        ),
        json::parsed(bytes) matches Some(t) && bytes.len() > 0 ==> {
            let t = json::parsed(bytes)->0;
            let withheld = !ctx.config.capture_ai_content && ai_content::suppressed_body(endpoint, t);
            &&& !(t is Object) && !(t is Array) ==> request_body(ctx, endpoint, bytes) == (
                None::<JsonTree>,
                false,
            )
            &&& (t is Object || t is Array) && withheld ==> request_body(ctx, endpoint, bytes) == (
                None::<JsonTree>,
                true,
            )
            &&& (t is Object || t is Array) && !withheld ==> request_body(ctx, endpoint, bytes) == (
                Some(sanitize::sanitized(t, 0, ctx.pii_rules, ctx.secret())),
                false,
            )
        },
{
}

/// What the event of a request holds.
pub proof fn law_what_the_event_of_a_request_holds(
    ctx: PolicyContext,
    admission: AdmissionModel,
    arrival: RequestArrival,
    facts: RequestFacts,
    body: Option<JsonTree>,
)
    ensures
        ({
            let e = request_event(ctx, admission, arrival, facts, body);
            let now = arrival.now_epoch_micros;
            &&& e.endpoint == admission.endpoint
            &&& e.method == admission.method
            &&& e.scheme <==> text::lower(facts.scheme@) == "https"@
            &&& forall|secs: i64, micros: u32|
                secs * 1_000_000 + micros == now && micros < 1_000_000 ==> e.timestamp
                    == #[trigger] timestamp::epoch_text(secs, micros)
            &&& e.body == body
            &&& e.user_agent == text::text_of(facts.user_agent)
            &&& e.user_id == text::text_of(arrival.keys.user_id)
            &&& e.session_id == admission.session_id
            &&& e.sample_key == admission.sample_key
            &&& ctx.config.sample_rate.at_least_one() ==> e.sample_rate is None
            &&& !ctx.config.sample_rate.at_least_one() ==> e.sample_rate == Some(
                ctx.config.sample_rate,
            )
            &&& e.status_code is None && e.latency_ms is None && e.response_headers is None
                && e.response_body is None
        }),
{
}

/// The client address ships as the pseudonym of its canonical form where there is a
/// secret, and in that form where there is none.
pub proof fn law_addresses_ship_as_pseudonyms(
    ctx: PolicyContext,
    admission: AdmissionModel,
    arrival: RequestArrival,
    facts: RequestFacts,
    body: Option<JsonTree>,
    address: Seq<char>,
)
    requires
        source_ip::resolved(
            text::text_of(facts.client_ip),
            source_ip::bytes_of(facts.source_address),
        ) == Some(address),
    ensures
        request_event(ctx, admission, arrival, facts, body).remote_addr == Some(
            match ctx.secret() {
                Some(k) => hash::pii_hash(hash::normalized_ip(address), k),
                None => hash::normalized_ip(address),
            },
        ),
{
}

/// Every request header that the allowlist lets through ships, and all of them
/// where there is no allowlist.
pub proof fn law_request_headers_ship(
    ctx: PolicyContext,
    admission: AdmissionModel,
    arrival: RequestArrival,
    facts: RequestFacts,
    body: Option<JsonTree>,
)
    ensures
        request_event(ctx, admission, arrival, facts, body).headers == headers::collected(
            groups::pair_views(facts.headers@),
            match ctx.header_allowlist {
                Some(names) => Some(names@),
                None => None,
            },
            ctx.secret(),
        ),
{
}

/// Query parameters ship sanitized, from their root, as the form encoding gives
/// them; a request without any ships none.
pub proof fn law_parameters_ship_sanitized(ctx: PolicyContext, query: Seq<char>)
    ensures
        shipped_parameters(ctx, None) is None,
        ({
            let pairs = query::form_pairs(vstd::utf8::encode_utf8(query));
            &&& pairs.len() == 0 <==> shipped_parameters(ctx, Some(query)) is None
            &&& pairs.len() > 0 ==> shipped_parameters(ctx, Some(query)) == Some(
                sanitize::sanitized(query::parameters(pairs)->0, 0, ctx.pii_rules, ctx.secret()),
            )
        }),
{
    query::law_parameters_are_those_given(
        query::form_pairs(vstd::utf8::encode_utf8(query)),
        Seq::empty(),
    );
}

/// What a request leaves for its response: its event, the time of its arrival, and
/// the verdict where it waits for the response. A body that was not wanted changes
/// nothing.
pub proof fn law_what_a_request_leaves(
    ctx: PolicyContext,
    admission: AdmissionModel,
    arrival: RequestArrival,
    facts: RequestFacts,
    body: Option<Seq<u8>>,
)
    ensures
        ({
            let slot = request_slot(ctx, admission, arrival, facts, body);
            let wanted = body_is_wanted(
                ctx,
                admission.endpoint,
                admission.method,
                text::text_of(arrival.keys.content_type),
            );
            &&& admission.pending is None ==> (slot matches SlotModel::Capture { start, .. } && start
                == arrival.now_epoch_micros)
            &&& admission.pending matches Some((keep, kind)) ==> (
            slot matches SlotModel::PendingHandshake { start, fallback_keep, fallback_kind, .. }
                && start == arrival.now_epoch_micros && fallback_keep == keep && fallback_kind
                == kind)
            &&& !wanted ==> slot == request_slot(ctx, admission, arrival, facts, None)
            &&& body is None ==> slot_event(slot) == Some(
                (request_event(ctx, admission, arrival, facts, None), false),
            )
            &&& wanted && body is Some ==> slot_event(slot) == Some(
                (
                    request_event(
                        ctx,
                        admission,
                        arrival,
                        facts,
                        request_body(ctx, admission.endpoint, body->0).0,
                    ),
                    request_body(ctx, admission.endpoint, body->0).1,
                ),
            )
        }),
{
}

} // verus!
