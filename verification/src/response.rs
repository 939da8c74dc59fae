//! The response side: the verdict on handshakes, the response body, and the
//! finished event.

use vstd::prelude::*;
use vstd::string::*;

use crate::ai_content;
use crate::event;
use crate::event::{CerberusEvent, EventModel, SampleKey};
use crate::groups;
use crate::headers;
use crate::json;
use crate::json::{Json, JsonTree};
use crate::policy::{PolicyContext, SampleMode};
use crate::queue::EventQueue;
use crate::request;
use crate::request::{RequestSlot, SlotModel};
use crate::response_capture;
use crate::response_capture::{HeadTailAccumulator, ResponseContentKind};
use crate::sampler::DOMAIN_SESSION;
use crate::sampling;
use crate::sampling::SamplingKeys;
use crate::sanitize;
use crate::text;
use crate::timestamp;

verus! {

/// What the policy reads from a response before its body.
#[derive(Debug)]
pub struct ResponseFacts {
    /// Status code; 0 where the response has none.
    pub status: u32,
    /// All headers, as the proxy presents them.
    pub headers: Vec<(String, String)>,
    /// The MCP session header.
    pub mcp_session_id: Option<String>,
    pub content_type: Option<String>,
    pub content_encoding: Option<String>,
    /// Whether a body follows.
    pub contains_body: bool,
}

/// An event that is kept and waits for its response.
#[derive(Debug)]
pub struct HeldEvent {
    pub event: CerberusEvent,
    pub start_epoch_micros: u64,
    pub ai_content_withheld: bool,
}

/// The model of [`HeldEvent`].
pub struct HeldModel {
    pub event: EventModel,
    pub start: u64,
    pub withheld: bool,
}

impl HeldEvent {
    pub open spec fn view(&self) -> HeldModel {
        HeldModel {
            event: self.event.view(),
            start: self.start_epoch_micros,
            withheld: self.ai_content_withheld,
        }
    }
}

// ---------------------------------------------------------------------------
// The verdict on handshakes
// ---------------------------------------------------------------------------

/// What is kept of a request once the response's session header is known.
pub open spec fn resolved_slot(
    ctx: PolicyContext,
    slot: SlotModel,
    minted: Option<Seq<char>>,
) -> Option<HeldModel> {
    match slot {
        SlotModel::Skip => None,
        SlotModel::Capture { event, start, withheld } => Some(HeldModel { event, start, withheld }),
        SlotModel::PendingHandshake { event, start, withheld, fallback_keep, fallback_kind } =>
            match sampling::nonblank(minted) {
                Some(id) => if sampling::keyed_verdict(
                    ctx.config.sample_rate,
                    ctx.keyed.key(),
                    DOMAIN_SESSION@,
                    id,
                    None,
                ) {
                    Some(
                        HeldModel {
                            event: EventModel {
                                sample_key: Some(SampleKey::SessionResponse),
                                session_id: Some(id),
                                ..event
                            },
                            start,
                            withheld,
                        },
                    )
                } else {
                    None
                },
                None => if fallback_keep {
                    Some(
                        HeldModel {
                            event: EventModel { sample_key: Some(fallback_kind), ..event },
                            start,
                            withheld,
                        },
                    )
                } else {
                    None
                },
            },
    }
}

/// Decides what is kept of a request. The id that a server mints for a session
/// is judged as on the requests that will echo it; without one the verdict of
/// the request stands.
pub fn resolve_slot(ctx: &PolicyContext, slot: RequestSlot, minted: Option<String>) -> (r: Option<
    HeldEvent,
>)
    requires
        ctx.wf(),
        request::slot_is_ordered(slot),
    ensures
        match r {
            Some(h) => resolved_slot(*ctx, slot.view(), text::text_of(minted)) == Some(h.view())
                && request::event_is_ordered(h.event),
            None => resolved_slot(*ctx, slot.view(), text::text_of(minted)) is None,
        },
{
    match slot {
        RequestSlot::Skip => None,
        RequestSlot::Capture { event, start_epoch_micros, ai_content_withheld } => Some(
            HeldEvent { event, start_epoch_micros, ai_content_withheld },
        ),
        RequestSlot::PendingHandshake {
            event,
            start_epoch_micros,
            ai_content_withheld,
            fallback_keep,
            fallback_kind,
        } => {
            let mut event = event;
            match sampling::nonempty(minted) {
                Some(id) => {
                    if !ctx.keyed.keep(DOMAIN_SESSION, id.as_str(), None) {
                        return None;
                    }
                    event.sample_key = Some(SampleKey::SessionResponse);
                    event.session_id = Some(id);
                },
                None => {
                    if !fallback_keep {
                        return None;
                    }
                    event.sample_key = Some(fallback_kind);
                },
            }
            Some(HeldEvent { event, start_epoch_micros, ai_content_withheld })
        },
    }
}

// ---------------------------------------------------------------------------
// The body
// ---------------------------------------------------------------------------

/// What to do about a response body.
#[derive(Debug)]
pub enum BodyPlan {
    /// Nothing is captured, and the body is not read.
    Nothing,
    /// The value ships in place of the body, which is not read.
    Marker(Json),
    /// The body is observed as it passes.
    Observe(ResponseContentKind),
}

/// The model of [`BodyPlan`].
pub enum PlanModel {
    Nothing,
    Marker(JsonTree),
    Observe(ResponseContentKind),
}

impl BodyPlan {
    pub open spec fn view(&self) -> PlanModel {
        match self {
            BodyPlan::Nothing => PlanModel::Nothing,
            BodyPlan::Marker(j) => PlanModel::Marker(j.tree()),
            BodyPlan::Observe(kind) => PlanModel::Observe(*kind),
        }
    }
}

/// The content encoding, where it is one that cannot be sliced.
pub open spec fn opaque_encoding(encoding: Option<Seq<char>>) -> Option<Seq<char>> {
    match encoding {
        Some(e) => {
            let name = text::lower(text::trim(e));
            if name.len() > 0 && name != "identity"@ {
                Some(name)
            } else {
                None
            }
        },
        None => None,
    }
}

/// What to do about a response body. A body that is absent has no marker, even
/// where the headers name an encoding.
pub open spec fn body_plan(
    ctx: PolicyContext,
    facts: ResponseFacts,
    endpoint: Seq<char>,
    withheld: bool,
) -> PlanModel {
    if !ctx.config.capture_response_body {
        PlanModel::Nothing
    } else {
        match response_capture::content_kind(text::text_of(facts.content_type)) {
            None => PlanModel::Nothing,
            Some(kind) => if !ctx.config.capture_ai_content && (withheld || ai_content::llm_path(
                endpoint,
            )) {
                PlanModel::Nothing
            } else if !facts.contains_body {
                PlanModel::Nothing
            } else {
                match opaque_encoding(text::text_of(facts.content_encoding)) {
                    Some(name) => PlanModel::Marker(response_capture::encoding_marker(name)),
                    None => PlanModel::Observe(kind),
                }
            },
        }
    }
}

/// Decides what to do about a response body.
pub fn plan_response_body(
    ctx: &PolicyContext,
    facts: &ResponseFacts,
    endpoint: &str,
    ai_content_withheld: bool,
) -> (r: BodyPlan)
    ensures
        r.view() == body_plan(*ctx, *facts, endpoint@, ai_content_withheld),
        r matches BodyPlan::Marker(j) ==> json::ordered(j.tree()),
{
    if !ctx.config.capture_response_body {
        return BodyPlan::Nothing;
    }
    let content_type = text::as_text(&facts.content_type);
    let kind = match response_capture::classify_content_type(content_type) {
        Some(kind) => kind,
        None => {
            return BodyPlan::Nothing;
        },
    };
    if !ctx.config.capture_ai_content && (ai_content_withheld || ai_content::is_llm_path(
        endpoint,
    )) {
        return BodyPlan::Nothing;
    }
    if !facts.contains_body {
        return BodyPlan::Nothing;
    }
    match &facts.content_encoding {
        Some(e) => {
            let trimmed = text::trimmed(e.as_str());
            let name = text::lowered(trimmed.as_str());
            if !name.as_str().is_empty() && !text::same(name.as_str(), "identity") {
                return BodyPlan::Marker(
                    response_capture::skipped_encoding_marker(name.as_str()),
                );
            }
        },
        None => {},
    }
    BodyPlan::Observe(kind)
}

/// An accumulator with the configured budgets.
pub fn new_accumulator(ctx: &PolicyContext) -> (r: HeadTailAccumulator)
    ensures
        r.wf(),
        r.view() == Seq::<u8>::empty(),
        r.head_cap() == ctx.config.response_head_bytes,
        r.tail_cap() == ctx.config.response_tail_bytes,
{
    HeadTailAccumulator::new(
        ctx.config.response_head_bytes as usize,
        ctx.config.response_tail_bytes as usize,
    )
}

/// What an event carries for a body that was observed under the configured
/// budgets.
pub open spec fn observed_body(
    ctx: PolicyContext,
    stream: Seq<u8>,
    kind: ResponseContentKind,
    endpoint: Seq<char>,
) -> Option<JsonTree> {
    response_capture::captured_body(
        response_capture::body_outcome(
            stream,
            ctx.config.response_head_bytes as nat,
            ctx.config.response_tail_bytes as nat,
        ),
        kind,
        endpoint,
        ctx.config.capture_ai_content,
        ctx.pii_rules,
        ctx.secret(),
    )
}

/// The value that an event carries for an observed body.
pub fn capture_response_body(
    ctx: &PolicyContext,
    accumulator: HeadTailAccumulator,
    kind: ResponseContentKind,
    endpoint: &str,
) -> (r: Option<Json>)
    requires
        accumulator.wf(),
    ensures
        event::tree_of(r) == response_capture::captured_body(
            response_capture::body_outcome(
                accumulator.view(),
                accumulator.head_cap(),
                accumulator.tail_cap(),
            ),
            kind,
            endpoint@,
            ctx.config.capture_ai_content,
            ctx.pii_rules,
            ctx.secret(),
        ),
        accumulator.head_cap() == ctx.config.response_head_bytes && accumulator.tail_cap()
            == ctx.config.response_tail_bytes ==> event::tree_of(r) == observed_body(
            *ctx,
            accumulator.view(),
            kind,
            endpoint@,
        ),
        r matches Some(j) ==> json::ordered(j.tree()),
{
    proof {
        response_capture::law_truncation_is_exact(
            accumulator.view(),
            accumulator.head_cap(),
            accumulator.tail_cap(),
        );
    }
    response_capture::finalize_response_body(
        accumulator.finalize(),
        kind,
        endpoint,
        ctx.config.capture_ai_content,
        &ctx.pii_rules,
        ctx.secret_str(),
    )
}

// ---------------------------------------------------------------------------
// The finished event
// ---------------------------------------------------------------------------

/// The response headers that ship: none without an allowlist.
pub open spec fn shipped_response_headers(ctx: PolicyContext, facts: ResponseFacts) -> Option<
    Seq<(Seq<char>, Seq<char>)>,
> {
    if ctx.response_header_allowlist@.len() == 0 {
        None
    } else {
        headers::collected(
            groups::pair_views(facts.headers@),
            Some(ctx.response_header_allowlist@),
            ctx.secret(),
        )
    }
}

/// The finished event.
pub open spec fn completed_event(
    ctx: PolicyContext,
    held: HeldModel,
    facts: ResponseFacts,
    body: Option<JsonTree>,
    now_micros: u64,
) -> EventModel {
    EventModel {
        status_code: if facts.status == 0 {
            None
        } else {
            Some(facts.status)
        },
        latency_ms: Some(
            if now_micros < held.start {
                0
            } else {
                ((now_micros - held.start) / 1000) as u64
            },
        ),
        response_headers: shipped_response_headers(ctx, facts),
        response_body: body,
        ..held.event
    }
}

/// Collects the response headers that ship.
pub fn extract_response_headers(ctx: &PolicyContext, pairs: Vec<(String, String)>) -> (r: Option<
    Vec<(String, String)>,
>)
    ensures
        headers::optional_pairs(r) == (if ctx.response_header_allowlist@.len() == 0 {
            None
        } else {
            headers::collected(
                groups::pair_views(pairs@),
                Some(ctx.response_header_allowlist@),
                ctx.secret(),
            )
        }),
{
    if ctx.response_header_allowlist.len() == 0 {
        return None;
    }
    headers::collect_headers(pairs, Some(&ctx.response_header_allowlist), ctx.secret_str())
}

/// Completes an event with its response. The latency covers the whole response,
/// its body included.
pub fn complete_event(
    ctx: &PolicyContext,
    held: HeldEvent,
    facts: ResponseFacts,
    response_body: Option<Json>,
    now_epoch_micros: u64,
) -> (r: CerberusEvent)
    ensures
        r.view() == completed_event(
            *ctx,
            held.view(),
            facts,
            event::tree_of(response_body),
            now_epoch_micros,
        ),
        request::event_is_ordered(held.event) && (response_body matches Some(j) ==> json::ordered(
            j.tree(),
        )) ==> request::event_is_ordered(r),
{
    let mut event = held.event;
    event.status_code = if facts.status == 0 {
        None
    } else {
        Some(facts.status)
    };
    event.latency_ms = Some(timestamp::elapsed_ms(held.start_epoch_micros, now_epoch_micros));
    event.response_headers = extract_response_headers(ctx, facts.headers);
    event.response_body = response_body;
    event
}

// ---------------------------------------------------------------------------
// Flushing
// ---------------------------------------------------------------------------

/// What one flush takes out of the queue.
#[derive(Debug)]
pub struct Batch {
    pub events: Vec<CerberusEvent>,
    /// How many events were dropped since the last flush.
    pub dropped: u64,
}

/// Takes the next batch out of the queue, with the count of dropped events.
/// There is none where there is nothing to send and nothing to report.
pub fn take_batch(queue: &mut EventQueue, batch_size: u32) -> (r: Option<Batch>)
    requires
        old(queue).wf(),
    ensures
        final(queue).wf(),
        final(queue).capacity() == old(queue).capacity(),
        final(queue).dropped() == 0,
        r is None ==> old(queue).dropped() == 0 && final(queue).view() == old(queue).view() && (
        old(queue).view().len() == 0 || batch_size == 0),
        r matches Some(b) ==> {
            &&& b.dropped == old(queue).dropped()
            &&& b.events@ + final(queue).view() == old(queue).view()
            &&& b.events@.len() == if old(queue).view().len() < batch_size {
                old(queue).view().len()
            } else {
                batch_size as nat
            }
            &&& b.events@.len() > 0 || b.dropped > 0
        },
{
    let events = queue.drain(batch_size as usize);
    let dropped = queue.take_dropped();
    if events.len() == 0 && dropped == 0 {
        proof {
            assert(events@ + queue.view() =~= queue.view());
        }
        return None;
    }
    Some(Batch { events, dropped })
}

// ---------------------------------------------------------------------------
// Laws
// ---------------------------------------------------------------------------

/// A captured event is never lost: whatever the response is, the event of a
/// request that was captured outright is kept as it is.
pub proof fn law_captured_events_are_kept(
    ctx: PolicyContext,
    event: EventModel,
    start: u64,
    withheld: bool,
    minted: Option<Seq<char>>,
)
    ensures
        resolved_slot(ctx, SlotModel::Capture { event, start, withheld }, minted) == Some(
            HeldModel { event, start, withheld },
        ),
{
}

/// A handshake and its session are judged alike: the id that the response
/// mints is kept exactly where a request that carries it is.
pub proof fn law_handshake_agrees_with_its_session(
    ctx: PolicyContext,
    event: EventModel,
    start: u64,
    withheld: bool,
    fallback_keep: bool,
    fallback_kind: SampleKey,
    minted: Seq<char>,
    keys: SamplingKeys,
    endpoint: Seq<char>,
    method: Seq<char>,
    query: Option<Seq<char>>,
    now_micros: u64,
    coin: u64,
)
    requires
        ctx.sample_mode == SampleMode::Session,
        ctx.config.sample_rate.positive(),
        !ctx.config.sample_rate.at_least_one(),
        sampling::nonblank(Some(minted)) is Some,
        sampling::request_session(keys, query) == sampling::nonblank(Some(minted)),
    ensures
        (resolved_slot(
            ctx,
            SlotModel::PendingHandshake { event, start, withheld, fallback_keep, fallback_kind },
            Some(minted),
        ) is Some) == (sampling::decide(
            ctx,
            keys,
            endpoint,
            method,
            query,
            now_micros,
            coin,
        ) is Keep),
{
}

/// A handshake whose response mints no session id keeps the verdict of its
/// request.
pub proof fn law_handshake_falls_back(
    ctx: PolicyContext,
    event: EventModel,
    start: u64,
    withheld: bool,
    fallback_keep: bool,
    fallback_kind: SampleKey,
)
    ensures
        (resolved_slot(
            ctx,
            SlotModel::PendingHandshake { event, start, withheld, fallback_keep, fallback_kind },
            None,
        ) is Some) == fallback_keep,
{
}

/// With response capture off no body is read, and none is read of AI traffic
/// where AI content is withheld.
pub proof fn law_body_is_left_alone(
    ctx: PolicyContext,
    facts: ResponseFacts,
    endpoint: Seq<char>,
    withheld: bool,
)
    requires
        !ctx.config.capture_response_body || (!ctx.config.capture_ai_content && (withheld
            || ai_content::llm_path(endpoint))) || !facts.contains_body,
    ensures
        body_plan(ctx, facts, endpoint, withheld) == PlanModel::Nothing,
{
}

/// The latency of a finished event is the whole number of milliseconds from the
/// arrival of the request to the end of the response, and 0 where the clock has
/// gone back.
pub proof fn law_latency_is_the_time_taken(
    ctx: PolicyContext,
    held: HeldModel,
    facts: ResponseFacts,
    body: Option<JsonTree>,
    now_micros: u64,
)
    ensures
        completed_event(ctx, held, facts, body, now_micros).latency_ms matches Some(ms) && {
            &&& held.start <= now_micros ==> held.start + 1000 * ms <= now_micros < held.start + 1000
                * (ms + 1)
            &&& now_micros < held.start ==> ms == 0
        },
{
}

/// What a response adds to an event: its status where it has one, the headers
/// that ship, and the body; the rest of the event stays as it was.
pub proof fn law_what_a_response_adds(
    ctx: PolicyContext,
    held: HeldModel,
    facts: ResponseFacts,
    body: Option<JsonTree>,
    now_micros: u64,
)
    ensures
        ({
            let e = completed_event(ctx, held, facts, body, now_micros);
            &&& facts.status == 0 <==> e.status_code is None
            &&& facts.status != 0 ==> e.status_code == Some(facts.status)
            &&& e.response_body == body
            &&& ctx.response_header_allowlist@.len() == 0 ==> e.response_headers is None
            &&& ctx.response_header_allowlist@.len() > 0 ==> e.response_headers
                == headers::collected(
                groups::pair_views(facts.headers@),
                Some(ctx.response_header_allowlist@),
                ctx.secret(),
            )
            &&& (EventModel {
                status_code: held.event.status_code,
                latency_ms: held.event.latency_ms,
                response_headers: held.event.response_headers,
                response_body: held.event.response_body,
                ..e
            }) == held.event
        }),
{
}

/// The session id that a response mints decides over a waiting handshake, by the
/// key that the requests of the session will be judged by, and is recorded in the
/// event. The rest of the event, its arrival, and whether a body was withheld stay
/// as they were.
pub proof fn law_a_minted_session_decides(
    ctx: PolicyContext,
    event: EventModel,
    start: u64,
    withheld: bool,
    fallback_keep: bool,
    fallback_kind: SampleKey,
    minted: Seq<char>,
)
    requires
        text::trim(minted).len() > 0,
    ensures
        ({
            let slot = SlotModel::PendingHandshake {
                event,
                start,
                withheld,
                fallback_keep,
                fallback_kind,
            };
            let r = resolved_slot(ctx, slot, Some(minted));
            &&& r is Some <==> sampling::kept(ctx, "session"@, text::trim(minted), None)
            &&& r matches Some(h) ==> {
                &&& h.start == start
                &&& h.withheld == withheld
                &&& h.event.session_id == Some(text::trim(minted))
                &&& h.event.sample_key == Some(SampleKey::SessionResponse)
                &&& (EventModel {
                    session_id: event.session_id,
                    sample_key: event.sample_key,
                    ..h.event
                }) == event
            }
        }),
{
}

/// Without a session id in the response, an absent and a blank one alike, the
/// verdict of the request stands, and the event records what it was made by.
pub proof fn law_a_handshake_without_a_session(
    ctx: PolicyContext,
    event: EventModel,
    start: u64,
    withheld: bool,
    fallback_keep: bool,
    fallback_kind: SampleKey,
    minted: Option<Seq<char>>,
)
    requires
        minted matches Some(s) ==> text::trim(s).len() == 0,
    ensures
        ({
            let slot = SlotModel::PendingHandshake {
                event,
                start,
                withheld,
                fallback_keep,
                fallback_kind,
            };
            let r = resolved_slot(ctx, slot, minted);
            &&& r is Some <==> fallback_keep
            &&& r matches Some(h) ==> {
                &&& h.start == start
                &&& h.withheld == withheld
                &&& h.event.sample_key == Some(fallback_kind)
                &&& (EventModel { sample_key: event.sample_key, ..h.event }) == event
            }
        }),
        resolved_slot(ctx, SlotModel::Skip, minted) is None,
{
}

/// A response body is observed exactly where bodies are captured, there is one, it
/// is of a kind that can be read, nothing withholds it as AI content, and it is not
/// encoded. Where only the encoding stands in the way, a marker that names it ships
/// in its place.
pub proof fn law_which_response_bodies_are_observed(
    ctx: PolicyContext,
    facts: ResponseFacts,
    endpoint: Seq<char>,
    withheld: bool,
    kind: ResponseContentKind,
)
    ensures
        ({
            let plan = body_plan(ctx, facts, endpoint, withheld);
            let encoding = match facts.content_encoding {
                Some(e) => text::lower(text::trim(e@)),
                None => Seq::empty(),
            };
            let open = ctx.config.capture_response_body && facts.contains_body && (
            ctx.config.capture_ai_content || (!withheld && !ai_content::llm_path(endpoint)));
            let read = response_capture::content_kind(text::text_of(facts.content_type));
            &&& plan == PlanModel::Observe(kind) <==> open && read == Some(kind) && (encoding
                == "identity"@ || encoding.len() == 0)
            &&& open && read is Some && encoding != "identity"@ && encoding.len() > 0 ==> plan
                == PlanModel::Marker(response_capture::encoding_marker(encoding))
            &&& plan is Marker ==> open && read is Some && encoding != "identity"@ && encoding.len()
                > 0
        }),
{
}

/// With the capture of AI content off, no body of an LLM path ships unless it is a
/// JSON-RPC envelope that arrived whole; with it on, every body that arrived whole
/// and reads as an object or array ships, with the configured rules and secret
/// applied from its root.
pub proof fn law_what_ships_of_an_observed_body(
    ctx: PolicyContext,
    stream: Seq<u8>,
    kind: ResponseContentKind,
    endpoint: Seq<char>,
)
    ensures
        observed_body(ctx, Seq::empty(), kind, endpoint) is None,
        !ctx.config.capture_ai_content && ai_content::llm_path(endpoint) && observed_body(
            ctx,
            stream,
            kind,
            endpoint,
        ) is Some ==> (json::parsed(stream) matches Some(t) && json::has_member(t, "jsonrpc"@)),
        ({
            let whole = 0 < stream.len() && stream.len() <= ctx.config.response_head_bytes
                + ctx.config.response_tail_bytes;
            ctx.config.capture_ai_content && whole && (json::parsed(stream) matches Some(t) && (
            t is Object || t is Array)) ==> observed_body(ctx, stream, kind, endpoint) == Some(
                sanitize::sanitized(json::parsed(stream)->0, 0, ctx.pii_rules, ctx.secret()),
            )
        }),
{
}

/// Of a body beyond the budgets what ships is a marker that says so, with as many
/// bytes of either end as its budget allows.
pub proof fn law_a_long_body_is_cut(
    ctx: PolicyContext,
    stream: Seq<u8>,
    kind: ResponseContentKind,
    endpoint: Seq<char>,
)
    requires
        ctx.config.capture_ai_content,
        stream.len() > ctx.config.response_head_bytes + ctx.config.response_tail_bytes,
    ensures
        ({
            let head = stream.take(ctx.config.response_head_bytes as int);
            let tail = stream.skip(stream.len() - ctx.config.response_tail_bytes);
            observed_body(ctx, stream, kind, endpoint) == Some(
                response_capture::truncation_marker(
                    stream.len(),
                    (stream.len() - ctx.config.response_head_bytes
                        - ctx.config.response_tail_bytes) as nat,
                    response_capture::slice_text(
                        text::lossy_text(head),
                        kind,
                        ctx.pii_rules,
                        ctx.secret(),
                    ),
                    response_capture::slice_text(
                        text::lossy_text(tail),
                        kind,
                        ctx.pii_rules,
                        ctx.secret(),
                    ),
                ),
            )
        }),
{
}

} // verus!
