//! The policy: what is made of a configuration when it is loaded.

use vstd::prelude::*;
use vstd::string::*;

use crate::config::Config;
use crate::path_filter;
use crate::path_filter::{PathFilter, PathFilterError};
use crate::pii_rules;
use crate::pii_rules::{CompiledPiiRules, PiiPatternConfig, PiiRuleError};
use crate::queue::EventQueue;
use crate::sample_rate;
use crate::sample_rate::SampleRate;
use crate::sampler;
use crate::sampler::{Coin, KeyedSampler};
use crate::sanitize;
use crate::text;

verus! {

/// Upper bound of the two response-capture budgets.
pub const MAX_RESPONSE_SLICE_BYTES: u32 = 49_152;

/// MCP session header: set on the response to a handshake, and echoed on every
/// later request.
pub const MCP_SESSION_ID_HEADER: &'static str = "mcp-session-id";

/// Header of every MCP request but the handshake.
pub const MCP_PROTOCOL_VERSION_HEADER: &'static str = "mcp-protocol-version";

/// The sampling unit.
#[derive(Debug, Clone, Copy, PartialEq, Eq, Structural)]
pub enum SampleMode {
    Session,
    Request,
}

impl SampleMode {
    /// The name of the mode.
    pub fn as_str(&self) -> (r: &'static str)
        ensures
            r@ == match self {
                SampleMode::Session => "session"@,
                SampleMode::Request => "request"@,
            },
    {
        match self {
            SampleMode::Session => "session",
            SampleMode::Request => "request",
        }
    }
}

/// What the handlers of requests and responses share.
pub struct PolicyContext {
    /// The configuration with every clamp applied.
    pub config: Config,
    /// HMAC key for pseudonyms, where there is one.
    pub secret_key: Option<String>,
    pub path_filter: PathFilter,
    /// Lowercased allowlist of request headers. `None`: capture all of them.
    pub header_allowlist: Option<Vec<String>>,
    /// Lowercased allowlist of response headers. Empty: capture none of them.
    pub response_header_allowlist: Vec<String>,
    pub pii_rules: CompiledPiiRules,
    /// Decides by key where the sampling unit is the session.
    pub keyed: KeyedSampler,
    pub sample_mode: SampleMode,
    /// Lowercased headers that key the sampling, in configured order.
    pub session_key_headers: Vec<String>,
}

/// What changes while the policy runs.
pub struct PolicyState {
    pub queue: EventQueue,
    /// Decides where no key does.
    pub coin: Coin,
}

/// Something about a configuration that its operator should know.
#[derive(Debug)]
pub enum Notice {
    SampleRateClamped { configured: SampleRate, effective: SampleRate },
    HeadBytesClamped { configured: u32 },
    TailBytesClamped { configured: u32 },
    HeaderAllowlistBlank,
    PiiWarning { message: String },
    PiiActive { keys: usize, patterns: usize },
    HashWithoutSecret,
    UnknownSampleBy { value: String },
    SessionKeyHeaderBlank,
    SessionHeaderNotCaptured,
}

/// The model of [`Notice`].
pub enum NoticeModel {
    SampleRateClamped { configured: SampleRate, effective: SampleRate },
    HeadBytesClamped { configured: u32 },
    TailBytesClamped { configured: u32 },
    HeaderAllowlistBlank,
    PiiWarning { message: Seq<char> },
    PiiActive { keys: nat, patterns: nat },
    HashWithoutSecret,
    UnknownSampleBy { value: Seq<char> },
    SessionKeyHeaderBlank,
    SessionHeaderNotCaptured,
}

impl Notice {
    pub open spec fn view(&self) -> NoticeModel {
        match self {
            Notice::SampleRateClamped { configured, effective } => NoticeModel::SampleRateClamped {
                configured: *configured,
                effective: *effective,
            },
            Notice::HeadBytesClamped { configured } => NoticeModel::HeadBytesClamped {
                configured: *configured,
            },
            Notice::TailBytesClamped { configured } => NoticeModel::TailBytesClamped {
                configured: *configured,
            },
            Notice::HeaderAllowlistBlank => NoticeModel::HeaderAllowlistBlank,
            Notice::PiiWarning { message } => NoticeModel::PiiWarning { message: message@ },
            Notice::PiiActive { keys, patterns } => NoticeModel::PiiActive {
                keys: *keys as nat,
                patterns: *patterns as nat,
            },
            Notice::HashWithoutSecret => NoticeModel::HashWithoutSecret,
            Notice::UnknownSampleBy { value } => NoticeModel::UnknownSampleBy { value: value@ },
            Notice::SessionKeyHeaderBlank => NoticeModel::SessionKeyHeaderBlank,
            Notice::SessionHeaderNotCaptured => NoticeModel::SessionHeaderNotCaptured,
        }
    }
}

/// What a list of notices holds.
pub open spec fn notice_views(notices: Seq<Notice>) -> Seq<NoticeModel> {
    Seq::new(notices.len(), |i: int| notices[i].view())
}

/// Why a configuration is refused.
#[derive(Debug)]
pub enum PolicyError {
    Paths(PathFilterError),
    PiiRules(PiiRuleError),
}

/// A policy that is ready to run.
pub struct LoadedPolicy {
    pub context: PolicyContext,
    pub state: PolicyState,
    pub notices: Vec<Notice>,
}

// ---------------------------------------------------------------------------
// What a configuration means
// ---------------------------------------------------------------------------

/// The entries of an optional list.
pub open spec fn entries<T>(list: Option<Vec<T>>) -> Seq<T> {
    match list {
        Some(v) => v@,
        None => Seq::empty(),
    }
}

/// The header name that an entry stands for.
pub open spec fn header_name(entry: Seq<char>) -> Seq<char> {
    text::unicode_lower(text::trim(entry))
}

/// The header names that entries stand for, in order; blank entries stand for
/// none.
pub open spec fn header_names(list: Seq<String>) -> Seq<Seq<char>>
    decreases list.len(),
{
    if list.len() == 0 {
        Seq::empty()
    } else {
        let front = header_names(list.drop_last());
        let name = header_name(list.last()@);
        if name.len() > 0 {
            front.push(name)
        } else {
            front
        }
    }
}

/// The allowlist of request headers: none where it would be empty.
pub open spec fn allowlist(list: Option<Vec<String>>) -> Option<Seq<Seq<char>>> {
    let names = header_names(entries(list));
    if names.len() == 0 {
        None
    } else {
        Some(names)
    }
}

/// What an optional list of strings holds.
pub open spec fn optional_views(list: Option<Vec<String>>) -> Option<Seq<Seq<char>>> {
    match list {
        Some(v) => Some(text::views(v@)),
        None => None,
    }
}

/// The smaller of a budget and the upper bound.
pub open spec fn clamped_bytes(n: u32) -> u32 {
    if n > MAX_RESPONSE_SLICE_BYTES {
        MAX_RESPONSE_SLICE_BYTES
    } else {
        n
    }
}

/// The configuration with every clamp applied.
pub open spec fn effective_config(config: Config) -> Config {
    Config {
        sample_rate: config.sample_rate.clamped_rate(),
        response_head_bytes: clamped_bytes(config.response_head_bytes),
        response_tail_bytes: clamped_bytes(config.response_tail_bytes),
        ..config
    }
}

/// The configured sampling unit as it is read.
pub open spec fn sample_by(config: Config) -> Seq<char> {
    text::lower(text::trim(config.sample_by@))
}

/// The sampling unit. What names none is the session.
pub open spec fn sample_mode_of(config: Config) -> SampleMode {
    if sample_by(config) == "request"@ {
        SampleMode::Request
    } else {
        SampleMode::Session
    }
}

/// The key material of the sampler: the secret where there is one, else the
/// token. Both are the same on every replica.
pub open spec fn key_material(config: Config, secret: Option<String>) -> Seq<char> {
    match secret {
        Some(s) => s@,
        None => config.token@,
    }
}

/// One notice where the condition holds, none where it does not.
pub open spec fn notice_if(condition: bool, notice: NoticeModel) -> Seq<NoticeModel> {
    if condition {
        seq![notice]
    } else {
        Seq::empty()
    }
}

/// The warnings of the rule compiler as notices.
pub open spec fn pii_notices(warnings: Seq<Seq<char>>) -> Seq<NoticeModel> {
    Seq::new(warnings.len(), |i: int| NoticeModel::PiiWarning { message: warnings[i] })
}

/// The notices about the numbers of a configuration.
pub open spec fn clamp_notices(config: Config) -> Seq<NoticeModel> {
    notice_if(
        config.sample_rate.clamped_rate() != config.sample_rate,
        NoticeModel::SampleRateClamped {
            configured: config.sample_rate,
            effective: config.sample_rate.clamped_rate(),
        },
    ) + notice_if(
        config.response_head_bytes > MAX_RESPONSE_SLICE_BYTES,
        NoticeModel::HeadBytesClamped { configured: config.response_head_bytes },
    ) + notice_if(
        config.response_tail_bytes > MAX_RESPONSE_SLICE_BYTES,
        NoticeModel::TailBytesClamped { configured: config.response_tail_bytes },
    )
}

/// The notices about the header allowlist and the custom rules.
pub open spec fn rule_notices(
    config: Config,
    secret: Option<String>,
    rules: CompiledPiiRules,
) -> Seq<NoticeModel> {
    notice_if(
        allowlist(config.capture_headers) is None && entries(config.capture_headers).len() > 0,
        NoticeModel::HeaderAllowlistBlank,
    ) + pii_notices(
        pii_rules::blank_warnings(
            pii_rules::blanks(
                entries(config.custom_sensitive_keys),
                entries(config.custom_sensitive_keys).len() as int,
            ),
        ),
    ) + notice_if(
        !rules.no_rules(),
        NoticeModel::PiiActive { keys: rules.extra_keys@.len(), patterns: rules.patterns@.len() },
    ) + notice_if(rules.hashes() && secret is None, NoticeModel::HashWithoutSecret)
}

/// The notices about sampling.
pub open spec fn sampling_notices(config: Config) -> Seq<NoticeModel> {
    notice_if(
        sample_by(config) != "session"@ && sample_by(config) != "request"@,
        NoticeModel::UnknownSampleBy { value: sample_by(config) },
    ) + notice_if(
        header_names(entries(config.session_key_header)).len() != entries(
            config.session_key_header,
        ).len(),
        NoticeModel::SessionKeyHeaderBlank,
    ) + notice_if(
        !config.sample_rate.clamped_rate().at_least_one() && sample_mode_of(config)
            == SampleMode::Session && !header_names(config.capture_response_headers@).contains(
            MCP_SESSION_ID_HEADER@,
        ),
        NoticeModel::SessionHeaderNotCaptured,
    )
}

/// The context is the one that the configuration asks for.
pub open spec fn context_matches(
    ctx: PolicyContext,
    config: Config,
    secret: Option<String>,
) -> bool {
    &&& ctx.config == effective_config(config)
    &&& ctx.secret_key == secret
    &&& path_filter::set_from(entries(config.capture_paths)) == Ok::<
        Option<Seq<globset::Glob>>,
        Seq<char>,
    >(ctx.path_filter.capture_globs())
    &&& path_filter::set_from(entries(config.exclude_paths)) == Ok::<
        Option<Seq<globset::Glob>>,
        Seq<char>,
    >(ctx.path_filter.exclude_globs())
    &&& optional_views(ctx.header_allowlist) == allowlist(config.capture_headers)
    &&& text::views(ctx.response_header_allowlist@) == header_names(
        config.capture_response_headers@,
    )
    &&& pii_rules::rules_match(
        ctx.pii_rules,
        entries(config.custom_sensitive_keys),
        entries(config.custom_pii_patterns),
    )
    &&& ctx.keyed.wf()
    &&& ctx.keyed.rate() == config.sample_rate.clamped_rate()
    &&& ctx.keyed.key() == sampler::sampling_key(key_material(config, secret))
    &&& ctx.sample_mode == sample_mode_of(config)
    &&& text::views(ctx.session_key_headers@) == header_names(entries(config.session_key_header))
}

/// The state is the one in which the policy starts.
pub open spec fn is_initial_state(state: PolicyState, config: Config, seed: u64) -> bool {
    &&& state.queue.wf()
    &&& state.queue.view() == Seq::<crate::event::CerberusEvent>::empty()
    &&& state.queue.capacity() == config.queue_capacity
    &&& state.queue.dropped() == 0
    &&& state.coin.rate() == config.sample_rate.clamped_rate()
    &&& state.coin.state() == seed
}

/// The error is the one that the configuration gives rise to: the path lists
/// are judged before the rules.
pub open spec fn error_matches(e: PolicyError, config: Config) -> bool {
    let capture = path_filter::set_from(entries(config.capture_paths));
    let exclude = path_filter::set_from(entries(config.exclude_paths));
    match e {
        PolicyError::Paths(e) => match capture {
            Err(m) => e.message@ == m,
            Ok(_) => exclude == Err::<Option<Seq<globset::Glob>>, Seq<char>>(e.message@),
        },
        PolicyError::PiiRules(e) => capture is Ok && exclude is Ok && pii_rules::first_fault(
            entries(config.custom_pii_patterns),
            e.view(),
        ),
    }
}

impl PolicyContext {
    /// The sampler is that of the configured rate, which is a fraction, and the
    /// budgets for response bodies are within their bound.
    pub open spec fn wf(&self) -> bool {
        &&& self.keyed.wf()
        &&& self.keyed.rate() == self.config.sample_rate
        &&& self.config.sample_rate == self.config.sample_rate.clamped_rate()
        &&& self.config.response_head_bytes <= MAX_RESPONSE_SLICE_BYTES
        &&& self.config.response_tail_bytes <= MAX_RESPONSE_SLICE_BYTES
    }

    /// The secret as text.
    pub open spec fn secret(&self) -> Option<Seq<char>> {
        text::text_of(self.secret_key)
    }
}

impl PolicyState {
    /// The queue is sound, and the coin has the rate of the context.
    pub open spec fn wf(&self, ctx: PolicyContext) -> bool {
        &&& self.queue.wf()
        &&& self.coin.rate() == ctx.config.sample_rate
    }
}

// ---------------------------------------------------------------------------
// Loading
// ---------------------------------------------------------------------------

/// The header names that entries stand for.
fn normalize_names(list: &Vec<String>) -> (r: Vec<String>)
    ensures
        text::views(r@) == header_names(list@),
{
    let mut names: Vec<String> = Vec::new();
    let mut i: usize = 0;
    proof {
        assert(list@.take(0) =~= Seq::<String>::empty());
        assert(text::views(names@) =~= header_names(list@.take(0)));
    }
    while i < list.len()
        invariant
            i <= list@.len(),
            text::views(names@) == header_names(list@.take(i as int)),
        decreases list@.len() - i,
    {
        proof {
            assert(list@.take(i + 1).drop_last() =~= list@.take(i as int));
            assert(list@.take(i + 1).last() == list@[i as int]);
        }
        let ghost before = text::views(names@);
        let trimmed = text::trimmed(list[i].as_str());
        let name = text::to_unicode_lower(trimmed.as_str());
        let ghost nv = name@;
        if !name.as_str().is_empty() {
            names.push(name);
            proof {
                assert(text::views(names@) =~= before.push(nv));
            }
        }
        i += 1;
    }
    proof {
        assert(list@.take(i as int) =~= list@);
    }
    names
}

/// Appends a notice where the condition holds.
fn notice(out: &mut Vec<Notice>, condition: bool, n: Notice)
    ensures
        notice_views(final(out)@) == notice_views(old(out)@) + notice_if(condition, n.view()),
{
    if condition {
        out.push(n);
    }
    proof {
        assert(notice_views(out@) =~= notice_views(old(out)@) + notice_if(condition, n.view()));
    }
}

/// Appends the warnings of the rule compiler.
fn pii_notice(out: &mut Vec<Notice>, warnings: Vec<String>)
    ensures
        notice_views(final(out)@) == notice_views(old(out)@) + pii_notices(
            text::views(warnings@),
        ),
{
    let ghost expected = pii_notices(text::views(warnings@));
    let ghost start = notice_views(out@);
    proof {
        assert(start + expected.take(0) =~= start);
    }
    for message in it: warnings
        invariant
            it.seq() == warnings@,
            expected == pii_notices(text::views(warnings@)),
            notice_views(out@) == start + expected.take(it.index() as int),
    {
        let ghost k = it.index() as int;
        let ghost before = notice_views(out@);
        out.push(Notice::PiiWarning { message });
        proof {
            assert(notice_views(out@) =~= before.push(expected[k]));
            assert(expected.take(k + 1) =~= expected.take(k).push(expected[k]));
            assert(notice_views(out@) =~= start + expected.take(k + 1));
        }
    }
    proof {
        assert(expected.take(warnings@.len() as int) =~= expected);
    }
}

/// The smaller of a budget and the upper bound.
fn clamp_bytes(n: u32) -> (r: u32)
    ensures
        r == clamped_bytes(n),
{
    if n > MAX_RESPONSE_SLICE_BYTES {
        MAX_RESPONSE_SLICE_BYTES
    } else {
        n
    }
}

/// Writes the notices about the numbers of a configuration.
fn note_clamps(config: &Config) -> (r: Vec<Notice>)
    ensures
        notice_views(r@) == clamp_notices(*config),
{
    let mut out: Vec<Notice> = Vec::new();
    let rate = config.sample_rate.clamped();
    notice(
        &mut out,
        rate.bits != config.sample_rate.bits,
        Notice::SampleRateClamped { configured: config.sample_rate, effective: rate },
    );
    notice(
        &mut out,
        config.response_head_bytes > MAX_RESPONSE_SLICE_BYTES,
        Notice::HeadBytesClamped { configured: config.response_head_bytes },
    );
    notice(
        &mut out,
        config.response_tail_bytes > MAX_RESPONSE_SLICE_BYTES,
        Notice::TailBytesClamped { configured: config.response_tail_bytes },
    );
    proof {
        assert(notice_views(out@) =~= clamp_notices(*config));
    }
    out
}

/// The sampling unit that a configuration names, and the name where it is none.
fn read_sample_mode(config: &Config) -> (r: (SampleMode, String))
    ensures
        r.0 == sample_mode_of(*config),
        r.1@ == sample_by(*config),
{
    let trimmed = text::trimmed(config.sample_by.as_str());
    let name = text::lowered(trimmed.as_str());
    let mode = if text::same(name.as_str(), "request") {
        SampleMode::Request
    } else {
        SampleMode::Session
    };
    (mode, name)
}

/// Writes the notices about sampling.
fn note_sampling(
    out: &mut Vec<Notice>,
    config: &Config,
    name: String,
    mode: SampleMode,
    session_key_headers: &Vec<String>,
    response_header_allowlist: &Vec<String>,
)
    requires
        name@ == sample_by(*config),
        mode == sample_mode_of(*config),
        text::views(session_key_headers@) == header_names(entries(config.session_key_header)),
        text::views(response_header_allowlist@) == header_names(config.capture_response_headers@),
    ensures
        notice_views(final(out)@) == notice_views(old(out)@) + sampling_notices(*config),
{
    let ghost start = notice_views(out@);
    let unknown = !text::same(name.as_str(), "session") && !text::same(name.as_str(), "request");
    notice(out, unknown, Notice::UnknownSampleBy { value: name });
    let configured: usize = match &config.session_key_header {
        Some(v) => v.len(),
        None => 0,
    };
    proof {
        assert(session_key_headers@.len() == text::views(session_key_headers@).len());
    }
    notice(out, session_key_headers.len() != configured, Notice::SessionKeyHeaderBlank);
    let rate = config.sample_rate.clamped();
    let listed = text::holds(response_header_allowlist, MCP_SESSION_ID_HEADER);
    proof {
        let names = header_names(config.capture_response_headers@);
        let id = MCP_SESSION_ID_HEADER@;
        if listed {
            let i = choose|i: int|
                0 <= i < response_header_allowlist@.len() && response_header_allowlist@[i]@ == id;
            assert(names[i] == id);
        } else if names.contains(id) {
            let i = choose|i: int| 0 <= i < names.len() && names[i] == id;
            assert(response_header_allowlist@[i]@ == id);
        }
    }
    notice(
        out,
        !rate.is_at_least_one() && mode == SampleMode::Session && !listed,
        Notice::SessionHeaderNotCaptured,
    );
    proof {
        assert(notice_views(out@) =~= start + sampling_notices(*config));
    }
}

/// Writes the notices about the header allowlist and the custom rules.
fn note_rules(
    out: &mut Vec<Notice>,
    config: &Config,
    has_allowlist: bool,
    warnings: Vec<String>,
    rules: &CompiledPiiRules,
    secret_key: &Option<String>,
)
    requires
        has_allowlist == (allowlist(config.capture_headers) is Some),
        text::views(warnings@) == pii_rules::blank_warnings(
            pii_rules::blanks(
                entries(config.custom_sensitive_keys),
                entries(config.custom_sensitive_keys).len() as int,
            ),
        ),
    ensures
        notice_views(final(out)@) == notice_views(old(out)@) + rule_notices(
            *config,
            *secret_key,
            *rules,
        ),
{
    let ghost start = notice_views(out@);
    let configured = match &config.capture_headers {
        Some(v) => v.len() > 0,
        None => false,
    };
    notice(out, !has_allowlist && configured, Notice::HeaderAllowlistBlank);
    pii_notice(out, warnings);
    notice(
        out,
        !rules.is_empty(),
        Notice::PiiActive { keys: rules.extra_keys.len(), patterns: rules.patterns.len() },
    );
    notice(out, rules.has_hash_action() && secret_key.is_none(), Notice::HashWithoutSecret);
    proof {
        assert(notice_views(out@) =~= start + rule_notices(*config, *secret_key, *rules));
    }
}

impl PolicyContext {
    /// Loads a configuration.
    ///
    /// Numbers that are out of range are clamped, and an unknown sampling unit
    /// reads as the session: a mistake in these must not stop capture. A path
    /// pattern or a scrubbing rule that does not compile refuses the whole
    /// configuration: a rule that silently does not apply is a leak.
    pub fn new(config: Config, secret_key: Option<String>, sampler_seed: u64) -> (r: Result<
        LoadedPolicy,
        PolicyError,
    >)
        ensures
            match r {
                Ok(p) => {
                    &&& context_matches(p.context, config, secret_key)
                    &&& p.context.wf()
                    &&& is_initial_state(p.state, config, sampler_seed)
                    &&& notice_views(p.notices@) == clamp_notices(config) + rule_notices(
                        config,
                        secret_key,
                        p.context.pii_rules,
                    ) + sampling_notices(config)
                },
                Err(e) => error_matches(e, config),
            },
    {
        let mut notices = note_clamps(&config);
        let none: Vec<String> = Vec::new();
        let no_patterns: Vec<PiiPatternConfig> = Vec::new();
        proof {
            assert(none@ =~= Seq::<String>::empty());
            assert(no_patterns@ =~= Seq::<PiiPatternConfig>::empty());
        }
        let capture_paths = match &config.capture_paths {
            Some(v) => v,
            None => &none,
        };
        let exclude_paths = match &config.exclude_paths {
            Some(v) => v,
            None => &none,
        };
        let path_filter = match PathFilter::compile(
            capture_paths.as_slice(),
            exclude_paths.as_slice(),
        ) {
            Ok(f) => f,
            Err(e) => {
                return Err(PolicyError::Paths(e));
            },
        };
        let capture_headers = match &config.capture_headers {
            Some(v) => v,
            None => &none,
        };
        let request_names = normalize_names(capture_headers);
        proof {
            assert(request_names@.len() == text::views(request_names@).len());
        }
        let header_allowlist = if request_names.len() == 0 {
            None
        } else {
            Some(request_names)
        };
        let response_header_allowlist = normalize_names(&config.capture_response_headers);
        let extra_keys = match &config.custom_sensitive_keys {
            Some(v) => v,
            None => &none,
        };
        let patterns = match &config.custom_pii_patterns {
            Some(v) => v,
            None => &no_patterns,
        };
        let (pii_rules, warnings) = match CompiledPiiRules::compile(
            extra_keys.as_slice(),
            patterns.as_slice(),
        ) {
            Ok(compiled) => compiled,
            Err(e) => {
                return Err(PolicyError::PiiRules(e));
            },
        };
        note_rules(
            &mut notices,
            &config,
            header_allowlist.is_some(),
            warnings,
            &pii_rules,
            &secret_key,
        );
        let (sample_mode, name) = read_sample_mode(&config);
        let configured_session_headers = match &config.session_key_header {
            Some(v) => v,
            None => &none,
        };
        let session_key_headers = normalize_names(configured_session_headers);
        note_sampling(
            &mut notices,
            &config,
            name,
            sample_mode,
            &session_key_headers,
            &response_header_allowlist,
        );
        let rate = config.sample_rate.clamped();
        proof {
            sample_rate::law_clamp_gives_a_fraction(config.sample_rate);
            sample_rate::law_clamp_gives_a_fraction(rate);
        }
        let keyed = match &secret_key {
            Some(s) => KeyedSampler::new(rate, s.as_str()),
            None => KeyedSampler::new(rate, config.token.as_str()),
        };
        let state = PolicyState {
            queue: EventQueue::new(config.queue_capacity as usize),
            coin: Coin::new(rate, sampler_seed),
        };
        let mut config = config;
        config.sample_rate = rate;
        config.response_head_bytes = clamp_bytes(config.response_head_bytes);
        config.response_tail_bytes = clamp_bytes(config.response_tail_bytes);
        let context = PolicyContext {
            config,
            secret_key,
            path_filter,
            header_allowlist,
            response_header_allowlist,
            pii_rules,
            keyed,
            sample_mode,
            session_key_headers,
        };
        Ok(LoadedPolicy { context, state, notices })
    }

    /// Hashes a value where there is a secret and otherwise passes it through.
    pub fn maybe_hash(&self, value: &str) -> (r: String)
        ensures
            r@ == sanitize::hashed_or_raw(self.secret(), value@),
    {
        sanitize::pseudonymize_or_passthrough(self.secret_str(), value)
    }

    /// The secret, where there is one.
    pub fn secret_str(&self) -> (r: Option<&str>)
        ensures
            text::str_of(r) == self.secret(),
    {
        text::as_text(&self.secret_key)
    }
}

impl PolicyError {
    /// The message of the error.
    pub fn message(&self) -> (r: String)
        ensures
            r@ == match self {
                PolicyError::Paths(e) => e.message@,
                PolicyError::PiiRules(e) => "invalid custom PII scrubbing config: "@
                    + pii_rules::full_fault_message(e.view()),
            },
    {
        match self {
            PolicyError::Paths(e) => e.message.clone(),
            PolicyError::PiiRules(e) => {
                let mut out = "invalid custom PII scrubbing config: ".to_string();
                out.append(e.full_message().as_str());
                out
            },
        }
    }
}

// ---------------------------------------------------------------------------
// Laws
// ---------------------------------------------------------------------------

/// The budgets for response bodies stay as configured up to 48 KiB each, and are
/// 48 KiB where more is asked for. Beside them and the rate nothing of a
/// configuration changes.
pub proof fn law_budgets_are_bounded(config: Config)
    ensures
        ({
            let e = effective_config(config);
            &&& config.response_head_bytes <= 49_152 ==> e.response_head_bytes
                == config.response_head_bytes
            &&& config.response_head_bytes > 49_152 ==> e.response_head_bytes == 49_152
            &&& config.response_tail_bytes <= 49_152 ==> e.response_tail_bytes
                == config.response_tail_bytes
            &&& config.response_tail_bytes > 49_152 ==> e.response_tail_bytes == 49_152
            &&& (Config {
                sample_rate: config.sample_rate,
                response_head_bytes: config.response_head_bytes,
                response_tail_bytes: config.response_tail_bytes,
                ..e
            }) == config
        }),
{
}

/// Every entry of a header list stands for one name, trimmed and in lowercase; only
/// a blank one stands for none. The names keep their order.
pub proof fn law_every_listed_header_counts(list: Seq<String>, entry: String)
    ensures
        header_names(Seq::empty()) == Seq::<Seq<char>>::empty(),
        header_names(list.push(entry)) == if text::unicode_lower(text::trim(entry@)).len() > 0 {
            header_names(list).push(text::unicode_lower(text::trim(entry@)))
        } else {
            header_names(list)
        },
{
    assert(list.push(entry).drop_last() =~= list);
}

/// A list of request headers limits what is captured exactly where it names one:
/// an absent, an empty and a blank list let every header through.
pub proof fn law_a_blank_list_lets_all_through(list: Vec<String>)
    ensures
        allowlist(None) is None,
        allowlist(Some(list)) is None <==> header_names(list@).len() == 0,
        header_names(list@).len() > 0 ==> allowlist(Some(list)) == Some(header_names(list@)),
{
}

/// The sampling unit is the request exactly where the setting says so, in whatever
/// case and with whatever white space around it, and else the session.
pub proof fn law_the_session_is_the_unit(config: Config)
    ensures
        sample_mode_of(config) == SampleMode::Request <==> text::lower(text::trim(config.sample_by@))
            == "request"@,
        sample_mode_of(config) != SampleMode::Request ==> sample_mode_of(config)
            == SampleMode::Session,
{
}

/// The context of a loaded policy is what the configuration asks for: its sampler
/// is keyed by the secret, or by the token where there is none, and its lists are
/// those that the configuration names.
pub proof fn law_a_loaded_policy_is_as_configured(
    ctx: PolicyContext,
    config: Config,
    secret: Option<String>,
    state: PolicyState,
    seed: u64,
)
    requires
        context_matches(ctx, config, secret),
        is_initial_state(state, config, seed),
    ensures
        ctx.secret_key == secret,
        ctx.config.sample_rate == config.sample_rate.clamped_rate(),
        ctx.keyed.rate() == config.sample_rate.clamped_rate(),
        ctx.config.capture_ai_content == config.capture_ai_content,
        ctx.config.capture_request_body == config.capture_request_body,
        ctx.config.capture_response_body == config.capture_response_body,
        secret matches Some(s) ==> ctx.keyed.key() == sampler::sampling_key(s@),
        secret is None ==> ctx.keyed.key() == sampler::sampling_key(config.token@),
        config.capture_paths is None ==> ctx.path_filter.capture_globs() is None,
        config.exclude_paths is None ==> ctx.path_filter.exclude_globs() is None,
        config.capture_paths matches Some(v) && v@.len() > 0 ==> path_filter::globs_from(
            (config.capture_paths->0)@,
        ) == Ok::<Seq<globset::Glob>, Seq<char>>(ctx.path_filter.capture_globs()->0),
        config.exclude_paths matches Some(v) && v@.len() > 0 ==> path_filter::globs_from(
            (config.exclude_paths->0)@,
        ) == Ok::<Seq<globset::Glob>, Seq<char>>(ctx.path_filter.exclude_globs()->0),
        config.capture_headers is None ==> ctx.header_allowlist is None,
        config.capture_headers matches Some(v) && header_names(v@).len() > 0 ==> optional_views(
            ctx.header_allowlist,
        ) == Some(header_names((config.capture_headers->0)@)),
        text::views(ctx.response_header_allowlist@) == header_names(
            config.capture_response_headers@,
        ),
        config.session_key_header is None ==> ctx.session_key_headers@.len() == 0,
        config.session_key_header matches Some(v) ==> text::views(ctx.session_key_headers@)
            == header_names(v@),
        config.custom_pii_patterns matches Some(v) ==> ctx.pii_rules.patterns@.len() == v@.len(),
        config.custom_pii_patterns is None ==> ctx.pii_rules.patterns@.len() == 0,
        state.queue.view().len() == 0,
        state.queue.dropped() == 0,
        state.queue.capacity() == config.queue_capacity,
        state.coin.state() == seed,
        state.coin.rate() == ctx.config.sample_rate,
{
    assert(text::views(ctx.session_key_headers@).len() == ctx.session_key_headers@.len());
}

/// A notice stands among two lists together where it stands in one of them.
proof fn lemma_either_list(a: Seq<NoticeModel>, b: Seq<NoticeModel>, n: NoticeModel)
    ensures
        (a + b).contains(n) <==> a.contains(n) || b.contains(n),
{
    if a.contains(n) {
        let i = choose|i: int| 0 <= i < a.len() && a[i] == n;
        assert((a + b)[i] == n);
    }
    if b.contains(n) {
        let i = choose|i: int| 0 <= i < b.len() && b[i] == n;
        assert((a + b)[a.len() + i] == n);
    }
    if (a + b).contains(n) {
        let i = choose|i: int| 0 <= i < (a + b).len() && (a + b)[i] == n;
        if i < a.len() {
            assert(a[i] == n);
        } else {
            assert(b[i - a.len()] == n);
        }
    }
}

/// A conditional notice stands in its list exactly where its condition holds.
proof fn lemma_noticed(condition: bool, notice: NoticeModel, n: NoticeModel)
    ensures
        notice_if(condition, notice).contains(n) <==> condition && n == notice,
{
    if condition {
        assert(notice_if(condition, notice)[0] == notice);
    }
}

/// The operator is told of every number that was clamped, and of none that was not.
pub proof fn law_clamps_are_told(config: Config, n: u32)
    ensures
        clamp_notices(config).contains(NoticeModel::HeadBytesClamped { configured: n }) <==> n
            == config.response_head_bytes && n > 49_152,
        clamp_notices(config).contains(NoticeModel::TailBytesClamped { configured: n }) <==> n
            == config.response_tail_bytes && n > 49_152,
        clamp_notices(config).contains(
            NoticeModel::SampleRateClamped {
                configured: config.sample_rate,
                effective: config.sample_rate.clamped_rate(),
            },
        ) <==> config.sample_rate.clamped_rate() != config.sample_rate,
{
    let rate = NoticeModel::SampleRateClamped {
        configured: config.sample_rate,
        effective: config.sample_rate.clamped_rate(),
    };
    let head = NoticeModel::HeadBytesClamped { configured: config.response_head_bytes };
    let tail = NoticeModel::TailBytesClamped { configured: config.response_tail_bytes };
    let a = notice_if(config.sample_rate.clamped_rate() != config.sample_rate, rate);
    let b = notice_if(config.response_head_bytes > MAX_RESPONSE_SLICE_BYTES, head);
    let c = notice_if(config.response_tail_bytes > MAX_RESPONSE_SLICE_BYTES, tail);
    assert forall|x: NoticeModel| #[trigger]
        clamp_notices(config).contains(x) == (a.contains(x) || b.contains(x) || c.contains(x)) by {
        lemma_either_list(a + b, c, x);
        lemma_either_list(a, b, x);
    }
    assert forall|x: NoticeModel|
        #![trigger clamp_notices(config).contains(x)]
        a.contains(x) == (config.sample_rate.clamped_rate() != config.sample_rate && x == rate)
            && b.contains(x) == (config.response_head_bytes > MAX_RESPONSE_SLICE_BYTES && x == head)
            && c.contains(x) == (config.response_tail_bytes > MAX_RESPONSE_SLICE_BYTES && x
            == tail) by {
        lemma_noticed(config.sample_rate.clamped_rate() != config.sample_rate, rate, x);
        lemma_noticed(config.response_head_bytes > MAX_RESPONSE_SLICE_BYTES, head, x);
        lemma_noticed(config.response_tail_bytes > MAX_RESPONSE_SLICE_BYTES, tail, x);
    }
}

/// The operator is told where a list of headers names none, where rules are active,
/// and where a rule hashes without a secret.
pub proof fn law_rules_are_told(config: Config, secret: Option<String>, rules: CompiledPiiRules)
    ensures
        ({
            let told = rule_notices(config, secret, rules);
            &&& told.contains(NoticeModel::HeaderAllowlistBlank) <==> header_names(
                entries(config.capture_headers),
            ).len() == 0 && entries(config.capture_headers).len() > 0
            &&& told.contains(NoticeModel::HashWithoutSecret) <==> secret is None && exists|i: int|
                0 <= i < rules.patterns@.len() && (#[trigger] rules.patterns@[i]).action
                    == pii_rules::PiiAction::Hash
            &&& told.contains(
                NoticeModel::PiiActive {
                    keys: rules.extra_keys@.len(),
                    patterns: rules.patterns@.len(),
                },
            ) <==> rules.extra_keys@.len() > 0 || rules.patterns@.len() > 0
        }),
{
    let a = notice_if(
        allowlist(config.capture_headers) is None && entries(config.capture_headers).len() > 0,
        NoticeModel::HeaderAllowlistBlank,
    );
    let b = pii_notices(
        pii_rules::blank_warnings(
            pii_rules::blanks(
                entries(config.custom_sensitive_keys),
                entries(config.custom_sensitive_keys).len() as int,
            ),
        ),
    );
    let active = NoticeModel::PiiActive {
        keys: rules.extra_keys@.len(),
        patterns: rules.patterns@.len(),
    };
    let c = notice_if(!rules.no_rules(), active);
    let d = notice_if(rules.hashes() && secret is None, NoticeModel::HashWithoutSecret);
    assert forall|x: NoticeModel| #[trigger]
        rule_notices(config, secret, rules).contains(x) == (a.contains(x) || b.contains(x)
            || c.contains(x) || d.contains(x)) by {
        lemma_either_list(a + b + c, d, x);
        lemma_either_list(a + b, c, x);
        lemma_either_list(a, b, x);
    }
    assert forall|x: NoticeModel|
        #![trigger rule_notices(config, secret, rules).contains(x)]
        (a.contains(x) <==> allowlist(config.capture_headers) is None && entries(
            config.capture_headers,
        ).len() > 0 && x == NoticeModel::HeaderAllowlistBlank) && (c.contains(x)
            <==> !rules.no_rules() && x == active) && (d.contains(x) <==> rules.hashes()
            && secret is None && x == NoticeModel::HashWithoutSecret) by {
        lemma_noticed(
            allowlist(config.capture_headers) is None && entries(config.capture_headers).len() > 0,
            NoticeModel::HeaderAllowlistBlank,
            x,
        );
        lemma_noticed(!rules.no_rules(), active, x);
        lemma_noticed(rules.hashes() && secret is None, NoticeModel::HashWithoutSecret, x);
    }
}

/// The operator is told where the sampling unit is none, where a session header is
/// blank, and where sessions are sampled but the header that names them in a
/// response is not captured.
pub proof fn law_sampling_is_told(config: Config)
    ensures
        ({
            let told = sampling_notices(config);
            let unit = text::lower(text::trim(config.sample_by@));
            &&& told.contains(NoticeModel::UnknownSampleBy { value: unit }) <==> unit != "session"@
                && unit != "request"@
            &&& told.contains(NoticeModel::SessionKeyHeaderBlank) <==> header_names(
                entries(config.session_key_header),
            ).len() != entries(config.session_key_header).len()
            &&& told.contains(NoticeModel::SessionHeaderNotCaptured)
                <==> !config.sample_rate.clamped_rate().at_least_one() && unit != "request"@
                && !header_names(config.capture_response_headers@).contains("mcp-session-id"@)
        }),
{
    let unknown = NoticeModel::UnknownSampleBy { value: sample_by(config) };
    let p = sample_by(config) != "session"@ && sample_by(config) != "request"@;
    let q = header_names(entries(config.session_key_header)).len() != entries(
        config.session_key_header,
    ).len();
    let r = !config.sample_rate.clamped_rate().at_least_one() && sample_mode_of(config)
        == SampleMode::Session && !header_names(config.capture_response_headers@).contains(
        MCP_SESSION_ID_HEADER@,
    );
    let a = notice_if(p, unknown);
    let b = notice_if(q, NoticeModel::SessionKeyHeaderBlank);
    let c = notice_if(r, NoticeModel::SessionHeaderNotCaptured);
    assert forall|x: NoticeModel| #[trigger]
        sampling_notices(config).contains(x) == (a.contains(x) || b.contains(x) || c.contains(x)) by {
        lemma_either_list(a + b, c, x);
        lemma_either_list(a, b, x);
    }
    assert forall|x: NoticeModel|
        #![trigger sampling_notices(config).contains(x)]
        (a.contains(x) <==> p && x == unknown) && (b.contains(x) <==> q && x
            == NoticeModel::SessionKeyHeaderBlank) && (c.contains(x) <==> r && x
            == NoticeModel::SessionHeaderNotCaptured) by {
        lemma_noticed(p, unknown, x);
        lemma_noticed(q, NoticeModel::SessionKeyHeaderBlank, x);
        lemma_noticed(r, NoticeModel::SessionHeaderNotCaptured, x);
    }
}

/// A configuration is refused for its paths before it is refused for its rules,
/// and for the paths to capture before those to leave out.
pub proof fn law_paths_are_judged_first(e: PolicyError, config: Config)
    requires
        error_matches(e, config),
    ensures
        e is PiiRules ==> path_filter::set_from(entries(config.capture_paths)) is Ok
            && path_filter::set_from(entries(config.exclude_paths)) is Ok,
        path_filter::set_from(entries(config.capture_paths)) matches Err(m) ==> e matches PolicyError::Paths(
        p) && p.message@ == m,
{
}

} // verus!
