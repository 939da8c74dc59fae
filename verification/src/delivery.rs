//! Decisions around the two outbound calls: fetching the secret at load, and
//! posting a batch.

use vstd::prelude::*;
use vstd::string::*;

use crate::text;

verus! {

/// Path of the secret on the backend.
pub const SECRET_KEY_PATH: &'static str = "/api/secret-key";

/// Timeout of the fetch of the secret, in seconds.
pub const FETCH_TIMEOUT_SECONDS: u64 = 5;

/// Path to which batches are posted.
pub const BATCH_PATH: &'static str = "/v1/ingest/batch";

/// Timeout of a post, in seconds.
pub const POST_TIMEOUT_SECONDS: u64 = 10;

/// Where the HMAC secret comes from.
#[derive(Debug)]
pub enum SecretSource {
    /// It is configured.
    Configured(String),
    /// It is fetched from the backend at the URL; `insecure` where the token
    /// would travel unencrypted.
    Backend { url: String, insecure: bool },
    /// There is none.
    Absent,
}

/// The model of [`SecretSource`].
pub enum SourceModel {
    Configured(Seq<char>),
    Backend { url: Seq<char>, insecure: bool },
    Absent,
}

impl SecretSource {
    pub open spec fn view(&self) -> SourceModel {
        match self {
            SecretSource::Configured(s) => SourceModel::Configured(s@),
            SecretSource::Backend { url, insecure } => SourceModel::Backend {
                url: url@,
                insecure: *insecure,
            },
            SecretSource::Absent => SourceModel::Absent,
        }
    }
}

/// A configured secret wins over the backend; an empty setting is none.
pub open spec fn secret_source_of(
    secret_key: Option<Seq<char>>,
    backend_url: Option<Seq<char>>,
) -> SourceModel {
    match secret_key {
        Some(k) if k.len() > 0 => SourceModel::Configured(k),
        _ => match backend_url {
            Some(u) if u.len() > 0 => SourceModel::Backend {
                url: u,
                insecure: !text::starts_with(u, "https://"@),
            },
            _ => SourceModel::Absent,
        },
    }
}

/// Decides where the secret comes from.
pub fn secret_source(secret_key: &Option<String>, backend_url: &Option<String>) -> (r: SecretSource)
    ensures
        r.view() == secret_source_of(text::text_of(*secret_key), text::text_of(*backend_url)),
{
    match secret_key {
        Some(k) => {
            if !k.as_str().is_empty() {
                return SecretSource::Configured(k.clone());
            }
        },
        None => {},
    }
    match backend_url {
        Some(u) => {
            if !u.as_str().is_empty() {
                let chars = text::chars_of(u.as_str());
                let scheme = text::chars_of("https://");
                let secure = text::match_at(chars.as_slice(), scheme.as_slice(), 0);
                return SecretSource::Backend { url: u.clone(), insecure: !secure };
            }
        },
        None => {},
    }
    SecretSource::Absent
}

/// What a backend's reply gives: its secret where the status is 200 and the
/// body could be read, which may hold none.
pub open spec fn fetched(status: u32, reply: Option<Option<Seq<char>>>) -> Option<Seq<char>> {
    match reply {
        Some(secret) if status == 200 => secret,
        _ => None,
    }
}

/// What an optional reply holds.
pub open spec fn reply_text(reply: Option<Option<String>>) -> Option<Option<Seq<char>>> {
    match reply {
        Some(secret) => Some(text::text_of(secret)),
        None => None,
    }
}

/// The secret that a backend's reply gives. `reply` is what its body reads as,
/// `None` where it cannot be read.
pub fn fetched_secret(status: u32, reply: Option<Option<String>>) -> (r: Option<String>)
    ensures
        text::text_of(r) == fetched(status, reply_text(reply)),
{
    if status != 200 {
        return None;
    }
    match reply {
        Some(secret) => secret,
        None => None,
    }
}

/// The token as it is used: without surrounding white space. The second result
/// says that there was some.
pub fn normalize_token(token: &str) -> (r: (String, bool))
    ensures
        r.0@ == text::trim(token@),
        r.1 == (text::trim(token@).len() != token@.len()),
{
    let chars = text::chars_of(token);
    let trimmed = text::trim_chars(chars.as_slice());
    (text::string_of(trimmed.as_slice()), trimmed.len() != chars.len())
}

/// What is wrong with a status: nothing from 200 to 299.
pub open spec fn refusal(status: u32, body: Seq<u8>) -> Option<Seq<char>> {
    if 200 <= status < 300 {
        None
    } else {
        Some(
            "ingestService returned status "@ + text::decimal(status as nat) + ": "@
                + text::lossy_text(body),
        )
    }
}

/// Judges the reply to a posted batch: `None` where it was accepted, else what
/// is wrong with it.
pub fn batch_refusal(status: u32, body: &[u8]) -> (r: Option<String>)
    ensures
        text::text_of(r) == refusal(status, body@),
{
    if 200 <= status && status < 300 {
        return None;
    }
    let mut out = "ingestService returned status ".to_string();
    text::push_number(&mut out, status as u64, 10);
    out.append(": ");
    out.append(text::decode_lossy(body).as_str());
    Some(out)
}

// ---------------------------------------------------------------------------
// Laws
// ---------------------------------------------------------------------------

/// A configured secret is used, and the backend is asked only without one. The
/// URL is safe to send the token to where it begins with the secure scheme.
pub proof fn law_a_configured_secret_wins(key: Seq<char>, url: Seq<char>, rest: Seq<char>)
    ensures
        key.len() > 0 ==> secret_source_of(Some(key), Some(url)) == SourceModel::Configured(key)
            && secret_source_of(Some(key), None) == SourceModel::Configured(key),
        secret_source_of(None, None) == SourceModel::Absent,
        secret_source_of(Some(Seq::empty()), None) == SourceModel::Absent,
        secret_source_of(None, Some(Seq::empty())) == SourceModel::Absent,
        url.len() > 0 ==> secret_source_of(Some(Seq::empty()), Some(url)) == secret_source_of(
            None,
            Some(url),
        ),
        secret_source_of(None, Some("https://"@ + rest)) == (SourceModel::Backend {
            url: "https://"@ + rest,
            insecure: false,
        }),
        url.len() > 0 && (forall|r: Seq<char>| url != #[trigger] ("https://"@ + r))
            ==> secret_source_of(None, Some(url)) == (SourceModel::Backend { url, insecure: true }),
{
    reveal_strlit("https://");
    text::law_where_a_text_stands(Seq::empty(), "https://"@, rest);
    if text::starts_with(url, "https://"@) {
        assert(url =~= "https://"@ + url.skip(8));
    }
}

/// The backend's secret is used exactly where it answers with status 200 and a
/// body that gives one.
pub proof fn law_only_a_good_reply_gives_a_secret(
    status: u32,
    reply: Option<Option<Seq<char>>>,
    secret: Seq<char>,
)
    ensures
        fetched(status, reply) == Some(secret) <==> status == 200 && reply == Some(Some(secret)),
{
}

/// A batch is accepted exactly where its status is one of success; else the
/// refusal names the status and quotes the body.
pub proof fn law_success_is_two_hundred(status: u32, body: Seq<u8>)
    ensures
        refusal(status, body) is None <==> status / 100 == 2,
        status / 100 != 2 ==> refusal(status, body) == Some(
            "ingestService returned status "@ + text::decimal(status as nat) + ": "@
                + text::lossy_text(body),
        ),
{
}

} // verus!
