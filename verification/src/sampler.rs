//! Sampling: the independent coin per request and the keyed decision per
//! session.
//!
//! The keyed decision is
//!
//! ```text
//! K    = HMAC-SHA256(key = "cerberus-sampling-v1", msg = key material)
//! h    = u64_be(HMAC-SHA256(K, domain ‖ 0x00 ‖ key [‖ 0x00 ‖ decimal(epoch)])[0..8])
//! keep ⇔ rate ≥ 1, or rate > 0 and h < floor(rate · 2⁶⁴)
//! ```
//!
//! It depends on nothing but deployment-level key material and the key, so
//! every worker and replica reaches the same verdict; and as it compares with
//! a threshold, every key kept at a lower rate is kept at a higher one.

use vstd::prelude::*;
use vstd::string::*;

use crate::hash;
use crate::sample_rate::SampleRate;
use crate::text;

verus! {

/// Fixed derivation label for the sampling key. Versioned so that a change of
/// the decision rule can re-key deliberately.
pub const SAMPLING_KEY_DERIVATION_LABEL: &'static str = "cerberus-sampling-v1";

/// Hash domain of MCP session ids.
pub const DOMAIN_SESSION: &'static str = "session";

/// Hash domain of authenticated principals.
pub const DOMAIN_PRINCIPAL: &'static str = "principal";

/// Hash domain of user ids.
pub const DOMAIN_USER: &'static str = "user";

/// Hash domain of `Authorization` values.
pub const DOMAIN_AUTHORIZATION: &'static str = "authorization";

/// Epoch length of the rotated identity tiers: one week.
pub const EPOCH_SECONDS: u64 = 604_800;

// ---------------------------------------------------------------------------
// The keyed decision
// ---------------------------------------------------------------------------

/// The sampling key of a deployment.
pub open spec fn sampling_key(key_material: Seq<char>) -> Seq<u8> {
    hash::hmac_sha256(
        vstd::utf8::encode_utf8(SAMPLING_KEY_DERIVATION_LABEL@),
        vstd::utf8::encode_utf8(key_material),
    )@
}

/// The message that a decision hashes.
pub open spec fn decision_message(domain: Seq<char>, key: Seq<char>, epoch: Option<u64>) -> Seq<
    u8,
> {
    let front = vstd::utf8::encode_utf8(domain) + seq![0u8] + vstd::utf8::encode_utf8(key);
    match epoch {
        Some(e) => front + seq![0u8] + vstd::utf8::encode_utf8(text::decimal(e as nat)),
        None => front,
    }
}

/// The first eight bytes of a digest as a big-endian number.
pub open spec fn first_u64(d: Seq<u8>) -> u64 {
    (d[0] * 0x100_0000_0000_0000 + d[1] * 0x1_0000_0000_0000 + d[2] * 0x100_0000_0000 + d[3]
        * 0x1_0000_0000 + d[4] * 0x100_0000 + d[5] * 0x1_0000 + d[6] * 0x100 + d[7]) as u64
}

/// The decision hash under the sampling key `k`.
pub open spec fn decision_hash(
    k: Seq<u8>,
    domain: Seq<char>,
    key: Seq<char>,
    epoch: Option<u64>,
) -> u64 {
    first_u64(hash::hmac_sha256(k, decision_message(domain, key, epoch))@)
}

/// A key with decision hash `h` is kept at `rate`.
pub open spec fn keeps(rate: SampleRate, h: u64) -> bool {
    rate.at_least_one() || (rate.positive() && h < rate.threshold())
}

/// K = HMAC-SHA256(key = label, msg = key material).
pub fn derive_sampling_key(key_material: &str) -> (r: [u8; 32])
    ensures
        r@ == sampling_key(key_material@),
{
    hash::hmac(SAMPLING_KEY_DERIVATION_LABEL.as_bytes(), key_material.as_bytes())
}

/// floor(rate · 2⁶⁴), within the range of a `u64`.
pub fn threshold_for_rate(rate: SampleRate) -> (r: u64)
    ensures
        r == rate.threshold(),
{
    rate.to_threshold()
}

/// The keyed decision hash of (domain, key, epoch).
fn compute_decision_hash(k: &[u8; 32], domain: &str, key: &str, epoch: Option<u64>) -> (r: u64)
    ensures
        r == decision_hash(k@, domain@, key@, epoch),
{
    let mut message: Vec<u8> = Vec::new();
    message.extend_from_slice(domain.as_bytes());
    message.push(0);
    message.extend_from_slice(key.as_bytes());
    proof {
        assert(message@ =~= decision_message(domain@, key@, None));
    }
    match epoch {
        Some(e) => {
            let digits = text::decimal_text(e);
            message.push(0);
            message.extend_from_slice(digits.as_str().as_bytes());
            proof {
                assert(message@ =~= decision_message(domain@, key@, Some(e)));
            }
        },
        None => {},
    }
    let d = hash::hmac(k.as_slice(), message.as_slice());
    d[0] as u64 * 0x100_0000_0000_0000 + d[1] as u64 * 0x1_0000_0000_0000 + d[2] as u64
        * 0x100_0000_0000 + d[3] as u64 * 0x1_0000_0000 + d[4] as u64 * 0x100_0000 + d[5] as u64
        * 0x1_0000 + d[6] as u64 * 0x100 + d[7] as u64
}

/// The whole decision: the decision hash, and whether the key is kept.
pub fn keyed_decision(
    key_material: &str,
    domain: &str,
    key: &str,
    epoch: Option<u64>,
    rate: SampleRate,
) -> (r: (u64, bool))
    ensures
        r.0 == decision_hash(sampling_key(key_material@), domain@, key@, epoch),
        r.1 == keeps(rate, r.0),
{
    let derived = derive_sampling_key(key_material);
    let h = compute_decision_hash(&derived, domain, key, epoch);
    let keep = rate.is_at_least_one() || (rate.is_positive() && h < threshold_for_rate(rate));
    (h, keep)
}

/// Deterministic keyed-threshold sampler.
pub struct KeyedSampler {
    rate: SampleRate,
    threshold: u64,
    key: [u8; 32],
}

impl KeyedSampler {
    /// The rate at which the sampler keeps keys.
    pub closed spec fn rate(&self) -> SampleRate {
        self.rate
    }

    /// The sampling key.
    pub closed spec fn key(&self) -> Seq<u8> {
        self.key@
    }

    /// The stored threshold is that of the rate.
    pub closed spec fn wf(&self) -> bool {
        self.threshold == self.rate.threshold()
    }

    /// A sampler for a deployment. `key_material` is the same on every replica.
    pub fn new(rate: SampleRate, key_material: &str) -> (r: KeyedSampler)
        ensures
            r.wf(),
            r.rate() == rate,
            r.key() == sampling_key(key_material@),
    {
        KeyedSampler {
            rate,
            threshold: threshold_for_rate(rate),
            key: derive_sampling_key(key_material),
        }
    }

    /// Whether the sampler keeps (domain, key, epoch). Rates of 1 and 0 decide
    /// without hashing.
    pub fn keep(&self, domain: &str, key: &str, epoch: Option<u64>) -> (r: bool)
        requires
            self.wf(),
        ensures
            r == keeps(self.rate(), decision_hash(self.key(), domain@, key@, epoch)),
    {
        if self.rate.is_at_least_one() {
            return true;
        }
        if !self.rate.is_positive() {
            return false;
        }
        compute_decision_hash(&self.key, domain, key, epoch) < self.threshold
    }
}

// ---------------------------------------------------------------------------
// The coin
// ---------------------------------------------------------------------------

/// The SplitMix64 increment.
pub const GAMMA: u64 = 0x9e37_79b9_7f4a_7c15;

/// The SplitMix64 state after one step.
pub open spec fn next_state(state: u64) -> u64 {
    state.wrapping_add(GAMMA)
}

/// The SplitMix64 output for a state.
pub open spec fn mixed(state: u64) -> u64 {
    let a = (state ^ (state >> 30)).wrapping_mul(0xbf58_476d_1ce4_e5b9);
    let b = (a ^ (a >> 27)).wrapping_mul(0x94d0_49bb_1331_11eb);
    b ^ (b >> 31)
}

/// One SplitMix64 step: advances the state and returns the mixed output.
pub fn splitmix64(state: &mut u64) -> (r: u64)
    ensures
        *final(state) == next_state(*old(state)),
        r == mixed(*final(state)),
{
    *state = state.wrapping_add(GAMMA);
    let mut z: u64 = *state;
    z = (z ^ (z >> 30)).wrapping_mul(0xbf58_476d_1ce4_e5b9);
    z = (z ^ (z >> 27)).wrapping_mul(0x94d0_49bb_1331_11eb);
    z ^ (z >> 31)
}

/// Maps a draw onto the range from 0 up to 1, in units of 2⁻⁵³: its top 53
/// bits. The largest is 2⁵³ - 1, so that 1 is never reached.
pub fn unit_interval(x: u64) -> (r: u64)
    ensures
        r == x / 2048,
        r < 0x20_0000_0000_0000,
{
    x / 2048
}

/// The verdict of a coin of the given rate whose generator stands at `state`.
pub open spec fn coin_verdict(rate: SampleRate, state: u64) -> bool {
    rate.at_least_one() || (rate.positive() && rate.exceeds_draw(
        (mixed(next_state(state)) / 2048) as nat,
    ))
}

/// The state that a flip leaves. Rates of 1 and 0 decide without drawing.
pub open spec fn coin_next(rate: SampleRate, state: u64) -> u64 {
    if rate.positive() && !rate.at_least_one() {
        next_state(state)
    } else {
        state
    }
}

/// Independent draw per request.
pub struct Coin {
    rate: SampleRate,
    state: u64,
}

impl Coin {
    /// The probability of a capture.
    pub closed spec fn rate(&self) -> SampleRate {
        self.rate
    }

    /// The state of the generator.
    pub closed spec fn state(&self) -> u64 {
        self.state
    }

    /// A coin whose generator starts at `seed`.
    pub fn new(rate: SampleRate, seed: u64) -> (r: Coin)
        ensures
            r.rate() == rate,
            r.state() == seed,
    {
        Coin { rate, state: seed }
    }

    /// Flips the coin: true where the request is to be captured.
    pub fn flip(&mut self) -> (r: bool)
        ensures
            r == coin_verdict(old(self).rate(), old(self).state()),
            final(self).rate() == old(self).rate(),
            final(self).state() == coin_next(old(self).rate(), old(self).state()),
    {
        if self.rate.is_at_least_one() {
            return true;
        }
        if !self.rate.is_positive() {
            return false;
        }
        let x = splitmix64(&mut self.state);
        self.rate.is_above_draw(unit_interval(x))
    }
}

// ---------------------------------------------------------------------------
// Laws
// ---------------------------------------------------------------------------

/// The sampled sets nest: a key kept at one rate is kept at every larger rate.
pub proof fn law_sampled_sets_nest(lower: SampleRate, higher: SampleRate, h: u64)
    requires
        lower.at_most(higher),
        keeps(lower, h),
    ensures
        keeps(higher, h),
{
    crate::sample_rate::law_threshold_grows_with_rate(lower, higher);
    vstd::arithmetic::power2::lemma_pow2_pos(1074);
}

/// Rate 1 keeps every key and rate 0 keeps none, for the keyed decision and
/// for the coin alike.
pub proof fn law_rate_bounds_decide(rate: SampleRate, h: u64, state: u64)
    ensures
        rate.at_least_one() ==> keeps(rate, h) && coin_verdict(rate, state),
        !rate.positive() ==> !keeps(rate, h) && !coin_verdict(rate, state),
{
    vstd::arithmetic::power2::lemma_pow2_pos(1074);
}

/// The text holds no NUL character, as no header value or host name does.
pub open spec fn no_nul(s: Seq<char>) -> bool {
    forall|i: int| 0 <= i < s.len() ==> #[trigger] s[i] != '\0'
}

/// No byte is zero.
spec fn no_zero(b: Seq<u8>) -> bool {
    forall|i: int| 0 <= i < b.len() ==> #[trigger] b[i] != 0
}

/// The encoding of a character other than NUL holds no zero byte.
proof fn lemma_char_has_no_zero(c: char)
    requires
        c != '\0',
    ensures
        no_zero(vstd::utf8::encode_scalar(c as u32)),
{
    let v = c as u32;
    assert(v <= 0x7f && v != 0 ==> (v & 0x7f) as u8 != 0) by (bit_vector);
    assert(0xc0u8 | ((v >> 6) & 0x1f) as u8 != 0) by (bit_vector);
    assert(0xe0u8 | ((v >> 12) & 0x0f) as u8 != 0) by (bit_vector);
    assert(0xf0u8 | ((v >> 18) & 0x7) as u8 != 0) by (bit_vector);
    assert(0x80u8 | (v & 0x3f) as u8 != 0) by (bit_vector);
    assert(0x80u8 | ((v >> 6) & 0x3f) as u8 != 0) by (bit_vector);
    assert(0x80u8 | ((v >> 12) & 0x3f) as u8 != 0) by (bit_vector);
}

/// The encoding of a text without NUL holds no zero byte.
proof fn lemma_text_has_no_zero(s: Seq<char>)
    requires
        no_nul(s),
    ensures
        no_zero(vstd::utf8::encode_utf8(s)),
    decreases s.len(),
{
    if s.len() > 0 {
        lemma_char_has_no_zero(s[0]);
        lemma_text_has_no_zero(s.drop_first());
    }
}

/// Two texts with one encoding are equal.
proof fn lemma_encoding_is_injective(a: Seq<char>, b: Seq<char>)
    requires
        vstd::utf8::encode_utf8(a) == vstd::utf8::encode_utf8(b),
    ensures
        a == b,
{
    vstd::utf8::encode_utf8_decode_utf8(a);
    vstd::utf8::encode_utf8_decode_utf8(b);
}

/// What stands before and after the first zero byte is unique.
proof fn lemma_first_zero_splits(a: Seq<u8>, x: Seq<u8>, b: Seq<u8>, y: Seq<u8>)
    requires
        no_zero(a),
        no_zero(b),
        a + seq![0u8] + x == b + seq![0u8] + y,
    ensures
        a == b,
        x == y,
{
    let s = a + seq![0u8] + x;
    let t = b + seq![0u8] + y;
    assert(s[a.len() as int] == 0);
    assert(t[b.len() as int] == 0);
    if a.len() < b.len() {
        assert(t[a.len() as int] == b[a.len() as int]);
    } else if b.len() < a.len() {
        assert(s[b.len() as int] == a[b.len() as int]);
    }
    assert(a =~= s.take(a.len() as int));
    assert(b =~= t.take(b.len() as int));
    assert(x =~= s.skip((a.len() + 1) as int));
    assert(y =~= t.skip((b.len() + 1) as int));
}

/// Domain separation: different (domain, key, epoch) triples never hash the
/// same message, as long as domain and key hold no NUL.
pub proof fn law_decisions_are_separate(
    d1: Seq<char>,
    k1: Seq<char>,
    e1: Option<u64>,
    d2: Seq<char>,
    k2: Seq<char>,
    e2: Option<u64>,
)
    requires
        no_nul(d1),
        no_nul(k1),
        no_nul(d2),
        no_nul(k2),
        decision_message(d1, k1, e1) == decision_message(d2, k2, e2),
    ensures
        d1 == d2,
        k1 == k2,
        e1 == e2,
{
    let (a1, b1) = (vstd::utf8::encode_utf8(d1), vstd::utf8::encode_utf8(k1));
    let (a2, b2) = (vstd::utf8::encode_utf8(d2), vstd::utf8::encode_utf8(k2));
    lemma_text_has_no_zero(d1);
    lemma_text_has_no_zero(k1);
    lemma_text_has_no_zero(d2);
    lemma_text_has_no_zero(k2);
    let x1 = match e1 {
        Some(e) => b1 + seq![0u8] + vstd::utf8::encode_utf8(text::decimal(e as nat)),
        None => b1,
    };
    let x2 = match e2 {
        Some(e) => b2 + seq![0u8] + vstd::utf8::encode_utf8(text::decimal(e as nat)),
        None => b2,
    };
    assert(decision_message(d1, k1, e1) =~= a1 + seq![0u8] + x1);
    assert(decision_message(d2, k2, e2) =~= a2 + seq![0u8] + x2);
    lemma_first_zero_splits(a1, x1, a2, x2);
    lemma_encoding_is_injective(d1, d2);
    match (e1, e2) {
        (Some(m), Some(n)) => {
            let (c1, c2) = (
                vstd::utf8::encode_utf8(text::decimal(m as nat)),
                vstd::utf8::encode_utf8(text::decimal(n as nat)),
            );
            lemma_first_zero_splits(b1, c1, b2, c2);
            lemma_encoding_is_injective(text::decimal(m as nat), text::decimal(n as nat));
            text::decimal_is_injective(m as nat, n as nat);
        },
        (Some(_), None) => {
            assert(x1[b1.len() as int] == 0);
        },
        (None, Some(_)) => {
            assert(x2[b2.len() as int] == 0);
        },
        (None, None) => {},
    }
    lemma_encoding_is_injective(k1, k2);
}

/// A key is kept at a rate between 0 and 1 exactly where its hash, as a fraction
/// of 2⁶⁴, lies below the rate by at least one part in 2⁶⁴: so the share of the
/// hashes that are kept is the rate.
pub proof fn law_the_rate_is_the_share_kept(rate: SampleRate, h: u64)
    requires
        rate.positive(),
        !rate.at_least_one(),
    ensures
        keeps(rate, h) <==> (h + 1) * vstd::arithmetic::power2::pow2(1010) <= rate.units(),
{
    let unit = vstd::arithmetic::power2::pow2(1010) as int;
    let (u, t) = (rate.units() as int, rate.threshold() as int);
    crate::sample_rate::law_threshold_is_exact(rate);
    vstd::arithmetic::power2::lemma_pow2_pos(1010);
    if h < t {
        assert((h + 1) * unit <= t * unit) by (nonlinear_arith)
            requires
                h + 1 <= t,
                unit > 0,
        ;
    } else {
        assert((h + 1) * unit >= (t + 1) * unit) by (nonlinear_arith)
            requires
                h >= t,
                unit > 0,
        ;
    }
}

/// The decision hashes, under the deployment's key, the domain, a zero byte and
/// the key, and behind another zero byte the epoch where there is one; the hash
/// is the first eight bytes of the digest, most significant first.
pub proof fn law_the_hash_is_eight_bytes_of_the_digest(
    k: Seq<u8>,
    domain: Seq<char>,
    key: Seq<char>,
    epoch: Option<u64>,
    message: Seq<u8>,
)
    requires
        message == vstd::utf8::encode_utf8(domain) + seq![0u8] + vstd::utf8::encode_utf8(key) + (
        match epoch {
            Some(e) => seq![0u8] + vstd::utf8::encode_utf8(text::decimal(e as nat)),
            None => Seq::empty(),
        }),
    ensures
        ({
            let d = hash::hmac_sha256(k, message)@;
            let h = decision_hash(k, domain, key, epoch);
            &&& h / 0x100_0000_0000_0000 == d[0]
            &&& h / 0x1_0000_0000_0000 % 256 == d[1]
            &&& h / 0x100_0000_0000 % 256 == d[2]
            &&& h / 0x1_0000_0000 % 256 == d[3]
            &&& h / 0x100_0000 % 256 == d[4]
            &&& h / 0x1_0000 % 256 == d[5]
            &&& h / 0x100 % 256 == d[6]
            &&& h % 256 == d[7]
        }),
{
    assert(decision_message(domain, key, epoch) =~= message);
    lemma_bytes_of_first_u64(hash::hmac_sha256(k, message)@);
}

/// The bytes of a number made of eight.
proof fn lemma_bytes_of_first_u64(d: Seq<u8>)
    requires
        d.len() == 32,
    ensures
        first_u64(d) / 0x100_0000_0000_0000 == d[0],
        first_u64(d) / 0x1_0000_0000_0000 % 256 == d[1],
        first_u64(d) / 0x100_0000_0000 % 256 == d[2],
        first_u64(d) / 0x1_0000_0000 % 256 == d[3],
        first_u64(d) / 0x100_0000 % 256 == d[4],
        first_u64(d) / 0x1_0000 % 256 == d[5],
        first_u64(d) / 0x100 % 256 == d[6],
        first_u64(d) % 256 == d[7],
{
    let h = first_u64(d) as int;
    let a = d[0] as int;
    let b = a * 256 + d[1];
    let c = b * 256 + d[2];
    let e = c * 256 + d[3];
    let f = e * 256 + d[4];
    let g = f * 256 + d[5];
    let i = g * 256 + d[6];
    assert(h == i * 256 + d[7]);
    lemma_front_and_byte(h, i, d[7] as int, 0x100);
    lemma_front_and_byte(h, g, d[6] * 0x100 + d[7], 0x1_0000);
    lemma_front_and_byte(h, f, d[5] * 0x1_0000 + d[6] * 0x100 + d[7], 0x100_0000);
    lemma_front_and_byte(
        h,
        e,
        d[4] * 0x100_0000 + d[5] * 0x1_0000 + d[6] * 0x100 + d[7],
        0x1_0000_0000,
    );
    lemma_front_and_byte(
        h,
        c,
        d[3] * 0x1_0000_0000 + d[4] * 0x100_0000 + d[5] * 0x1_0000 + d[6] * 0x100 + d[7],
        0x100_0000_0000,
    );
    lemma_front_and_byte(
        h,
        b,
        d[2] * 0x100_0000_0000 + d[3] * 0x1_0000_0000 + d[4] * 0x100_0000 + d[5] * 0x1_0000 + d[6]
            * 0x100 + d[7],
        0x1_0000_0000_0000,
    );
    lemma_front_and_byte(
        h,
        a,
        d[1] * 0x1_0000_0000_0000 + d[2] * 0x100_0000_0000 + d[3] * 0x1_0000_0000 + d[4]
            * 0x100_0000 + d[5] * 0x1_0000 + d[6] * 0x100 + d[7],
        0x100_0000_0000_0000,
    );
    lemma_front_and_byte(b, a, d[1] as int, 256);
    lemma_front_and_byte(c, b, d[2] as int, 256);
    lemma_front_and_byte(e, c, d[3] as int, 256);
    lemma_front_and_byte(f, e, d[4] as int, 256);
    lemma_front_and_byte(g, f, d[5] as int, 256);
    lemma_front_and_byte(i, g, d[6] as int, 256);
}

/// Dividing takes the lower part off.
proof fn lemma_front_and_byte(n: int, front: int, low: int, unit: int)
    requires
        unit > 0,
        0 <= low < unit,
        n == front * unit + low,
    ensures
        n / unit == front,
        n % unit == low,
{
    vstd::arithmetic::div_mod::lemma_fundamental_div_mod_converse(n, unit, front, low);
}

/// The deployment's key is the digest of its key material under a fixed label.
pub proof fn law_the_key_is_derived_from_the_material(material: Seq<char>)
    ensures
        sampling_key(material) == hash::hmac_sha256(
            vstd::utf8::encode_utf8("cerberus-sampling-v1"@),
            vstd::utf8::encode_utf8(material),
        )@,
{
}

/// A coin of a larger rate keeps whatever one of a smaller rate keeps at the same
/// point of the sequence.
pub proof fn law_coins_nest(lower: SampleRate, higher: SampleRate, state: u64)
    requires
        lower.at_most(higher),
        coin_verdict(lower, state),
    ensures
        coin_verdict(higher, state),
{
    vstd::arithmetic::power2::lemma_pow2_pos(1074);
    vstd::arithmetic::power2::lemma_pow2_pos(1021);
    let draw = (mixed(next_state(state)) / 2048) as nat;
    if !lower.at_least_one() {
        let d = draw * vstd::arithmetic::power2::pow2(1021);
        assert(d < lower.signed_units());
    }
}

/// A coin of a rate between 0 and 1 keeps a request exactly where its draw, a
/// multiple of 2⁻⁵³, is less than the rate; and every flip moves its generator
/// on by one step.
pub proof fn law_a_flip_draws_once(rate: SampleRate, state: u64)
    requires
        rate.positive(),
        !rate.at_least_one(),
    ensures
        coin_verdict(rate, state) <==> (mixed(coin_next(rate, state)) / 2048)
            * vstd::arithmetic::power2::pow2(1021) < rate.units(),
        coin_next(rate, state) as int == (state + 0x9e37_79b9_7f4a_7c15) % 0x1_0000_0000_0000_0000,
        coin_next(rate, state) != state,
{
}

} // verus!
