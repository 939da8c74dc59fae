//! HMAC-SHA256 pseudonyms, and the canonical form of an IP address.

use hmac::Mac;
use vstd::prelude::*;
use vstd::string::*;

use crate::ip;
use crate::text;

verus! {

/// What HMAC-SHA256 returns for a key and a message.
pub uninterp spec fn hmac_sha256(key: Seq<u8>, message: Seq<u8>) -> [u8; 32];

/// Computes `hmac::Hmac<sha2::Sha256>` over `message`: 32 bytes that depend on
/// key and message alone. HMAC takes a key of any length, so
/// `new_from_slice` does not fail.
#[verifier::external_body]
pub(crate) fn hmac(key: &[u8], message: &[u8]) -> (r: [u8; 32])
    ensures
        r == hmac_sha256(key@, message@),
{
    let mut mac = hmac::Hmac::<sha2::Sha256>::new_from_slice(key)
        .expect("HMAC-SHA256 accepts any key length");
    mac.update(message);
    mac.finalize().into_bytes().into()
}

/// Two lowercase hexadecimal digits for each byte.
pub open spec fn hex_text(bytes: Seq<u8>) -> Seq<char>
    decreases bytes.len(),
{
    if bytes.len() == 0 {
        Seq::empty()
    } else {
        hex_text(bytes.drop_last()).push(
            text::digit_char((bytes.last() / 16) as nat),
        ).push(text::digit_char((bytes.last() % 16) as nat))
    }
}

/// Calls `hex::encode`, which writes two lowercase hexadecimal digits for each
/// byte.
#[verifier::external_body]
fn hex_encode(bytes: &[u8]) -> (r: String)
    ensures
        r@ == hex_text(bytes@),
{
    hex::encode(bytes)
}

/// The pseudonym of `value` under `secret`.
pub open spec fn pii_hash(value: Seq<char>, secret: Seq<char>) -> Seq<char> {
    hex_text(hmac_sha256(vstd::utf8::encode_utf8(secret), vstd::utf8::encode_utf8(value))@)
}

/// HMAC-SHA256 of `value` keyed on `secret`, in lowercase hexadecimal. The
/// same input always gives the same digest, so equal values can be told to be
/// equal without being stored.
pub fn hash_pii(value: &str, secret: &str) -> (r: String)
    ensures
        r@ == pii_hash(value@, secret@),
        r@.len() == 64,
{
    let digest = hmac(secret.as_bytes(), value.as_bytes());
    proof {
        hex_text_length(digest@);
    }
    hex_encode(digest.as_slice())
}

/// A hexadecimal text has two characters for each byte.
proof fn hex_text_length(bytes: Seq<u8>)
    ensures
        hex_text(bytes).len() == 2 * bytes.len(),
    decreases bytes.len(),
{
    if bytes.len() > 0 {
        hex_text_length(bytes.drop_last());
    }
}

/// The part of an IP text that is read as an address: what stands before a
/// zone index, without surrounding white space.
pub open spec fn ip_candidate(s: Seq<char>) -> Seq<char> {
    text::trim(text::before(s, '%'))
}

/// The canonical form of an IP text; a text that holds no address stays as it
/// is.
pub open spec fn normalized_ip(s: Seq<char>) -> Seq<char> {
    match ip::ip_address(ip_candidate(s)) {
        Some(a) => ip::ip_text(a),
        None => s,
    }
}

/// Brings an IP text to its canonical form, so that the same address always
/// hashes to the same pseudonym: the IPv6 zone index and surrounding white
/// space go, IPv4 is written in dotted decimal, IPv6 in compressed groups. A
/// text that holds no address is returned as it is.
pub fn normalize_ip(ip_string: &str) -> (r: String)
    ensures
        r@ == normalized_ip(ip_string@),
{
    let chars = text::chars_of(ip_string);
    let no_zone = text::chars_before(chars.as_slice(), '%');
    let candidate = text::trim_chars(no_zone.as_slice());
    match ip::read_ip(candidate.as_slice()) {
        Some(ip::IpAddress::V4(o)) => ip::format_ipv4(&o),
        Some(ip::IpAddress::V6(g)) => ip::format_ipv6(&g),
        None => ip_string.to_string(),
    }
}

/// Two texts of one address have one canonical form, and so one pseudonym.
pub proof fn law_same_address_same_pseudonym(a: Seq<char>, b: Seq<char>, secret: Seq<char>)
    requires
        ip::ip_address(ip_candidate(a)) is Some,
        ip::ip_address(ip_candidate(a)) == ip::ip_address(ip_candidate(b)),
    ensures
        normalized_ip(a) == normalized_ip(b),
        pii_hash(normalized_ip(a), secret) == pii_hash(normalized_ip(b), secret),
{
}

/// The canonical form is a fixed point: bringing a text to it once more changes
/// nothing. A text that holds no address is left untouched in the first place.
pub proof fn law_canonical_form_is_a_fixed_point(s: Seq<char>)
    ensures
        normalized_ip(normalized_ip(s)) == normalized_ip(s),
        ip::ip_address(ip_candidate(s)) is None ==> normalized_ip(s) == s,
{
    match ip::ip_address(ip_candidate(s)) {
        Some(a) => {
            let t = ip::ip_text(a);
            ip::address_has_its_parts(ip_candidate(s));
            ip::law_ip_text_reads_back(a);
            ip::ip_text_is_plain(a);
            t.index_of_first_ensures('%');
            text::trim_keeps(t);
            assert(ip_candidate(t) == t);
        },
        None => {},
    }
}

/// A pseudonym is the digest of the value under the secret, and of nothing else:
/// the secret is the key, the value the message, each in UTF-8, and every byte of
/// the digest is written in two digits, the upper half first.
pub proof fn law_a_pseudonym_is_the_digest(value: Seq<char>, secret: Seq<char>, i: int)
    requires
        0 <= i < 32,
    ensures
        ({
            let digest = hmac_sha256(
                vstd::utf8::encode_utf8(secret),
                vstd::utf8::encode_utf8(value),
            )@;
            &&& pii_hash(value, secret).len() == 64
            &&& pii_hash(value, secret)[2 * i] == text::digit_char((digest[i] / 16) as nat)
            &&& pii_hash(value, secret)[2 * i + 1] == text::digit_char((digest[i] % 16) as nat)
        }),
{
    let digest = hmac_sha256(vstd::utf8::encode_utf8(secret), vstd::utf8::encode_utf8(value))@;
    lemma_hex_digits(digest, i);
}

/// The digits of one byte.
proof fn lemma_hex_digits(bytes: Seq<u8>, i: int)
    requires
        0 <= i < bytes.len(),
    ensures
        hex_text(bytes).len() == 2 * bytes.len(),
        hex_text(bytes)[2 * i] == text::digit_char((bytes[i] / 16) as nat),
        hex_text(bytes)[2 * i + 1] == text::digit_char((bytes[i] % 16) as nat),
    decreases bytes.len(),
{
    hex_text_length(bytes);
    hex_text_length(bytes.drop_last());
    if i < bytes.len() - 1 {
        lemma_hex_digits(bytes.drop_last(), i);
    }
}

/// White space around an address, and a zone index behind it, do not tell two
/// addresses apart.
pub proof fn law_zone_and_space_do_not_count(address: Seq<char>, zone: Seq<char>)
    requires
        !address.contains('%'),
        ip::ip_address(text::trim(address)) is Some,
    ensures
        normalized_ip(address + seq!['%'] + zone) == normalized_ip(text::trim(address)),
        normalized_ip(address) == normalized_ip(text::trim(address)),
        normalized_ip(address) == ip::ip_text(ip::ip_address(text::trim(address))->0),
{
    let s = address + seq!['%'] + zone;
    address.index_of_first_ensures('%');
    s.index_of_first_ensures('%');
    assert(s[address.len() as int] == '%');
    assert(s.contains('%'));
    let i = s.index_of_first('%')->0;
    if i < address.len() {
        assert(address[i] == '%');
    }
    assert(s.take(address.len() as int) =~= address);
    let t = text::trim(address);
    text::law_trim_takes_off_white_space(address);
    let (a, b) = choose|a: int, b: int| #[trigger]
        text::trims_to(address, a, b) && t == address.subrange(a, b);
    if t.contains('%') {
        let k = choose|k: int| 0 <= k < t.len() && t[k] == '%';
        assert(address[a + k] == '%');
    }
    t.index_of_first_ensures('%');
    text::law_trimming_is_done_once(address);
}

} // verus!
