//! The source address of a request: the first hop that the configured header
//! names, or else the source of the connection.

use vstd::prelude::*;
use vstd::string::*;

use crate::text;

verus! {

/// An address without its port: the part in brackets, or what stands before
/// the only colon. A text with several colons and no brackets is an IPv6
/// address without a port.
pub open spec fn without_port(s: Seq<char>) -> Seq<char> {
    let t = text::trim(s);
    if t.len() > 0 && t[0] == '[' && t.skip(1).contains(']') {
        text::before(t.skip(1), ']')
    } else {
        match t.index_of_first(':') {
            Some(i) => if t.skip(i + 1).contains(':') {
                t
            } else {
                t.take(i)
            },
            None => t,
        }
    }
}

/// The first hop that a header value names.
pub open spec fn first_hop(value: Seq<char>) -> Seq<char> {
    text::trim(text::before(value, ','))
}

/// The source address of a request; `None` where neither the header nor the
/// connection yields one. A blank text yields none.
pub open spec fn resolved(header: Option<Seq<char>>, source: Option<Seq<u8>>) -> Option<Seq<char>> {
    match header {
        Some(v) if first_hop(v).len() > 0 => Some(without_port(first_hop(v))),
        _ => match source {
            Some(b) if vstd::utf8::valid_utf8(b) && text::trim(vstd::utf8::decode_utf8(b)).len()
                > 0 => Some(without_port(vstd::utf8::decode_utf8(b))),
            _ => None,
        },
    }
}

/// The bytes of an optional vector.
pub open spec fn bytes_of(b: Option<Vec<u8>>) -> Option<Seq<u8>> {
    match b {
        Some(b) => Some(b@),
        None => None,
    }
}

/// Strips the port off an address.
pub fn strip_port(s: &str) -> (r: String)
    ensures
        r@ == without_port(s@),
{
    let all = text::chars_of(s);
    let t = text::trim_chars(all.as_slice());
    let n: usize = t.len();
    if n > 0 && t[0] == '[' {
        let inner = text::slice_from(t.as_slice(), 1);
        let end = text::find_char(inner, ']');
        if end < inner.len() {
            proof {
                assert(inner@[end as int] == ']');
                assert(inner@.contains(']'));
                assert(inner@.subrange(0, end as int) =~= inner@.take(end as int));
            }
            return text::string_of(text::copy_range(inner, 0, end).as_slice());
        }
        proof {
            assert(!t@.skip(1).contains(']'));
        }
    }
    let colon = text::find_char(t.as_slice(), ':');
    if colon < n {
        let rest = text::slice_from(t.as_slice(), colon + 1);
        let next = text::find_char(rest, ':');
        if next == rest.len() {
            proof {
                assert(!t@.skip(colon + 1).contains(':'));
                assert(t@.subrange(0, colon as int) =~= t@.take(colon as int));
            }
            return text::string_of(text::copy_range(t.as_slice(), 0, colon).as_slice());
        }
        proof {
            assert(rest@[next as int] == ':');
            assert(t@.skip(colon + 1).contains(':'));
        }
    }
    text::string_of(t.as_slice())
}

/// Picks the source address from the value of the configured header, or else
/// from the connection's source, whose bytes are taken where they are text and
/// not blank.
pub fn resolve(
    client_ip_header_value: Option<String>,
    source_address: Option<Vec<u8>>,
) -> (r: Option<String>)
    ensures
        text::text_of(r) == resolved(
            text::text_of(client_ip_header_value),
            bytes_of(source_address),
        ),
{
    match client_ip_header_value {
        Some(value) => {
            let chars = text::chars_of(value.as_str());
            let front = text::chars_before(chars.as_slice(), ',');
            let hop = text::trim_chars(front.as_slice());
            if hop.len() > 0 {
                return Some(strip_port(text::string_of(hop.as_slice()).as_str()));
            }
        },
        None => {},
    }
    match source_address {
        Some(bytes) => match text::decode_utf8(bytes.as_slice()) {
            Some(s) => {
                let trimmed = text::trimmed(s.as_str());
                if trimmed.as_str().is_empty() {
                    None
                } else {
                    Some(strip_port(s.as_str()))
                }
            },
            None => None,
        },
        None => None,
    }
}

// ---------------------------------------------------------------------------
// Laws
// ---------------------------------------------------------------------------

/// The header wins over the connection: its first hop that is not blank is the
/// source, and the connection counts only where there is none.
pub proof fn law_the_first_hop_wins(
    hop: Seq<char>,
    more: Seq<char>,
    source: Option<Seq<u8>>,
    text_of_source: Seq<char>,
)
    requires
        !hop.contains(','),
    ensures
        text::trim(hop).len() > 0 ==> resolved(Some(hop + seq![','] + more), source) == Some(
            without_port(text::trim(hop)),
        ) && resolved(Some(hop), source) == Some(without_port(text::trim(hop))),
        text::trim(hop).len() == 0 ==> resolved(Some(hop + seq![','] + more), source) == resolved(
            None,
            source,
        ) && resolved(Some(hop), source) == resolved(None, source),
        resolved(None, None) is None,
        text::trim(text_of_source).len() > 0 ==> resolved(
            None,
            Some(vstd::utf8::encode_utf8(text_of_source)),
        ) == Some(without_port(text_of_source)),
        text::trim(text_of_source).len() == 0 ==> resolved(
            None,
            Some(vstd::utf8::encode_utf8(text_of_source)),
        ) is None,
{
    let v = hop + seq![','] + more;
    hop.index_of_first_ensures(',');
    v.index_of_first_ensures(',');
    assert(v[hop.len() as int] == ',');
    assert(v.contains(','));
    let i = v.index_of_first(',')->0;
    if i < hop.len() {
        assert(hop[i] == ',');
        assert(hop.contains(','));
    }
    assert(v.take(hop.len() as int) =~= hop);
    vstd::utf8::encode_utf8_decode_utf8(text_of_source);
    vstd::utf8::encode_utf8_valid_utf8(text_of_source);
}

/// A port goes: from behind a host, and from behind a bracketed address along
/// with the brackets. A host alone, and an IPv6 address without brackets, stay as
/// they are.
pub proof fn law_the_port_goes(host: Seq<char>, port: Seq<char>, address: Seq<char>)
    requires
        host.len() > 0,
        !host.contains(':'),
        !port.contains(':'),
        host[0] != '[',
        !address.contains(']'),
        forall|k: int| 0 <= k < host.len() ==> !text::is_space(#[trigger] host[k]),
        forall|k: int| 0 <= k < port.len() ==> !text::is_space(#[trigger] port[k]),
        forall|k: int| 0 <= k < address.len() ==> !text::is_space(#[trigger] address[k]),
    ensures
        without_port(host) == host,
        without_port(host + seq![':'] + port) == host,
        without_port(seq!['['] + address + seq![']']) == address,
        without_port(seq!['['] + address + seq![']', ':'] + port) == address,
        address.len() > 0 && address[0] != '[' && (exists|i: int, j: int|
            0 <= i < j < address.len() && #[trigger] address[i] == ':' && #[trigger] address[j]
                == ':') ==> without_port(address) == address,
{
    text::trim_keeps(host);
    host.index_of_first_ensures(':');

    let a = host + seq![':'] + port;
    text::trim_keeps(a);
    assert(a[host.len() as int] == ':');
    assert(a.contains(':'));
    a.index_of_first_ensures(':');
    let i = a.index_of_first(':')->0;
    if i < host.len() {
        assert(host[i] == ':');
    }
    assert(a.skip(i + 1) =~= port);
    assert(a.take(i) =~= host);

    let b = seq!['['] + address + seq![']'];
    text::trim_keeps(b);
    lemma_bracketed(b, address, seq![']']);
    let c = seq!['['] + address + seq![']', ':'] + port;
    text::trim_keeps(c);
    assert(c =~= seq!['['] + address + (seq![']', ':'] + port));
    lemma_bracketed(c, address, seq![']', ':'] + port);

    if address.len() > 0 && address[0] != '[' && (exists|i: int, j: int|
        0 <= i < j < address.len() && #[trigger] address[i] == ':' && #[trigger] address[j] == ':') {
        let (x, y) = choose|i: int, j: int|
            0 <= i < j < address.len() && #[trigger] address[i] == ':' && #[trigger] address[j]
                == ':';
        text::trim_keeps(address);
        assert(address.contains(':'));
        address.index_of_first_ensures(':');
        let k = address.index_of_first(':')->0;
        assert(k <= x);
        assert(address.skip(k + 1)[y - k - 1] == ':');
        assert(address.skip(k + 1).contains(':'));
    }
}

/// What stands in brackets ends at the closing one.
proof fn lemma_bracketed(s: Seq<char>, inner: Seq<char>, rest: Seq<char>)
    requires
        s == seq!['['] + inner + rest,
        rest.len() > 0,
        rest[0] == ']',
        !inner.contains(']'),
    ensures
        s.skip(1).contains(']'),
        text::before(s.skip(1), ']') == inner,
{
    let t = s.skip(1);
    assert(t =~= inner + rest);
    assert(t[inner.len() as int] == ']');
    t.index_of_first_ensures(']');
    let i = t.index_of_first(']')->0;
    if i < inner.len() {
        assert(inner[i] == ']');
    }
    assert(t.take(inner.len() as int) =~= inner);
}

} // verus!
