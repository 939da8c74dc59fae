//! HTTP headers: what the policy reads from them.

use vstd::prelude::*;
use vstd::string::*;

use crate::groups;
use crate::pii_rules;
use crate::sanitize;
use crate::text;

verus! {

/// The content type is JSON.
pub open spec fn json_type(content_type: Seq<char>) -> bool {
    text::contains(text::lower(content_type), "application/json"@)
}

/// The media type list names server-sent events.
pub open spec fn sse_type(content_type: Seq<char>) -> bool {
    text::contains(text::lower(content_type), "text/event-stream"@)
}

/// Whether a Content-Type header names JSON, in whatever case.
pub fn content_type_is_json(content_type: Option<&str>) -> (r: bool)
    ensures
        r == (content_type is Some && json_type(content_type->0@)),
{
    match content_type {
        Some(ct) => text::lower_has(ct, "application/json"),
        None => false,
    }
}

/// Whether a Content-Type header names server-sent events, in whatever case.
pub fn content_type_is_sse(content_type: Option<&str>) -> (r: bool)
    ensures
        r == (content_type is Some && sse_type(content_type->0@)),
{
    match content_type {
        Some(ct) => text::lower_has(ct, "text/event-stream"),
        None => false,
    }
}

/// Whether an Accept header lists both JSON and server-sent events, as an MCP
/// request must. LLM clients list only the former, plain event streamers only
/// the latter.
pub fn accept_lists_json_and_sse(accept: Option<&str>) -> (r: bool)
    ensures
        r == (accept is Some && json_type(accept->0@) && sse_type(accept->0@)),
{
    content_type_is_json(accept) && content_type_is_sse(accept)
}

// ---------------------------------------------------------------------------
// Names
// ---------------------------------------------------------------------------

/// A header name in title case: the first letter of each part between hyphens
/// is a capital, the others are small.
pub open spec fn title_case(name: Seq<char>) -> Seq<char> {
    Seq::new(
        name.len(),
        |i: int|
            if i == 0 || name[i - 1] == '-' {
                text::upper_char(name[i])
            } else {
                text::lower_char(name[i])
            },
    )
}

/// Brings a header name to title case, as in `User-Agent`.
pub fn title_case_header(name: &str) -> (r: String)
    ensures
        r@ == title_case(name@),
{
    let v = text::chars_of(name);
    let mut out = String::new();
    let mut i: usize = 0;
    while i < v.len()
        invariant
            v@ == name@,
            i <= v@.len(),
            out@ == title_case(name@).take(i as int),
        decreases v@.len() - i,
    {
        if i == 0 || v[i - 1] == '-' {
            out.push(text::char_to_upper(v[i]));
        } else {
            out.push(text::char_to_lower(v[i]));
        }
        i += 1;
        proof {
            assert(out@ =~= title_case(name@).take(i as int));
        }
    }
    proof {
        assert(title_case(name@).take(i as int) =~= title_case(name@));
    }
    out
}

/// The names of an allowlist, `None` where there is none.
pub open spec fn allowed_names(allowlist: Option<&Vec<String>>) -> Option<Seq<String>> {
    match allowlist {
        Some(names) => Some(names@),
        None => None,
    }
}

// ---------------------------------------------------------------------------
// Collecting
// ---------------------------------------------------------------------------

/// The header is captured: it is no pseudo-header of the proxy, and on the
/// allowlist where there is one.
pub open spec fn is_captured(name: Seq<char>, allowed: Option<Seq<String>>) -> bool {
    &&& name.len() == 0 || name[0] != ':'
    &&& match allowed {
        Some(names) => pii_rules::among(names, text::unicode_lower(name)),
        None => true,
    }
}

/// The value that ships for a captured header.
pub open spec fn shipped_value(
    name: Seq<char>,
    value: Seq<char>,
    secret: Option<Seq<char>>,
) -> Seq<char> {
    let lower = text::unicode_lower(name);
    if lower == "authorization"@ {
        sanitize::hashed_or_redacted(secret, value)
    } else if sanitize::sensitive_header(lower) {
        sanitize::REDACTED@
    } else {
        value
    }
}

/// The captured headers, in order, each under its title-case name.
pub open spec fn captured(
    pairs: Seq<(Seq<char>, Seq<char>)>,
    allowed: Option<Seq<String>>,
    secret: Option<Seq<char>>,
) -> Seq<(Seq<char>, Seq<char>)>
    decreases pairs.len(),
{
    if pairs.len() == 0 {
        Seq::empty()
    } else {
        let front = captured(pairs.drop_last(), allowed, secret);
        let (name, value) = pairs.last();
        if is_captured(name, allowed) {
            front.push((title_case(name), shipped_value(name, value, secret)))
        } else {
            front
        }
    }
}

/// The headers that an event carries: the values of one name are joined, and
/// there is nothing where nothing is captured.
pub open spec fn collected(
    pairs: Seq<(Seq<char>, Seq<char>)>,
    allowed: Option<Seq<String>>,
    secret: Option<Seq<char>>,
) -> Option<Seq<(Seq<char>, Seq<char>)>> {
    let g = groups::grouped(captured(pairs, allowed, secret));
    if g.len() == 0 {
        None
    } else {
        Some(Seq::new(g.len(), |i: int| (g[i].0, text::join(g[i].1, ", "@))))
    }
}

/// What an optional list of pairs holds.
pub open spec fn optional_pairs(pairs: Option<Vec<(String, String)>>) -> Option<
    Seq<(Seq<char>, Seq<char>)>,
> {
    match pairs {
        Some(p) => Some(groups::pair_views(p@)),
        None => None,
    }
}

/// The value that ships for a captured header.
fn ship_value(name_lower: &str, value: String, secret: Option<&str>) -> (r: String)
    ensures
        forall|name: Seq<char>|
            text::unicode_lower(name) == name_lower@ ==> r@ == #[trigger] shipped_value(
                name,
                value@,
                text::str_of(secret),
            ),
{
    if text::same(name_lower, "authorization") {
        sanitize::pseudonymize_or_redact(secret, value.as_str())
    } else if sanitize::is_sensitive_header_lower(name_lower) {
        sanitize::REDACTED.to_string()
    } else {
        value
    }
}

/// Collects and sanitizes headers, of a request or of a response.
///
/// The allowlist, where there is one, decides which headers are present; a
/// header that is not on it is absent, not redacted. `Authorization` is hashed,
/// or redacted without a secret; the other sensitive headers are redacted. The
/// values of a header that occurs more than once are joined with a comma.
pub fn collect_headers(
    pairs: Vec<(String, String)>,
    allowlist: Option<&Vec<String>>,
    secret: Option<&str>,
) -> (r: Option<Vec<(String, String)>>)
    ensures
        optional_pairs(r) == collected(
            groups::pair_views(pairs@),
            allowed_names(allowlist),
            text::str_of(secret),
        ),
{
    let ghost all = groups::pair_views(pairs@);
    let ghost allowed = allowed_names(allowlist);
    let ghost sec = text::str_of(secret);
    let mut found: Vec<(String, Vec<String>)> = Vec::new();
    proof {
        assert(all.take(0) =~= Seq::<(Seq<char>, Seq<char>)>::empty());
        assert(groups::group_views(found@) =~= groups::grouped(
            captured(all.take(0), allowed, sec),
        ));
    }
    for pair in it: pairs
        invariant
            it.seq() == pairs@,
            all == groups::pair_views(pairs@),
            allowed == allowed_names(allowlist),
            sec == text::str_of(secret),
            groups::group_views(found@) == groups::grouped(
                captured(all.take(it.index() as int), allowed, sec),
            ),
    {
        let ghost k = it.index() as int;
        let (name, value) = pair;
        proof {
            assert(all.take(k + 1).drop_last() =~= all.take(k));
            assert(all.take(k + 1).last() == (name@, value@));
            groups::law_grouping_is_exact(captured(all.take(k), allowed, sec));
        }
        let chars = text::chars_of(name.as_str());
        let pseudo = chars.len() > 0 && chars[0] == ':';
        let lower = text::to_unicode_lower(name.as_str());
        let listed = match allowlist {
            Some(names) => text::holds(names, lower.as_str()),
            None => true,
        };
        proof {
            assert((!pseudo && listed) == is_captured(name@, allowed));
        }
        if !pseudo && listed {
            let canonical = title_case_header(name.as_str());
            let shipped = ship_value(lower.as_str(), value, secret);
            proof {
                let front = captured(all.take(k), allowed, sec);
                let longer = captured(all.take(k + 1), allowed, sec);
                assert(longer == front.push((canonical@, shipped@)));
                assert(longer.drop_last() =~= front);
            }
            groups::add_pair(&mut found, canonical, shipped);
        }
    }
    let ghost g = groups::grouped(captured(all, allowed, sec));
    proof {
        assert(all.take(pairs@.len() as int) =~= all);
        assert(found@.len() == groups::group_views(found@).len());
    }
    if found.len() == 0 {
        return None;
    }
    let mut out: Vec<(String, String)> = Vec::new();
    for group in it: found
        invariant
            it.seq() == found@,
            groups::group_views(found@) == g,
            out@.len() == it.index(),
            forall|k: int|
                0 <= k < out@.len() ==> (#[trigger] out@[k]).0@ == g[k].0 && out@[k].1@
                    == text::join(g[k].1, ", "@),
    {
        let (name, values) = group;
        proof {
            assert(g[it.index() as int] == (name@, text::views(values@)));
        }
        let joined = text::join_with(&values, ", ");
        out.push((name, joined));
    }
    proof {
        assert(found@.len() == groups::group_views(found@).len());
        assert(groups::pair_views(out@) =~= collected(all, allowed, sec)->0);
    }
    Some(out)
}

// ---------------------------------------------------------------------------
// Laws
// ---------------------------------------------------------------------------

/// No sensitive value ships raw: `Authorization` ships as a pseudonym or
/// redacted, the other sensitive headers redacted, whatever the allowlist.
pub proof fn law_sensitive_headers_never_ship_raw(
    name: Seq<char>,
    value: Seq<char>,
    secret: Option<Seq<char>>,
)
    requires
        sanitize::sensitive_header(text::unicode_lower(name)),
    ensures
        shipped_value(name, value, secret) == sanitize::REDACTED@ || (text::unicode_lower(name)
            == "authorization"@ && secret is Some && shipped_value(name, value, secret)
            == crate::hash::pii_hash(value, secret->0)),
{
}

/// Headers that are not on the allowlist are absent: every captured pair comes
/// from a pair whose lowercase name is listed.
pub proof fn law_only_listed_headers_are_captured(
    pairs: Seq<(Seq<char>, Seq<char>)>,
    names: Seq<String>,
    secret: Option<Seq<char>>,
    i: int,
)
    requires
        0 <= i < captured(pairs, Some(names), secret).len(),
    ensures
        exists|j: int|
            {
                &&& 0 <= j < pairs.len()
                &&& pii_rules::among(names, text::unicode_lower((#[trigger] pairs[j]).0))
                &&& captured(pairs, Some(names), secret)[i] == (
                    title_case(pairs[j].0),
                    shipped_value(pairs[j].0, pairs[j].1, secret),
                )
            },
    decreases pairs.len(),
{
    let front = captured(pairs.drop_last(), Some(names), secret);
    if i < front.len() {
        law_only_listed_headers_are_captured(pairs.drop_last(), names, secret, i);
        let j = choose|j: int|
            {
                &&& 0 <= j < pairs.drop_last().len()
                &&& pii_rules::among(
                    names,
                    text::unicode_lower((#[trigger] pairs.drop_last()[j]).0),
                )
                &&& front[i] == (
                    title_case(pairs.drop_last()[j].0),
                    shipped_value(pairs.drop_last()[j].0, pairs.drop_last()[j].1, secret),
                )
            };
        assert(pairs[j] == pairs.drop_last()[j]);
    } else {
        assert(pairs[pairs.len() - 1] == pairs.last());
    }
}

/// Repeated headers keep all their values, in order.
pub proof fn law_repeated_headers_are_joined(
    pairs: Seq<(Seq<char>, Seq<char>)>,
    allowed: Option<Seq<String>>,
    secret: Option<Seq<char>>,
    i: int,
)
    requires
        collected(pairs, allowed, secret) is Some,
        0 <= i < collected(pairs, allowed, secret)->0.len(),
    ensures
        ({
            let (name, value) = collected(pairs, allowed, secret)->0[i];
            value == text::join(
                groups::values_of(captured(pairs, allowed, secret), name),
                ", "@,
            )
        }),
{
    groups::law_grouping_is_exact(captured(pairs, allowed, secret));
}

/// A content type is read in whatever case, and for what it names anywhere.
pub proof fn law_types_are_read_in_any_case(front: Seq<char>, back: Seq<char>, ct: Seq<char>)
    ensures
        text::lower(ct) == front + "application/json"@ + back ==> json_type(ct),
        text::lower(ct) == front + "text/event-stream"@ + back ==> sse_type(ct),
        !text::contains(text::lower(ct), "application/json"@) ==> !json_type(ct),
        !text::contains(text::lower(ct), "text/event-stream"@) ==> !sse_type(ct),
{
    text::law_where_a_text_stands(front, "application/json"@, back);
    text::law_where_a_text_stands(front, "text/event-stream"@, back);
}

/// Title case changes the case of letters and nothing else: each part between
/// hyphens begins with a capital and goes on in small letters.
pub proof fn law_title_case_changes_case_alone(name: Seq<char>, i: int)
    requires
        0 <= i < name.len(),
    ensures
        text::lower(title_case(name)) == text::lower(name),
        (i == 0 || name[i - 1] == '-') ==> !('a' <= title_case(name)[i] && title_case(name)[i] <= 'z'),
        !(i == 0 || name[i - 1] == '-') ==> !('A' <= title_case(name)[i] && title_case(name)[i]
            <= 'Z'),
{
    assert(text::lower(title_case(name)) =~= text::lower(name));
}

/// What ships under a header: of `Authorization` the pseudonym, or the marker
/// without a secret; of the others that carry credentials the marker; and every
/// other value as it is.
pub proof fn law_what_ships_under_a_header(
    name: Seq<char>,
    value: Seq<char>,
    secret: Option<Seq<char>>,
)
    ensures
        text::unicode_lower(name) == "authorization"@ ==> shipped_value(name, value, secret)
            == match secret {
            Some(k) => crate::hash::pii_hash(value, k),
            None => "[REDACTED]"@,
        },
        text::unicode_lower(name) == "cookie"@ || text::unicode_lower(name) == "set-cookie"@
            || text::unicode_lower(name) == "x-api-key"@ || text::unicode_lower(name)
            == "x-auth-token"@ || text::unicode_lower(name) == "proxy-authorization"@
            ==> shipped_value(name, value, secret) == "[REDACTED]"@,
        text::unicode_lower(name) != "authorization"@ && text::unicode_lower(name) != "cookie"@
            && text::unicode_lower(name) != "set-cookie"@ && text::unicode_lower(name)
            != "x-api-key"@ && text::unicode_lower(name) != "x-auth-token"@ && text::unicode_lower(
            name,
        ) != "proxy-authorization"@ ==> shipped_value(name, value, secret) == value,
{
    reveal_strlit("authorization");
    reveal_strlit("cookie");
    reveal_strlit("set-cookie");
    reveal_strlit("x-api-key");
    reveal_strlit("x-auth-token");
    reveal_strlit("proxy-authorization");
    assert("authorization"@.len() == 13);
    assert("cookie"@.len() == 6);
    assert("set-cookie"@.len() == 10);
    assert("x-api-key"@.len() == 9);
    assert("x-auth-token"@.len() == 12);
    assert("proxy-authorization"@.len() == 19);
    sanitize::law_builtin_headers_carry_credentials(text::unicode_lower(name));
}

/// Every header is captured that is no pseudo-header and that the allowlist, where
/// there is one, names in lowercase; and no other is. The captured ones keep their
/// order.
pub proof fn law_which_headers_are_captured(
    pairs: Seq<(Seq<char>, Seq<char>)>,
    name: Seq<char>,
    value: Seq<char>,
    allowed: Option<Seq<String>>,
    secret: Option<Seq<char>>,
)
    ensures
        captured(Seq::empty(), allowed, secret) == Seq::<(Seq<char>, Seq<char>)>::empty(),
        ({
            let before = captured(pairs, allowed, secret);
            let after = captured(pairs.push((name, value)), allowed, secret);
            let pseudo = name.len() > 0 && name[0] == ':';
            let listed = allowed matches Some(names) ==> exists|i: int|
                0 <= i < names.len() && (#[trigger] names[i])@ == text::unicode_lower(name);
            after == if !pseudo && listed {
                before.push((title_case(name), shipped_value(name, value, secret)))
            } else {
                before
            }
        }),
{
    assert(pairs.push((name, value)).drop_last() =~= pairs);
}

/// The event has a header field exactly where some header is captured, and in it
/// every captured name once, in dictionary order.
pub proof fn law_every_captured_header_ships(
    pairs: Seq<(Seq<char>, Seq<char>)>,
    allowed: Option<Seq<String>>,
    secret: Option<Seq<char>>,
)
    ensures
        collected(pairs, allowed, secret) is None <==> captured(pairs, allowed, secret).len() == 0,
        collected(pairs, allowed, secret) matches Some(out) ==> {
            &&& forall|i: int, j: int|
                0 <= i < j < out.len() ==> text::precedes(
                    (#[trigger] out[i]).0,
                    (#[trigger] out[j]).0,
                )
            &&& forall|k: int|
                0 <= k < captured(pairs, allowed, secret).len() ==> exists|i: int|
                    0 <= i < out.len() && (#[trigger] out[i]).0 == (#[trigger] captured(
                        pairs,
                        allowed,
                        secret,
                    )[k]).0
        },
{
    let c = captured(pairs, allowed, secret);
    let g = groups::grouped(c);
    groups::law_grouping_is_exact(c);
    if g.len() == 0 {
        if c.len() > 0 {
            assert(c[0].0 == c[0].0);
            assert(groups::has_group(g, c[0].0));
        }
    } else {
        assert(groups::has_group(g, g[0].0)) by {
            assert(g[0].0 == g[0].0);
        }
        let out = collected(pairs, allowed, secret)->0;
        assert forall|i: int, j: int| 0 <= i < j < out.len() implies text::precedes(
            (#[trigger] out[i]).0,
            (#[trigger] out[j]).0,
        ) by {
            assert(text::precedes(g[i].0, g[j].0));
        }
        assert forall|k: int| 0 <= k < c.len() implies exists|i: int|
            0 <= i < out.len() && (#[trigger] out[i]).0 == (#[trigger] c[k]).0 by {
            assert(groups::has_group(g, c[k].0));
            let i = choose|i: int| 0 <= i < g.len() && (#[trigger] g[i]).0 == c[k].0;
            assert(out[i].0 == c[k].0);
        }
    }
}

} // verus!
