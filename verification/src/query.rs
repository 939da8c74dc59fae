//! Query strings: the parameters of a request, and the session id that the
//! older MCP transport carries among them.

use vstd::prelude::*;
use vstd::string::*;

use crate::groups;
use crate::json;
use crate::json::{Json, JsonTree};
use crate::text;

verus! {

/// The pairs that `url::form_urlencoded::parse` reads from a query string.
pub uninterp spec fn form_pairs(query: Seq<u8>) -> Seq<(Seq<char>, Seq<char>)>;

/// Calls `url::form_urlencoded::parse`, which splits a query string into
/// percent-decoded names and values.
#[verifier::external_body]
fn parse_form(query: &[u8]) -> (r: Vec<(String, String)>)
    ensures
        groups::pair_views(r@) == form_pairs(query@),
{
    url::form_urlencoded::parse(query).into_owned().collect()
}

// ---------------------------------------------------------------------------
// Parameters
// ---------------------------------------------------------------------------

/// The value of one parameter: a string where it was given once, a list where
/// it was given more often.
pub open spec fn parameter_value(values: Seq<Seq<char>>) -> JsonTree {
    if values.len() == 1 {
        JsonTree::Text(values[0])
    } else {
        JsonTree::Array(Seq::new(values.len(), |i: int| JsonTree::Text(values[i])))
    }
}

/// The parameters as an object, `None` where there are none.
pub open spec fn parameters(pairs: Seq<(Seq<char>, Seq<char>)>) -> Option<JsonTree> {
    let g = groups::grouped(pairs);
    if g.len() == 0 {
        None
    } else {
        Some(JsonTree::Object(Seq::new(g.len(), |i: int| (g[i].0, parameter_value(g[i].1)))))
    }
}

/// The value of one parameter.
fn make_parameter(values: Vec<String>) -> (r: Json)
    ensures
        r.tree() == parameter_value(text::views(values@)),
        json::ordered(r.tree()),
{
    let ghost expected = parameter_value(text::views(values@));
    if values.len() == 1 {
        let only = values[0].clone();
        return Json::Text(only);
    }
    let mut out: Vec<Json> = Vec::new();
    for value in it: values
        invariant
            it.seq() == values@,
            out@.len() == it.index(),
            forall|k: int|
                0 <= k < out@.len() ==> (#[trigger] out@[k]).tree() == JsonTree::Text(values@[k]@),
    {
        out.push(Json::Text(value));
    }
    let r = Json::Array(out);
    proof {
        assert(r.tree()->Array_0 =~= expected->Array_0);
        assert forall|i: int| 0 <= i < r.tree()->Array_0.len() implies json::ordered(
            #[trigger] r.tree()->Array_0[i],
        ) by {
            assert(r.tree()->Array_0[i] is Text);
        }
    }
    r
}

/// Collects parameters given as pairs.
pub fn collect_parameters(pairs: Vec<(String, String)>) -> (r: Option<Json>)
    ensures
        r is Some <==> parameters(groups::pair_views(pairs@)) is Some,
        r matches Some(j) ==> Some(j.tree()) == parameters(groups::pair_views(pairs@))
            && json::ordered(j.tree()),
{
    let ghost all = groups::pair_views(pairs@);
    let mut found: Vec<(String, Vec<String>)> = Vec::new();
    proof {
        assert(all.take(0) =~= Seq::<(Seq<char>, Seq<char>)>::empty());
        assert(groups::group_views(found@) =~= groups::grouped(all.take(0)));
    }
    for pair in it: pairs
        invariant
            it.seq() == pairs@,
            all == groups::pair_views(pairs@),
            groups::group_views(found@) == groups::grouped(all.take(it.index() as int)),
    {
        let ghost k = it.index() as int;
        let (name, value) = pair;
        proof {
            groups::law_grouping_is_exact(all.take(k));
            assert(all.take(k + 1).drop_last() =~= all.take(k));
            assert(all.take(k + 1).last() == (name@, value@));
        }
        groups::add_pair(&mut found, name, value);
    }
    let ghost g = groups::grouped(all);
    proof {
        assert(all.take(pairs@.len() as int) =~= all);
        groups::law_grouping_is_exact(all);
        assert(found@.len() == groups::group_views(found@).len());
    }
    if found.len() == 0 {
        return None;
    }
    let ghost expected = parameters(all)->0;
    let mut out: Vec<(String, Json)> = Vec::new();
    for group in it: found
        invariant
            it.seq() == found@,
            groups::group_views(found@) == g,
            out@.len() == it.index(),
            forall|k: int|
                0 <= k < out@.len() ==> (#[trigger] out@[k]).0@ == g[k].0 && out@[k].1.tree()
                    == parameter_value(g[k].1) && json::ordered(out@[k].1.tree()),
    {
        let (name, values) = group;
        proof {
            assert(g[it.index() as int] == (name@, text::views(values@)));
        }
        out.push((name, make_parameter(values)));
    }
    proof {
        assert(found@.len() == groups::group_views(found@).len());
    }
    let r = Json::Object(out);
    proof {
        let m = r.tree()->Object_0;
        assert(m =~= expected->Object_0);
        assert forall|i: int, j: int| 0 <= i < j < m.len() implies text::precedes(
            #[trigger] m[i].0,
            #[trigger] m[j].0,
        ) by {
            assert(text::precedes(g[i].0, g[j].0));
        }
        assert forall|i: int| 0 <= i < m.len() implies json::ordered((#[trigger] m[i]).1) by {
            assert(m[i].1 == r->Object_0@[i].1.tree());
        }
    }
    Some(r)
}

/// Parses a query string into an object: parameters given once are strings,
/// those given more often are lists.
pub fn parse_query_string(qs: &str) -> (r: Option<Json>)
    ensures
        r is Some <==> parameters(form_pairs(vstd::utf8::encode_utf8(qs@))) is Some,
        r matches Some(j) ==> Some(j.tree()) == parameters(
            form_pairs(vstd::utf8::encode_utf8(qs@)),
        ) && json::ordered(j.tree()),
{
    collect_parameters(parse_form(qs.as_bytes()))
}

// ---------------------------------------------------------------------------
// Sessions
// ---------------------------------------------------------------------------

/// The pair carries a session id that is not blank.
pub open spec fn is_session_pair(pair: (Seq<char>, Seq<char>)) -> bool {
    (pair.0 == "sessionId"@ || pair.0 == "session_id"@) && text::trim(pair.1).len() > 0
}

/// The session id of the first pair that carries one.
pub open spec fn session_of(pairs: Seq<(Seq<char>, Seq<char>)>) -> Option<Seq<char>>
    decreases pairs.len(),
{
    if pairs.len() == 0 {
        None
    } else if is_session_pair(pairs[0]) {
        Some(text::trim(pairs[0].1))
    } else {
        session_of(pairs.drop_first())
    }
}

/// The session id among decoded parameters.
pub fn find_session(pairs: &Vec<(String, String)>) -> (r: Option<String>)
    ensures
        text::text_of(r) == session_of(groups::pair_views(pairs@)),
{
    let ghost all = groups::pair_views(pairs@);
    let mut i: usize = 0;
    proof {
        assert(all.skip(0) =~= all);
    }
    while i < pairs.len()
        invariant
            all == groups::pair_views(pairs@),
            i <= pairs@.len(),
            session_of(all) == session_of(all.skip(i as int)),
        decreases pairs@.len() - i,
    {
        proof {
            assert(all.skip(i as int).drop_first() =~= all.skip(i + 1));
        }
        let name = pairs[i].0.as_str();
        if text::same(name, "sessionId") || text::same(name, "session_id") {
            let value = text::trimmed(pairs[i].1.as_str());
            if !value.as_str().is_empty() {
                return Some(value);
            }
        }
        i += 1;
    }
    None
}

/// The session id that the older HTTP+SSE transport of MCP carries in the
/// query string of every request. Two spellings of the parameter are in use.
pub fn legacy_mcp_session_query(query_string: Option<&str>) -> (r: Option<String>)
    ensures
        text::text_of(r) == (match query_string {
            Some(qs) => session_of(form_pairs(vstd::utf8::encode_utf8(qs@))),
            None => None,
        }),
{
    match query_string {
        Some(qs) => find_session(&parse_form(qs.as_bytes())),
        None => None,
    }
}

// ---------------------------------------------------------------------------
// Laws
// ---------------------------------------------------------------------------

/// Every parameter ships under its name, as a string where it was given once and
/// as the list of its values, in order, where it was given more often; and no
/// other name ships.
pub proof fn law_parameters_are_those_given(pairs: Seq<(Seq<char>, Seq<char>)>, name: Seq<char>)
    ensures
        parameters(pairs) is None <==> pairs.len() == 0,
        parameters(pairs) matches Some(t) ==> json::member(t, name) == ({
            let values = groups::values_of(pairs, name);
            if values.len() == 0 {
                None
            } else if values.len() == 1 {
                Some(JsonTree::Text(values[0]))
            } else {
                Some(
                    JsonTree::Array(Seq::new(values.len(), |i: int| JsonTree::Text(values[i]))),
                )
            }
        }),
{
    let g = groups::grouped(pairs);
    groups::law_grouping_is_exact(pairs);
    lemma_named_pairs_have_values(pairs, name);
    if pairs.len() > 0 {
        assert(pairs[0].0 == pairs[0].0);
        assert(groups::has_group(g, pairs[0].0));
        let members = parameters(pairs)->0->Object_0;
        if groups::has_group(g, name) {
            let i = choose|i: int| 0 <= i < g.len() && (#[trigger] g[i]).0 == name;
            assert forall|j: int| 0 <= j < i implies (#[trigger] members[j]).0 != name by {
                assert(text::precedes(g[j].0, g[i].0));
                text::precedes_irreflexive(name);
            }
            json::law_members_are_found(members, name, i);
            assert(g[i].1 == groups::values_of(pairs, name));
            let j = choose|j: int| 0 <= j < pairs.len() && (#[trigger] pairs[j]).0 == name;
            assert(pairs[j].0 == name);
        } else {
            assert forall|j: int| 0 <= j < members.len() implies (#[trigger] members[j]).0 != name by {
                assert(g[j].0 == members[j].0);
            }
            json::law_members_are_found(members, name, members.len() as int);
        }
    } else if g.len() > 0 {
        assert(groups::has_group(g, g[0].0)) by {
            assert(g[0].0 == g[0].0);
        }
    }
}

/// A name has values exactly where some pair has it.
proof fn lemma_named_pairs_have_values(pairs: Seq<(Seq<char>, Seq<char>)>, name: Seq<char>)
    ensures
        groups::values_of(pairs, name).len() > 0 <==> exists|j: int|
            0 <= j < pairs.len() && (#[trigger] pairs[j]).0 == name,
    decreases pairs.len(),
{
    if pairs.len() > 0 {
        let front = pairs.drop_last();
        lemma_named_pairs_have_values(front, name);
        if exists|j: int| 0 <= j < front.len() && (#[trigger] front[j]).0 == name {
            let j = choose|j: int| 0 <= j < front.len() && (#[trigger] front[j]).0 == name;
            assert(pairs[j].0 == name);
        }
        if exists|j: int| 0 <= j < pairs.len() && (#[trigger] pairs[j]).0 == name {
            let j = choose|j: int| 0 <= j < pairs.len() && (#[trigger] pairs[j]).0 == name;
            if j < front.len() {
                assert(front[j].0 == name);
            }
        }
        if pairs.last().0 == name {
            assert(pairs[pairs.len() - 1].0 == name);
        }
    }
}

/// The session id is the first parameter in either spelling that is not blank,
/// without surrounding white space.
pub proof fn law_the_first_session_counts(pairs: Seq<(Seq<char>, Seq<char>)>, i: int)
    requires
        0 <= i <= pairs.len(),
        forall|j: int|
            0 <= j < i ==> !(((#[trigger] pairs[j]).0 == "sessionId"@ || pairs[j].0
                == "session_id"@) && text::trim(pairs[j].1).len() > 0),
        i < pairs.len() ==> (pairs[i].0 == "sessionId"@ || pairs[i].0 == "session_id"@)
            && text::trim(pairs[i].1).len() > 0,
    ensures
        session_of(pairs) == if i < pairs.len() {
            Some(text::trim(pairs[i].1))
        } else {
            None
        },
    decreases i,
{
    if i > 0 {
        assert(!((pairs[0].0 == "sessionId"@ || pairs[0].0 == "session_id"@) && text::trim(
            pairs[0].1,
        ).len() > 0));
        assert forall|j: int| 0 <= j < i - 1 implies !(((#[trigger] pairs.drop_first()[j]).0
            == "sessionId"@ || pairs.drop_first()[j].0 == "session_id"@) && text::trim(
            pairs.drop_first()[j].1,
        ).len() > 0) by {
            assert(pairs[j + 1] == pairs.drop_first()[j]);
        }
        law_the_first_session_counts(pairs.drop_first(), i - 1);
    }
}

} // verus!
