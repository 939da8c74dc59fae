//! Regular expressions, matched by `regex_lite`.

use vstd::prelude::*;
use vstd::string::*;

use crate::hash;

verus! {

#[verifier::external_type_specification]
#[verifier::external_body]
pub struct ExRegex(regex_lite::Regex);

/// What `regex_lite::RegexBuilder` builds from a pattern and two settings, or
/// the text of its error.
pub uninterp spec fn built(
    pattern: Seq<char>,
    case_insensitive: bool,
    size_limit: usize,
) -> Result<regex_lite::Regex, Seq<char>>;

/// The matches that `regex_lite::Regex::find_iter` reports in a text, each as
/// the positions of its first character and of the first one behind it.
pub uninterp spec fn spans(regex: regex_lite::Regex, s: Seq<char>) -> Seq<(int, int)>;

/// Matches lie in the text, follow one another and do not overlap.
pub open spec fn spans_in_order(spans: Seq<(int, int)>, len: nat) -> bool {
    &&& forall|i: int|
        0 <= i < spans.len() ==> 0 <= (#[trigger] spans[i]).0 && spans[i].0 <= spans[i].1
            && spans[i].1 <= len
    &&& forall|i: int, j: int|
        0 <= i < j < spans.len() ==> (#[trigger] spans[i]).1 <= (#[trigger] spans[j]).0
}

/// What stands in `s` from position `from` on, each match replaced by what
/// `rep` makes of it.
pub open spec fn spliced(
    s: Seq<char>,
    spans: Seq<(int, int)>,
    from: int,
    rep: spec_fn(Seq<char>) -> Seq<char>,
) -> Seq<char>
    decreases spans.len(),
{
    if spans.len() == 0 {
        s.skip(from)
    } else {
        s.subrange(from, spans[0].0) + rep(s.subrange(spans[0].0, spans[0].1)) + spliced(
            s,
            spans.drop_first(),
            spans[0].1,
            rep,
        )
    }
}

/// `s` with every match of `regex` replaced by `rep`.
pub open spec fn replaced_with(
    regex: regex_lite::Regex,
    s: Seq<char>,
    rep: Seq<char>,
) -> Seq<char> {
    spliced(s, spans(regex, s), 0, |m: Seq<char>| rep)
}

/// `s` with every match of `regex` replaced by its pseudonym under `secret`.
pub open spec fn replaced_by_hash(
    regex: regex_lite::Regex,
    s: Seq<char>,
    secret: Seq<char>,
) -> Seq<char> {
    spliced(s, spans(regex, s), 0, |m: Seq<char>| hash::pii_hash(m, secret))
}

/// `r` is the expected text, spliced from matches in order.
pub open spec fn is_result(
    r: Seq<char>,
    expected: Seq<char>,
    spans: Seq<(int, int)>,
    len: nat,
) -> bool {
    r == expected && spans_in_order(spans, len)
}

/// Calls `regex_lite::RegexBuilder::build` with the given settings. An error
/// comes back as its text.
#[verifier::external_body]
pub(crate) fn build(pattern: &str, case_insensitive: bool, size_limit: usize) -> (r: Result<
    regex_lite::Regex,
    String,
>)
    ensures
        match r {
            Ok(regex) => built(pattern@, case_insensitive, size_limit) == Ok::<
                regex_lite::Regex,
                Seq<char>,
            >(regex),
            Err(e) => built(pattern@, case_insensitive, size_limit) == Err::<
                regex_lite::Regex,
                Seq<char>,
            >(e@),
        },
{
    regex_lite::RegexBuilder::new(pattern)
        .case_insensitive(case_insensitive)
        .size_limit(size_limit)
        .build()
        .map_err(|e| e.to_string())
}

/// Calls `regex_lite::Regex::is_match`, which is true where the text holds a
/// match.
#[verifier::external_body]
pub(crate) fn is_match(regex: &regex_lite::Regex, s: &str) -> (r: bool)
    ensures
        r == (spans(*regex, s@).len() > 0),
{
    regex.is_match(s)
}

/// Calls `regex_lite::Regex::replace_all` with a replacement text, which puts
/// it in place of every match. A `$` in it would refer to a capture group.
#[verifier::external_body]
pub(crate) fn replace_with(regex: &regex_lite::Regex, s: &str, rep: &str) -> (r: String)
    requires
        !rep@.contains('$'),
    ensures
        is_result(r@, replaced_with(*regex, s@, rep@), spans(*regex, s@), s@.len()),
{
    regex.replace_all(s, rep).into_owned()
}

/// Calls `regex_lite::Regex::replace_all` with [`hash::hash_pii`] as the
/// replacement, which puts the pseudonym of every match in its place.
#[verifier::external_body]
pub(crate) fn replace_by_hash(regex: &regex_lite::Regex, s: &str, secret: &str) -> (r: String)
    ensures
        is_result(r@, replaced_by_hash(*regex, s@, secret@), spans(*regex, s@), s@.len()),
{
    regex.replace_all(s, |caps: &regex_lite::Captures| hash::hash_pii(&caps[0], secret)).into_owned()
}

/// A text without a match stays as it is.
pub proof fn law_no_match_no_change(
    regex: regex_lite::Regex,
    s: Seq<char>,
    rep: Seq<char>,
    secret: Seq<char>,
)
    requires
        spans(regex, s).len() == 0,
    ensures
        replaced_with(regex, s, rep) == s,
        replaced_by_hash(regex, s, secret) == s,
{
    assert(s.skip(0) =~= s);
}

/// Every match goes: what stands between two matches stays, and each match makes
/// room for its replacement. The text is taken apart at its last match.
pub proof fn law_every_match_is_replaced(
    s: Seq<char>,
    spans: Seq<(int, int)>,
    from: int,
    rep: spec_fn(Seq<char>) -> Seq<char>,
)
    requires
        spans.len() > 0,
        spans_in_order(spans, s.len()),
        0 <= from <= spans[0].0,
    ensures
        spliced(s, spans, from, rep) == spliced(
            s.take(spans.last().0),
            spans.drop_last(),
            from,
            rep,
        ) + rep(s.subrange(spans.last().0, spans.last().1)) + s.skip(spans.last().1),
    decreases spans.len(),
{
    let (a, b) = spans.last();
    let cut = s.take(a);
    if spans.len() == 1 {
        assert(spans.drop_last() =~= Seq::<(int, int)>::empty());
        assert(spans.drop_first() =~= Seq::<(int, int)>::empty());
        assert(cut.skip(from) =~= s.subrange(from, a));
        assert(spliced(cut, spans.drop_last(), from, rep) == s.subrange(from, a));
        assert(spliced(s, spans.drop_first(), b, rep) == s.skip(b));
    } else {
        let rest = spans.drop_first();
        let (x, y) = spans[0];
        assert(rest.last() == spans.last());
        assert(rest.drop_last() =~= spans.drop_last().drop_first());
        assert(spans.drop_last()[0] == spans[0]);
        assert(spans[0].1 <= spans[spans.len() - 1].0);
        assert forall|i: int| 0 <= i < rest.len() implies 0 <= (#[trigger] rest[i]).0 && rest[i].0
            <= rest[i].1 && rest[i].1 <= s.len() by {
            assert(spans[i + 1] == rest[i]);
        }
        assert forall|i: int, j: int| 0 <= i < j < rest.len() implies (#[trigger] rest[i]).1 <= (
        #[trigger] rest[j]).0 by {
            assert(spans[i + 1].1 <= spans[j + 1].0);
        }
        assert(spans[0].1 <= spans[1].0);
        law_every_match_is_replaced(s, rest, y, rep);
        assert(cut.subrange(from, x) =~= s.subrange(from, x));
        assert(cut.subrange(x, y) =~= s.subrange(x, y));
        let inner = spliced(cut, rest.drop_last(), y, rep);
        assert(spliced(cut, spans.drop_last(), from, rep) == s.subrange(from, x) + rep(
            s.subrange(x, y),
        ) + inner);
        assert(spliced(s, spans, from, rep) =~= s.subrange(from, x) + rep(s.subrange(x, y)) + inner
            + rep(s.subrange(a, b)) + s.skip(b));
    }
}

/// What a rule puts in place of a match does not depend on the match where it
/// redacts, and is the pseudonym of the match where it hashes.
pub proof fn law_what_replaces_a_match(
    regex: regex_lite::Regex,
    s: Seq<char>,
    rep: Seq<char>,
    secret: Seq<char>,
)
    requires
        spans(regex, s).len() == 1,
        spans_in_order(spans(regex, s), s.len()),
    ensures
        ({
            let (a, b) = spans(regex, s)[0];
            &&& replaced_with(regex, s, rep) == s.take(a) + rep + s.skip(b)
            &&& replaced_by_hash(regex, s, secret) == s.take(a) + hash::pii_hash(
                s.subrange(a, b),
                secret,
            ) + s.skip(b)
        }),
{
    let (a, b) = spans(regex, s)[0];
    assert(s.subrange(0, a) =~= s.take(a));
    assert(spans(regex, s).drop_first() =~= Seq::<(int, int)>::empty());
    reveal_with_fuel(spliced, 2);
}

} // verus!
