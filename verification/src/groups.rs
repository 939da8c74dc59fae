//! Name and value pairs collected under their names.
//!
//! The names come out in dictionary order, each of them once, with its values
//! in the order in which they came.

use vstd::prelude::*;
use vstd::string::*;

use crate::text;

verus! {

/// A name and its values.
pub type Group = (Seq<char>, Seq<Seq<char>>);

/// How many groups stand before the place of `name`.
pub open spec fn place(groups: Seq<Group>, name: Seq<char>) -> int
    decreases groups.len(),
{
    if groups.len() > 0 && text::precedes(groups[0].0, name) {
        1 + place(groups.drop_first(), name)
    } else {
        0
    }
}

/// The groups after one more pair.
pub open spec fn with_pair(groups: Seq<Group>, name: Seq<char>, value: Seq<char>) -> Seq<Group> {
    let i = place(groups, name);
    if i < groups.len() && groups[i].0 == name {
        groups.update(i, (name, groups[i].1.push(value)))
    } else {
        groups.insert(i, (name, seq![value]))
    }
}

/// Pairs collected under their names.
pub open spec fn grouped(pairs: Seq<(Seq<char>, Seq<char>)>) -> Seq<Group>
    decreases pairs.len(),
{
    if pairs.len() == 0 {
        Seq::empty()
    } else {
        with_pair(grouped(pairs.drop_last()), pairs.last().0, pairs.last().1)
    }
}

/// The values that the pairs give `name`, in order.
pub open spec fn values_of(pairs: Seq<(Seq<char>, Seq<char>)>, name: Seq<char>) -> Seq<Seq<char>>
    decreases pairs.len(),
{
    if pairs.len() == 0 {
        Seq::empty()
    } else if pairs.last().0 == name {
        values_of(pairs.drop_last(), name).push(pairs.last().1)
    } else {
        values_of(pairs.drop_last(), name)
    }
}

/// The names stand in dictionary order, each of them once.
pub open spec fn names_in_order(groups: Seq<Group>) -> bool {
    forall|i: int, j: int|
        0 <= i < j < groups.len() ==> text::precedes(
            #[trigger] groups[i].0,
            #[trigger] groups[j].0,
        )
}

/// `name` has a group.
pub open spec fn has_group(groups: Seq<Group>, name: Seq<char>) -> bool {
    exists|i: int| 0 <= i < groups.len() && (#[trigger] groups[i]).0 == name
}

/// The place of a name lies in the list, behind every smaller name and before
/// the others.
proof fn lemma_place(groups: Seq<Group>, name: Seq<char>)
    requires
        names_in_order(groups),
    ensures
        0 <= place(groups, name) <= groups.len(),
        forall|i: int|
            0 <= i < place(groups, name) ==> text::precedes((#[trigger] groups[i]).0, name),
        place(groups, name) < groups.len() ==> !text::precedes(
            groups[place(groups, name)].0,
            name,
        ),
        forall|i: int|
            place(groups, name) < i < groups.len() ==> text::precedes(
                name,
                (#[trigger] groups[i]).0,
            ),
    decreases groups.len(),
{
    if groups.len() > 0 && text::precedes(groups[0].0, name) {
        let rest = groups.drop_first();
        assert forall|i: int, j: int| 0 <= i < j < rest.len() implies text::precedes(
            #[trigger] rest[i].0,
            #[trigger] rest[j].0,
        ) by {
            assert(text::precedes(groups[i + 1].0, groups[j + 1].0));
        }
        lemma_place(rest, name);
        let p = place(rest, name);
        assert forall|i: int| 0 <= i < p + 1 implies text::precedes(
            (#[trigger] groups[i]).0,
            name,
        ) by {
            if i > 0 {
                assert(rest[i - 1] == groups[i]);
            }
        }
        assert forall|i: int| p + 1 < i < groups.len() implies text::precedes(
            name,
            (#[trigger] groups[i]).0,
        ) by {
            assert(rest[i - 1] == groups[i]);
        }
        if p + 1 < groups.len() {
            assert(rest[p] == groups[p + 1]);
        }
    } else if groups.len() > 0 {
        assert forall|i: int| 0 < i < groups.len() implies text::precedes(
            name,
            (#[trigger] groups[i]).0,
        ) by {
            assert(text::precedes(groups[0].0, groups[i].0));
            text::precedes_total(groups[0].0, name);
            if groups[0].0 != name {
                text::precedes_transitive(name, groups[0].0, groups[i].0);
            }
        }
    }
}

/// Grouping loses and adds nothing: the names are those of the pairs, in
/// dictionary order and each of them once, and every name has its values in
/// the order of the pairs.
pub proof fn law_grouping_is_exact(pairs: Seq<(Seq<char>, Seq<char>)>)
    ensures
        names_in_order(grouped(pairs)),
        forall|name: Seq<char>|
            has_group(grouped(pairs), name) <==> exists|j: int|
                0 <= j < pairs.len() && (#[trigger] pairs[j]).0 == name,
        forall|i: int|
            0 <= i < grouped(pairs).len() ==> (#[trigger] grouped(pairs)[i]).1 == values_of(
                pairs,
                grouped(pairs)[i].0,
            ),
    decreases pairs.len(),
{
    let g = grouped(pairs);
    if pairs.len() > 0 {
        let front = pairs.drop_last();
        let (name, value) = pairs.last();
        let before = grouped(front);
        law_grouping_is_exact(front);
        lemma_place(before, name);
        let p = place(before, name);
        let found = p < before.len() && before[p].0 == name;
        if !found && p < before.len() {
            text::precedes_total(before[p].0, name);
        }
        if found {
            assert forall|i: int, j: int| 0 <= i < j < g.len() implies text::precedes(
                #[trigger] g[i].0,
                #[trigger] g[j].0,
            ) by {
                assert(text::precedes(before[i].0, before[j].0));
            }
            assert forall|i: int| 0 <= i < g.len() implies (#[trigger] g[i]).1 == values_of(
                pairs,
                g[i].0,
            ) by {
                assert(before[i].1 == values_of(front, before[i].0));
                if i != p {
                    if i < p {
                        text::precedes_irreflexive(name);
                        assert(text::precedes(before[i].0, name));
                    } else {
                        text::precedes_irreflexive(name);
                        assert(text::precedes(name, before[i].0));
                    }
                }
            }
        } else {
            assert forall|i: int, j: int| 0 <= i < j < g.len() implies text::precedes(
                #[trigger] g[i].0,
                #[trigger] g[j].0,
            ) by {
                let a = if i < p {
                    i
                } else {
                    i - 1
                };
                let b = if j < p {
                    j
                } else {
                    j - 1
                };
                if i != p {
                    assert(g[i] == before[a]);
                }
                if j != p {
                    assert(g[j] == before[b]);
                }
                if i != p && j != p {
                    assert(text::precedes(before[a].0, before[b].0));
                }
            }
            assert(!has_group(before, name)) by {
                if has_group(before, name) {
                    let i = choose|i: int|
                        0 <= i < before.len() && (#[trigger] before[i]).0 == name;
                    text::precedes_irreflexive(name);
                    if i < p {
                        assert(text::precedes(before[i].0, name));
                    } else if i > p {
                        assert(text::precedes(name, before[i].0));
                    }
                }
            }
            assert forall|j: int| 0 <= j < front.len() implies (#[trigger] front[j]).0 != name by {
                if front[j].0 == name {
                    assert(has_group(before, name));
                }
            }
            lemma_no_values(front, name);
            assert forall|i: int| 0 <= i < g.len() implies (#[trigger] g[i]).1 == values_of(
                pairs,
                g[i].0,
            ) by {
                if i == p {
                    assert(values_of(front, name) =~= Seq::<Seq<char>>::empty());
                    assert(g[i].1 =~= values_of(pairs, name));
                } else {
                    let a = if i < p {
                        i
                    } else {
                        i - 1
                    };
                    assert(g[i] == before[a]);
                    assert(before[a].1 == values_of(front, before[a].0));
                    assert(has_group(before, before[a].0));
                }
            }
        }
        assert forall|k: Seq<char>|
            has_group(g, k) <==> exists|j: int| 0 <= j < pairs.len() && (#[trigger] pairs[j]).0
                == k by {
            if has_group(g, k) {
                let i = choose|i: int| 0 <= i < g.len() && (#[trigger] g[i]).0 == k;
                if k == name {
                    assert(pairs[pairs.len() - 1].0 == k);
                } else {
                    let a = if found || i < p {
                        i
                    } else {
                        i - 1
                    };
                    assert(before[a].0 == k);
                    assert(has_group(before, k));
                    let j = choose|j: int| 0 <= j < front.len() && (#[trigger] front[j]).0 == k;
                    assert(pairs[j].0 == k);
                }
            }
            if exists|j: int| 0 <= j < pairs.len() && (#[trigger] pairs[j]).0 == k {
                let j = choose|j: int| 0 <= j < pairs.len() && (#[trigger] pairs[j]).0 == k;
                if k == name {
                    assert(g[p].0 == k);
                } else {
                    assert(front[j].0 == k);
                    assert(has_group(before, k));
                    let i = choose|i: int| 0 <= i < before.len() && (#[trigger] before[i]).0 == k;
                    let b = if found || i < p {
                        i
                    } else {
                        i + 1
                    };
                    assert(g[b].0 == k);
                }
            }
        }
    }
}

/// A name that no pair has, has no values.
proof fn lemma_no_values(pairs: Seq<(Seq<char>, Seq<char>)>, name: Seq<char>)
    requires
        forall|j: int| 0 <= j < pairs.len() ==> (#[trigger] pairs[j]).0 != name,
    ensures
        values_of(pairs, name).len() == 0,
    decreases pairs.len(),
{
    if pairs.len() > 0 {
        let front = pairs.drop_last();
        assert forall|j: int| 0 <= j < front.len() implies (#[trigger] front[j]).0 != name by {
            assert(pairs[j].0 != name);
        }
        assert(pairs[pairs.len() - 1].0 != name);
        lemma_no_values(front, name);
    }
}

/// What a list of pairs holds.
pub open spec fn pair_views(pairs: Seq<(String, String)>) -> Seq<(Seq<char>, Seq<char>)> {
    Seq::new(pairs.len(), |i: int| (pairs[i].0@, pairs[i].1@))
}

/// What a list of groups holds.
pub open spec fn group_views(groups: Seq<(String, Vec<String>)>) -> Seq<Group> {
    Seq::new(groups.len(), |i: int| (groups[i].0@, text::views(groups[i].1@)))
}

/// Adds one pair to the groups.
pub fn add_pair(groups: &mut Vec<(String, Vec<String>)>, name: String, value: String)
    requires
        names_in_order(group_views(old(groups)@)),
    ensures
        group_views(final(groups)@) == with_pair(group_views(old(groups)@), name@, value@),
{
    let ghost g = group_views(groups@);
    let ghost (nv, vv) = (name@, value@);
    let mut i: usize = 0;
    proof {
        assert(g.skip(0) =~= g);
        lemma_place(g, name@);
    }
    while i < groups.len() && text::is_before(groups[i].0.as_str(), name.as_str())
        invariant
            *groups == *old(groups),
            g == group_views(groups@),
            i <= groups@.len(),
            place(g, name@) == i + place(g.skip(i as int), name@),
        decreases groups@.len() - i,
    {
        proof {
            assert(g.skip(i as int).drop_first() =~= g.skip(i + 1));
        }
        i += 1;
    }
    proof {
        assert(place(g, name@) == i);
    }
    if i < groups.len() && text::same(groups[i].0.as_str(), name.as_str()) {
        let (key, mut values) = groups.remove(i);
        let ghost was = text::views(values@);
        values.push(value);
        proof {
            assert(text::views(values@) =~= was.push(vv));
        }
        groups.insert(i, (key, values));
        proof {
            assert(group_views(groups@) =~= with_pair(g, nv, vv));
        }
    } else {
        let mut values: Vec<String> = Vec::new();
        values.push(value);
        proof {
            assert(text::views(values@) =~= seq![vv]);
        }
        groups.insert(i, (name, values));
        proof {
            assert(group_views(groups@) =~= with_pair(g, nv, vv));
        }
    }
}

/// The values of a name are those that its pairs give it, the last one last; a
/// pair of another name gives it none.
pub proof fn law_values_come_in_order(
    pairs: Seq<(Seq<char>, Seq<char>)>,
    name: Seq<char>,
    other: Seq<char>,
    value: Seq<char>,
)
    ensures
        values_of(Seq::empty(), name) == Seq::<Seq<char>>::empty(),
        values_of(pairs.push((name, value)), name) == values_of(pairs, name).push(value),
        other != name ==> values_of(pairs.push((other, value)), name) == values_of(pairs, name),
{
    assert(pairs.push((name, value)).drop_last() =~= pairs);
    assert(pairs.push((other, value)).drop_last() =~= pairs);
}

} // verus!
