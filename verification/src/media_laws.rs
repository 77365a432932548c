//! What merged media queries mean to a device.

use vstd::prelude::*;
use crate::media::{Merge, Query, merged, merged_from, merged_lists, rendered, within};
use crate::text::{joined, lower};

verus! {

/// A device: its media type, and which conditions hold of it.
pub ghost struct Device {
    pub mtype: Seq<char>,
    pub holds: spec_fn(Seq<char>) -> bool,
}

/// Whether a query names the type of a device: no type and `all` are every type.
pub open spec fn names_type(q: Query, d: Device) -> bool {
    match q.mtype {
        None => true,
        Some(t) => lower(t) == "all"@ || lower(t) == lower(d.mtype),
    }
}

/// Whether a query has the modifier `not`, in any case.
pub open spec fn says_not(q: Query) -> bool {
    match q.modifier {
        None => false,
        Some(m) => lower(m) == "not"@,
    }
}

/// Whether every condition holds of a device.
pub open spec fn every_holds(conditions: Seq<Seq<char>>, d: Device) -> bool {
    forall|i: int| 0 <= i < conditions.len() ==> (d.holds)(#[trigger] conditions[i])
}

/// Whether a query matches a device.
pub open spec fn matches_device(q: Query, d: Device) -> bool {
    let plain = names_type(q, d) && if q.conjunction_and {
        every_holds(q.conditions, d)
    } else {
        exists|i: int| 0 <= i < q.conditions.len() && (d.holds)(#[trigger] q.conditions[i])
    };
    plain != says_not(q)
}

/// Whether a modifier has a type to modify.
pub open spec fn modifies_a_type(q: Query) -> bool {
    q.modifier is Some ==> q.mtype is Some
}

/// Whether one of the queries matches a device.
pub open spec fn any_matches(list: Seq<Query>, d: Device) -> bool {
    exists|i: int| 0 <= i < list.len() && matches_device(#[trigger] list[i], d)
}

/// Merged queries mean both: a device matches the merge exactly where it matches the enclosing query
/// and the nested one, and where they exclude each other no device matches both. Two negated queries
/// are left to [`negated_queries_keep_the_longer`].
pub proof fn merge_means_both(a: Query, b: Query, d: Device)
    requires
        modifies_a_type(a),
        modifies_a_type(b),
        !(says_not(a) && says_not(b)),
    ensures
        match merged(a, b) {
            Merge::Query(q) => matches_device(q, d) == (matches_device(a, d) && matches_device(b, d)),
            Merge::Empty => !(matches_device(a, d) && matches_device(b, d)),
            Merge::Unrepresentable => true,
        },
{
    lemma_words();
    if a.conjunction_and && b.conjunction_and {
        if !says_not(a) && !says_not(b) {
            positive_queries_merge(a, b);
            lemma_both_hold(a.conditions, b.conditions, d);
        } else if says_not(a) {
            lemma_opposites(a, b, merged(a, b), d);
        } else {
            lemma_opposites(b, a, merged(a, b), d);
        }
    }
}

proof fn lemma_opposites(neg: Query, pos: Query, m: Merge, d: Device)
    requires
        neg.conjunction_and,
        pos.conjunction_and,
        says_not(neg),
        !says_not(pos),
        neg.mtype is Some,
        m == merged(neg, pos) || m == merged(pos, neg),
    ensures
        match m {
            Merge::Query(q) => matches_device(q, d) == (matches_device(neg, d) && matches_device(pos, d)),
            Merge::Empty => !(matches_device(neg, d) && matches_device(pos, d)),
            Merge::Unrepresentable => true,
        },
{
    lemma_words();
    if pos.mtype is Some {
        negated_query_of_another_type_changes_nothing(neg, pos, m);
        if m is Empty && every_holds(pos.conditions, d) {
            assert(all_among(neg.conditions, pos.conditions));
            assert forall|i: int| 0 <= i < neg.conditions.len() implies (d.holds)(
                #[trigger] neg.conditions[i],
            ) by {
                assert(pos.conditions.contains(neg.conditions[i]));
                let j = choose|j: int|
                    0 <= j < pos.conditions.len() && pos.conditions[j] == neg.conditions[i];
                assert((d.holds)(pos.conditions[j]));
            }
        }
    }
}

proof fn lemma_words()
    ensures
        "not"@ != "all"@,
{
    reveal_strlit("not");
    reveal_strlit("all");
    assert("not"@[0] == 'n' && "all"@[0] == 'a');
}

proof fn lemma_both_hold(a: Seq<Seq<char>>, b: Seq<Seq<char>>, d: Device)
    ensures
        every_holds(a + b, d) == (every_holds(a, d) && every_holds(b, d)),
{
    let all = a + b;
    if every_holds(all, d) {
        assert forall|i: int| 0 <= i < a.len() implies (d.holds)(#[trigger] a[i]) by {
            assert(all[i] == a[i]);
        }
        assert forall|i: int| 0 <= i < b.len() implies (d.holds)(#[trigger] b[i]) by {
            assert(all[a.len() + i] == b[i]);
        }
    }
}

/// Two queries that `and` joins and that are not negated always merge, unless they name two types:
/// the merge has the conditions of both, those of the enclosing query first, joined by `and`; its
/// type and its modifier are those of one of the two, and it is not negated.
pub proof fn positive_queries_merge(a: Query, b: Query)
    requires
        a.conjunction_and,
        b.conjunction_and,
        modifies_a_type(a),
        modifies_a_type(b),
        !says_not(a),
        !says_not(b),
    ensures
        ({
            let apart = a.mtype is Some && b.mtype is Some && lower(a.mtype->0) != lower(b.mtype->0)
                && lower(a.mtype->0) != "all"@ && lower(b.mtype->0) != "all"@;
            match merged(a, b) {
                Merge::Query(q) => {
                    &&& !apart
                    &&& q.conditions == a.conditions + b.conditions
                    &&& q.conjunction_and
                    &&& !says_not(q)
                    &&& q.mtype == a.mtype || q.mtype == b.mtype
                    &&& a.mtype is Some && lower(a.mtype->0) != "all"@ ==> q.mtype == a.mtype
                    &&& q.modifier is Some ==> (a.modifier is Some && q.modifier->0 == lower(
                        a.modifier->0,
                    )) || (b.modifier is Some && q.modifier->0 == lower(b.modifier->0))
                    &&& forall|d: Device|
                        #![trigger names_type(q, d)]
                        names_type(q, d) == (names_type(a, d) && names_type(b, d))
                },
                Merge::Empty => apart,
                Merge::Unrepresentable => false,
            }
        }),
{
    lemma_words();
    if a.modifier is Some {
        lemma_lower_twice(a.modifier->0);
    }
    if b.modifier is Some {
        lemma_lower_twice(b.modifier->0);
    }
}

proof fn lemma_lower_twice(s: Seq<char>)
    ensures
        lower(lower(s)) == lower(s),
{
    assert(lower(lower(s)) =~= lower(s));
}

/// A negated query and one of another type that is not negated, in either order: what is left is the
/// one that is not negated. With the same type they exclude each other where every condition of the
/// negated one is among those of the other, and merge to no query; with the type `all` neither.
pub proof fn negated_query_of_another_type_changes_nothing(neg: Query, pos: Query, m: Merge)
    requires
        neg.conjunction_and,
        pos.conjunction_and,
        neg.mtype is Some,
        pos.mtype is Some,
        says_not(neg),
        !says_not(pos),
        m == merged(neg, pos) || m == merged(pos, neg),
    ensures
        lower(neg.mtype->0) != lower(pos.mtype->0) && lower(neg.mtype->0) != "all"@ && lower(
            pos.mtype->0,
        ) != "all"@ ==> m is Query && m->Query_0.conditions == pos.conditions && m->Query_0.mtype
            == pos.mtype && m->Query_0.conjunction_and && !says_not(m->Query_0),
        lower(neg.mtype->0) != lower(pos.mtype->0) && (lower(neg.mtype->0) == "all"@ || lower(
            pos.mtype->0,
        ) == "all"@) ==> m == Merge::Unrepresentable,
        lower(neg.mtype->0) == lower(pos.mtype->0) ==> !(m is Query) && (m == Merge::Empty
            <==> all_among(neg.conditions, pos.conditions)),
{
    if pos.modifier is Some {
        lemma_lower_twice(pos.modifier->0);
    }
    assert(all_among(neg.conditions, pos.conditions) == within(neg.conditions, pos.conditions));
}

/// Whether each of the texts `a` is among `b`.
pub open spec fn all_among(a: Seq<Seq<char>>, b: Seq<Seq<char>>) -> bool {
    forall|i: int| 0 <= i < a.len() ==> b.contains(#[trigger] a[i])
}

/// Two negated queries of one type merge where one has all the conditions of the other: into the one
/// with more conditions. They never exclude each other.
pub proof fn negated_queries_keep_the_longer(a: Query, b: Query)
    requires
        a.conjunction_and,
        b.conjunction_and,
        a.mtype is Some,
        b.mtype is Some,
        says_not(a),
        says_not(b),
    ensures
        match merged(a, b) {
            Merge::Query(q) => {
                &&& lower(a.mtype->0) == lower(b.mtype->0)
                &&& q.mtype == a.mtype
                &&& says_not(q)
                &&& q.conditions == a.conditions || q.conditions == b.conditions
                &&& forall|i: int|
                    0 <= i < a.conditions.len() ==> q.conditions.contains(#[trigger] a.conditions[i])
                &&& forall|i: int|
                    0 <= i < b.conditions.len() ==> q.conditions.contains(#[trigger] b.conditions[i])
            },
            Merge::Empty => false,
            Merge::Unrepresentable => lower(a.mtype->0) == lower(b.mtype->0) ==> a.conditions
                != b.conditions,
        },
{
    lemma_words();
    lemma_lower_twice(a.modifier->0);
    assert forall|i: int| 0 <= i < a.conditions.len() implies a.conditions.contains(
        #[trigger] a.conditions[i],
    ) by {}
    assert forall|i: int| 0 <= i < b.conditions.len() implies b.conditions.contains(
        #[trigger] b.conditions[i],
    ) by {}
}

/// Merged lists mean both: a device matches the merged list exactly where it matches some query of
/// the enclosing list and some query of the nested one.
pub proof fn merged_lists_mean_both(outer: Seq<Query>, inner: Seq<Query>, d: Device)
    requires
        forall|i: int| 0 <= i < outer.len() ==> modifies_a_type(#[trigger] outer[i]),
        forall|j: int| 0 <= j < inner.len() ==> modifies_a_type(#[trigger] inner[j]),
        forall|i: int, j: int|
            0 <= i < outer.len() && 0 <= j < inner.len() ==> !(says_not(#[trigger] outer[i])
                && says_not(#[trigger] inner[j])),
        merged_lists(outer, inner) is Some,
    ensures
        any_matches(merged_lists(outer, inner)->0, d) == (any_matches(outer, d) && any_matches(inner, d)),
{
    lemma_merged_from(outer, inner, 0, 0, Seq::empty(), d);
    let l = merged_lists(outer, inner)->0;
    if any_matches(outer, d) && any_matches(inner, d) {
        let i = choose|i: int| 0 <= i < outer.len() && matches_device(#[trigger] outer[i], d);
        let j = choose|j: int| 0 <= j < inner.len() && matches_device(#[trigger] inner[j], d);
        assert(pair_matches(outer, inner, i, j, d));
    }
    if any_matches(l, d) {
        let (i, j) = choose|i: int, j: int| pair_after(outer, inner, 0, 0, i, j) && pair_matches(outer, inner, i, j, d);
        assert(matches_device(outer[i], d) && matches_device(inner[j], d));
    }
}

spec fn pair_matches(outer: Seq<Query>, inner: Seq<Query>, i: int, j: int, d: Device) -> bool {
    matches_device(outer[i], d) && matches_device(inner[j], d)
}

/// Whether the pair `i`, `j` comes at `p`, `k` or after it.
spec fn pair_after(outer: Seq<Query>, inner: Seq<Query>, p: int, k: int, i: int, j: int) -> bool {
    p <= i < outer.len() && 0 <= j < inner.len() && (i == p ==> k <= j)
}

proof fn lemma_merged_from(
    outer: Seq<Query>,
    inner: Seq<Query>,
    p: int,
    k: int,
    out: Seq<Query>,
    d: Device,
)
    requires
        0 <= p <= outer.len(),
        0 <= k <= inner.len(),
        forall|i: int| 0 <= i < outer.len() ==> modifies_a_type(#[trigger] outer[i]),
        forall|j: int| 0 <= j < inner.len() ==> modifies_a_type(#[trigger] inner[j]),
        forall|i: int, j: int|
            0 <= i < outer.len() && 0 <= j < inner.len() ==> !(says_not(#[trigger] outer[i])
                && says_not(#[trigger] inner[j])),
        merged_from(outer, inner, p, k, out) is Some,
    ensures
        any_matches(merged_from(outer, inner, p, k, out)->0, d) == (any_matches(out, d)
            || exists|i: int, j: int| #[trigger]
            pair_matches(outer, inner, i, j, d) && pair_after(outer, inner, p, k, i, j)),
    decreases outer.len() - p, inner.len() - k,
{
    if p < outer.len() {
        if k < inner.len() {
            merge_means_both(outer[p], inner[k], d);
            match merged(outer[p], inner[k]) {
                Merge::Empty => {
                    lemma_merged_from(outer, inner, p, k + 1, out, d);
                    assert(!pair_matches(outer, inner, p, k, d));
                },
                Merge::Unrepresentable => {},
                Merge::Query(q) => {
                    lemma_merged_from(outer, inner, p, k + 1, out.push(q), d);
                    lemma_any_push(out, q, d);
                    assert(pair_matches(outer, inner, p, k, d) == matches_device(q, d));
                },
            }
        } else {
            lemma_merged_from(outer, inner, p + 1, 0, out, d);
        }
    }
}

proof fn lemma_any_push(out: Seq<Query>, q: Query, d: Device)
    ensures
        any_matches(out.push(q), d) == (any_matches(out, d) || matches_device(q, d)),
{
    let l = out.push(q);
    if any_matches(out, d) {
        let i = choose|i: int| 0 <= i < out.len() && matches_device(#[trigger] out[i], d);
        assert(l[i] == out[i]);
    }
    if matches_device(q, d) {
        assert(l[out.len() as int] == q);
    }
    if any_matches(l, d) {
        let i = choose|i: int| 0 <= i < l.len() && matches_device(#[trigger] l[i], d);
        if i < out.len() {
            assert(out[i] == l[i]);
        }
    }
}

/// Lists of queries that `and` joins and that are not negated always merge, and give at most one
/// query for every pair.
pub proof fn positive_lists_merge(outer: Seq<Query>, inner: Seq<Query>)
    requires
        forall|i: int|
            0 <= i < outer.len() ==> (#[trigger] outer[i]).conjunction_and && modifies_a_type(outer[i])
                && !says_not(outer[i]),
        forall|j: int|
            0 <= j < inner.len() ==> (#[trigger] inner[j]).conjunction_and && modifies_a_type(inner[j])
                && !says_not(inner[j]),
    ensures
        merged_lists(outer, inner) is Some,
{
    lemma_positive_from(outer, inner, 0, 0, Seq::empty());
}

proof fn lemma_positive_from(outer: Seq<Query>, inner: Seq<Query>, p: int, k: int, out: Seq<Query>)
    requires
        0 <= p <= outer.len(),
        0 <= k <= inner.len(),
        forall|i: int|
            0 <= i < outer.len() ==> (#[trigger] outer[i]).conjunction_and && modifies_a_type(outer[i])
                && !says_not(outer[i]),
        forall|j: int|
            0 <= j < inner.len() ==> (#[trigger] inner[j]).conjunction_and && modifies_a_type(inner[j])
                && !says_not(inner[j]),
    ensures
        merged_from(outer, inner, p, k, out) is Some,
    decreases outer.len() - p, inner.len() - k,
{
    if p < outer.len() {
        if k < inner.len() {
            positive_queries_merge(outer[p], inner[k]);
            match merged(outer[p], inner[k]) {
                Merge::Query(q) => {
                    lemma_positive_from(outer, inner, p, k + 1, out.push(q));
                },
                _ => {
                    lemma_positive_from(outer, inner, p, k + 1, out);
                },
            }
        } else {
            lemma_positive_from(outer, inner, p + 1, 0, out);
        }
    }
}

/// The text of a query has its modifier first, then its type, then its conditions, and the words
/// between them: a query without conditions is its modifier and its type, and each further condition
/// comes at the end, after `and` or `or`.
pub proof fn conditions_come_last(q: Query, c: Seq<char>)
    ensures
        ({
            let word = if q.conjunction_and {
                " and "@
            } else {
                " or "@
            };
            let more = rendered(Query { conditions: q.conditions.push(c), ..q });
            &&& q.conditions.len() > 0 ==> more == rendered(q) + word + c
            &&& q.conditions.len() == 0 && q.mtype is Some ==> more == rendered(q) + " and "@ + c
            &&& q.conditions.len() == 0 && q.mtype is None ==> more == rendered(q) + c
        }),
        q.conditions.len() == 0 && q.modifier is None && q.mtype is Some ==> rendered(q) == q.mtype->0,
        q.conditions.len() == 0 && q.modifier is Some && q.mtype is Some ==> rendered(q)
            == q.modifier->0 + seq![' '] + q.mtype->0,
{
    let cs = q.conditions.push(c);
    assert(cs.drop_last() =~= q.conditions);
    let word = if q.conjunction_and {
        " and "@
    } else {
        " or "@
    };
    let more = rendered(Query { conditions: cs, ..q });
    if q.conditions.len() > 0 {
        assert(joined(cs, word) == joined(q.conditions, word) + word + c);
        assert(more =~= rendered(q) + word + c);
    } else {
        assert(joined(cs, word) == c);
        assert(joined(q.conditions, word) =~= Seq::empty());
        if q.mtype is Some {
            assert(more =~= rendered(q) + " and "@ + c);
            if q.modifier is Some {
                assert(rendered(q) =~= q.modifier->0 + seq![' '] + q.mtype->0);
            } else {
                assert(rendered(q) =~= q.mtype->0);
            }
        } else {
            assert(more =~= rendered(q) + c);
        }
    }
}

} // verus!
