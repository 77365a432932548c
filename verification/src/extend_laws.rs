//! What an `@extend` reaches.

use vstd::prelude::*;
use crate::edges::reached;
use crate::eval::{Ev, next_answer};
use crate::extends::{
    Exts, all_reached, any_placeholder, applies, applying, ask_extend, copies_seen, exts_of, is_copy,
    only_copies, ranked, reach, reach_all, rewritten, rewritten_inside, sight, swept, swept_node,
    targets_found,
};
use crate::edges::with_text;
use crate::host::{Answer, Halt};
use crate::laws::extensions_are_ordered;
use crate::out::{Item, Node, SrcLines};
use crate::state::{get, lemma_entry};
use crate::text::texts;

verus! {

/// Where keys lead.
pub type Edges = Seq<(Seq<char>, Seq<Seq<char>>)>;

// ---- paths ---------------------------------------------------------------

/// Whether each key of a path leads to the next.
pub open spec fn leads(edges: Edges, path: Seq<Seq<char>>) -> bool {
    &&& path.len() > 0
    &&& forall|i: int|
        0 <= i < path.len() - 1 ==> reached(edges, #[trigger] path[i]).contains(path[i + 1])
}

/// Whether there is a path from one key to another.
pub open spec fn led(edges: Edges, from: Seq<char>, to: Seq<char>) -> bool {
    exists|path: Seq<Seq<char>>| #[trigger] leads(edges, path) && path[0] == from && path.last() == to
}

/// The keys that lead anywhere.
spec fn sources(edges: Edges) -> Set<Seq<char>> {
    Set::new(|k: Seq<char>| exists|i: int| 0 <= i < edges.len() && (#[trigger] edges[i]).0 == k)
}

proof fn lemma_sources(edges: Edges)
    ensures
        sources(edges).finite(),
        sources(edges).len() <= edges.len(),
    decreases edges.len(),
{
    if edges.len() == 0 {
        assert(sources(edges) =~= Set::empty());
    } else {
        let less = edges.drop_last();
        lemma_sources(less);
        assert(sources(edges) =~= sources(less).insert(edges.last().0)) by {
            assert forall|k: Seq<char>| sources(edges).contains(k) implies sources(less).insert(
                edges.last().0,
            ).contains(k) by {
                let i = choose|i: int| 0 <= i < edges.len() && (#[trigger] edges[i]).0 == k;
                if i < less.len() {
                    assert(less[i].0 == k);
                }
            }
            assert forall|k: Seq<char>| sources(less).insert(edges.last().0).contains(k) implies sources(
                edges,
            ).contains(k) by {
                if k == edges.last().0 {
                    assert(edges[edges.len() - 1].0 == k);
                } else {
                    let i = choose|i: int| 0 <= i < less.len() && (#[trigger] less[i]).0 == k;
                    assert(edges[i].0 == k);
                }
            }
        }
    }
}

/// The keys that lead anywhere and have not been seen.
spec fn unseen(edges: Edges, seen: Seq<Seq<char>>) -> Set<Seq<char>> {
    sources(edges).difference(seen.to_set())
}

proof fn lemma_unseen_shrinks(edges: Edges, a: Seq<Seq<char>>, b: Seq<Seq<char>>)
    requires
        forall|k: Seq<char>| a.contains(k) ==> b.contains(k),
    ensures
        unseen(edges, b).finite(),
        unseen(edges, b).len() <= unseen(edges, a).len(),
{
    lemma_sources(edges);
    assert(unseen(edges, b).subset_of(unseen(edges, a)));
    assert(unseen(edges, a).finite()) by {
        vstd::set_lib::lemma_len_subset(unseen(edges, a), sources(edges));
    }
    vstd::set_lib::lemma_len_subset(unseen(edges, b), unseen(edges, a));
}

proof fn lemma_unseen_less(edges: Edges, seen: Seq<Seq<char>>, key: Seq<char>)
    requires
        sources(edges).contains(key),
        !seen.contains(key),
    ensures
        unseen(edges, seen.push(key)).len() < unseen(edges, seen).len(),
{
    lemma_unseen_shrinks(edges, seen, seen);
    let more = seen.push(key);
    assert(unseen(edges, more) =~= unseen(edges, seen).remove(key)) by {
        assert forall|k: Seq<char>| unseen(edges, seen).remove(key).contains(k) implies unseen(
            edges,
            more,
        ).contains(k) by {
            if more.contains(k) {
                let i = choose|i: int| 0 <= i < more.len() && more[i] == k;
                if i < seen.len() {
                    assert(seen[i] == k);
                }
            }
        }
        assert forall|k: Seq<char>| unseen(edges, more).contains(k) implies unseen(edges, seen).remove(
            key,
        ).contains(k) by {
            assert(more[seen.len() as int] == key);
            assert(more.contains(key));
            if seen.contains(k) {
                let i = choose|i: int| 0 <= i < seen.len() && seen[i] == k;
                assert(more[i] == k);
            }
        }
    }
    assert(unseen(edges, seen).contains(key));
}

/// Whether all that a new key of `after` leads to is there too.
spec fn closed_since(edges: Edges, before: Seq<Seq<char>>, after: Seq<Seq<char>>) -> bool {
    &&& forall|k: Seq<char>| before.contains(k) ==> after.contains(k)
    &&& forall|k: Seq<char>, t: Seq<char>|
        after.contains(k) && !before.contains(k) && #[trigger] reached(edges, k).contains(t)
            ==> after.contains(t)
}

proof fn lemma_reach_closed(edges: Edges, key: Seq<char>, seen: Seq<Seq<char>>, hops: nat)
    requires
        hops > unseen(edges, seen).len(),
    ensures
        closed_since(edges, seen, reach(edges, key, seen, hops)),
        reach(edges, key, seen, hops).contains(key),
    decreases hops, 0nat, 0int,
{
    if !seen.contains(key) {
        let more = seen.push(key);
        let keys = reached(edges, key);
        assert forall|k: Seq<char>| seen.contains(k) implies more.contains(k) by {
            let i = choose|i: int| 0 <= i < seen.len() && seen[i] == k;
            assert(more[i] == k);
        }
        assert(more[seen.len() as int] == key);
        if get(edges, key) is Some {
            lemma_entry(edges, key);
            assert(sources(edges).contains(key)) by {
                assert(edges[crate::state::entry(edges, key)].0 == key);
            }
            lemma_unseen_less(edges, seen, key);
            lemma_reach_all_closed(edges, keys, 0, more, (hops - 1) as nat);
        } else {
            assert(keys.len() == 0);
        }
        let out = reach(edges, key, seen, hops);
        assert(out == reach_all(edges, keys, 0, more, (hops - 1) as nat));
        assert forall|k: Seq<char>, t: Seq<char>|
            out.contains(k) && !seen.contains(k) && #[trigger] reached(edges, k).contains(
                t,
            ) implies out.contains(t) by {
            if k == key {
                let i = choose|i: int| 0 <= i < keys.len() && keys[i] == t;
                assert(keys[i] == t);
            } else if more.contains(k) {
                let i = choose|i: int| 0 <= i < more.len() && more[i] == k;
                assert(i < seen.len());
                assert(seen[i] == k);
            }
        }
        assert(out.contains(key));
    }
}

proof fn lemma_reach_all_closed(edges: Edges, keys: Seq<Seq<char>>, i: int, seen: Seq<Seq<char>>, hops: nat)
    requires
        0 <= i <= keys.len(),
        hops > unseen(edges, seen).len(),
    ensures
        closed_since(edges, seen, reach_all(edges, keys, i, seen, hops)),
        forall|k: int|
            i <= k < keys.len() ==> reach_all(edges, keys, i, seen, hops).contains(#[trigger] keys[k]),
    decreases hops, 1nat, keys.len() - i,
{
    if i < keys.len() {
        let next = reach(edges, keys[i], seen, hops);
        lemma_reach_closed(edges, keys[i], seen, hops);
        lemma_unseen_shrinks(edges, seen, next);
        lemma_reach_all_closed(edges, keys, i + 1, next, hops);
        let out = reach_all(edges, keys, i, seen, hops);
        assert forall|k: Seq<char>, t: Seq<char>|
            out.contains(k) && !seen.contains(k) && #[trigger] reached(edges, k).contains(
                t,
            ) implies out.contains(t) by {
            if next.contains(k) {
                assert(next.contains(t));
            }
        }
    }
}

proof fn lemma_reach_led(edges: Edges, key: Seq<char>, seen: Seq<Seq<char>>, hops: nat, t: Seq<char>)
    requires
        reach(edges, key, seen, hops).contains(t),
        !seen.contains(t),
    ensures
        led(edges, key, t),
    decreases hops, 0nat, 0int,
{
    if hops > 0 && !seen.contains(key) {
        let more = seen.push(key);
        if t == key {
            assert(leads(edges, seq![key]));
        } else {
            assert(!more.contains(t)) by {
                if more.contains(t) {
                    let i = choose|i: int| 0 <= i < more.len() && more[i] == t;
                    assert(i < seen.len());
                    assert(seen[i] == t);
                }
            }
            let k = lemma_reach_all_led(edges, reached(edges, key), 0, more, (hops - 1) as nat, t);
            let next = reached(edges, key)[k];
            let path = choose|path: Seq<Seq<char>>| #[trigger]
                leads(edges, path) && path[0] == next && path.last() == t;
            lemma_path_before(edges, key, path);
        }
    }
}

proof fn lemma_path_before(edges: Edges, key: Seq<char>, path: Seq<Seq<char>>)
    requires
        leads(edges, path),
        reached(edges, key).contains(path[0]),
    ensures
        led(edges, key, path.last()),
{
    let longer = seq![key] + path;
    assert forall|i: int| 0 <= i < longer.len() - 1 implies reached(edges, #[trigger] longer[i]).contains(
        longer[i + 1],
    ) by {
        if i > 0 {
            assert(longer[i] == path[i - 1]);
            assert(longer[i + 1] == path[i - 1 + 1]);
        }
    }
    assert(leads(edges, longer) && longer[0] == key && longer.last() == path.last());
}

proof fn lemma_reach_all_led(
    edges: Edges,
    keys: Seq<Seq<char>>,
    i: int,
    seen: Seq<Seq<char>>,
    hops: nat,
    t: Seq<char>,
) -> (k: int)
    requires
        0 <= i <= keys.len(),
        reach_all(edges, keys, i, seen, hops).contains(t),
        !seen.contains(t),
    ensures
        i <= k < keys.len(),
        led(edges, keys[k], t),
    decreases hops, 1nat, keys.len() - i,
{
    let next = reach(edges, keys[i], seen, hops);
    if i >= keys.len() {
        0
    } else if next.contains(t) {
        lemma_reach_led(edges, keys[i], seen, hops, t);
        i
    } else {
        lemma_reach_all_led(edges, keys, i + 1, next, hops, t)
    }
}

/// A module sees exactly what it leads to along what is loaded, over any number of modules: itself,
/// what it loads, and what those load in turn.
pub proof fn module_sees_what_it_leads_to(edges: Edges, from: Seq<char>, to: Seq<char>)
    ensures
        all_reached(edges, from).contains(to) == led(edges, from, to),
{
    lemma_sources(edges);
    let none = Seq::<Seq<char>>::empty();
    assert(unseen(edges, none) =~= sources(edges)) by {
        assert forall|k: Seq<char>| sources(edges).contains(k) implies unseen(edges, none).contains(k) by {
            assert(!none.contains(k));
        }
    }
    lemma_reach_closed(edges, from, none, edges.len() + 1);
    let all = all_reached(edges, from);
    if all.contains(to) {
        lemma_reach_led(edges, from, none, edges.len() + 1, to);
    }
    if led(edges, from, to) {
        let path = choose|path: Seq<Seq<char>>| #[trigger]
            leads(edges, path) && path[0] == from && path.last() == to;
        lemma_path_stays(edges, all, path, (path.len() - 1) as int);
    }
}

proof fn lemma_path_stays(edges: Edges, all: Seq<Seq<char>>, path: Seq<Seq<char>>, i: int)
    requires
        leads(edges, path),
        all.contains(path[0]),
        closed_since(edges, Seq::empty(), all),
        0 <= i < path.len(),
    ensures
        all.contains(path[i]),
    decreases i,
{
    if i > 0 {
        lemma_path_stays(edges, all, path, i - 1);
        assert(reached(edges, path[i - 1]).contains(path[i - 1 + 1]));
        assert(!Seq::<Seq<char>>::empty().contains(path[i - 1]));
    }
}

// ---- sight ---------------------------------------------------------------

/// Whether an `@extend` written in `origin` may rewrite the CSS under a key: that of a module which
/// `origin` leads to, or of a copy of a module that leads to `origin`; where copies were made, an
/// origin that the entry file does not lead to rewrites copies alone.
pub open spec fn in_sight(edges: Edges, copies: Seq<(Seq<char>, Seq<char>)>, origin: Seq<char>, key: Seq<char>) -> bool {
    let led_to = led(edges, origin, key) || exists|i: int|
        0 <= i < copies.len() && (#[trigger] copies[i]).0 == key && led(edges, copies[i].1, origin);
    let copy = exists|i: int| 0 <= i < copies.len() && (#[trigger] copies[i]).0 == key;
    led_to && (copies.len() > 0 && origin.len() > 0 && !led(edges, Seq::empty(), origin) ==> copy)
}

/// What an origin sees is what is in its sight.
pub proof fn origin_sees_what_is_in_sight(
    edges: Edges,
    copies: Seq<(Seq<char>, Seq<char>)>,
    origin: Seq<char>,
    key: Seq<char>,
)
    ensures
        sight(edges, copies, origin).contains(key) == in_sight(edges, copies, origin, key),
{
    module_sees_what_it_leads_to(edges, origin, key);
    module_sees_what_it_leads_to(edges, Seq::empty(), origin);
    lemma_copies_seen(edges, copies, 0, origin, all_reached(edges, origin), key);
    lemma_only_copies(
        copies,
        copies_seen(edges, copies, 0, origin, all_reached(edges, origin)),
        key,
    );
}

proof fn lemma_with_text(list: Seq<Seq<char>>, t: Seq<char>, key: Seq<char>)
    ensures
        with_text(list, t).contains(key) == (list.contains(key) || key == t),
{
    let more = with_text(list, t);
    if list.contains(key) {
        let i = choose|i: int| 0 <= i < list.len() && list[i] == key;
        assert(more[i] == key);
    }
    if !list.contains(t) {
        assert(more[list.len() as int] == t);
        if more.contains(key) {
            let i = choose|i: int| 0 <= i < more.len() && more[i] == key;
            if i < list.len() {
                assert(list[i] == key);
            }
        }
    }
}

proof fn lemma_copies_seen(
    edges: Edges,
    copies: Seq<(Seq<char>, Seq<char>)>,
    i: int,
    origin: Seq<char>,
    seen: Seq<Seq<char>>,
    key: Seq<char>,
)
    requires
        0 <= i <= copies.len(),
    ensures
        copies_seen(edges, copies, i, origin, seen).contains(key) == (seen.contains(key)
            || exists|k: int|
            i <= k < copies.len() && (#[trigger] copies[k]).0 == key && led(edges, copies[k].1, origin)),
    decreases copies.len() - i,
{
    if i < copies.len() {
        module_sees_what_it_leads_to(edges, copies[i].1, origin);
        let next = if all_reached(edges, copies[i].1).contains(origin) {
            with_text(seen, copies[i].0)
        } else {
            seen
        };
        lemma_with_text(seen, copies[i].0, key);
        lemma_copies_seen(edges, copies, i + 1, origin, next, key);
    }
}

proof fn lemma_only_copies(copies: Seq<(Seq<char>, Seq<char>)>, keys: Seq<Seq<char>>, key: Seq<char>)
    ensures
        only_copies(copies, keys).contains(key) == (keys.contains(key) && is_copy(copies, key)),
    decreases keys.len(),
{
    if keys.len() > 0 {
        let less = keys.drop_last();
        lemma_only_copies(copies, less, key);
        let before = only_copies(copies, less);
        if keys.contains(key) {
            let i = choose|i: int| 0 <= i < keys.len() && keys[i] == key;
            if i < less.len() {
                assert(less[i] == key);
            }
        }
        if less.contains(key) {
            let i = choose|i: int| 0 <= i < less.len() && less[i] == key;
            assert(keys[i] == key);
        }
        assert(keys[keys.len() - 1] == keys.last());
        if is_copy(copies, keys.last()) {
            let out = before.push(keys.last());
            assert(out[before.len() as int] == keys.last());
            if before.contains(key) {
                let i = choose|i: int| 0 <= i < before.len() && before[i] == key;
                assert(out[i] == key);
            }
            if out.contains(key) {
                let i = choose|i: int| 0 <= i < out.len() && out[i] == key;
                if i < before.len() {
                    assert(before[i] == key);
                }
            }
        }
    }
}

// ---- which extensions apply ----------------------------------------------

/// A placeholder whose name begins with `-` or `_`.
pub open spec fn private_placeholder(t: Seq<char>) -> bool {
    t.len() >= 2 && t[0] == '%' && (t[1] == '-' || t[1] == '_')
}

/// The rules of a module are rewritten by exactly the extensions that reach it: those written in the
/// module itself, and those written in a module that leads to it along what is loaded, or whose copy
/// it is, unless their target is a private placeholder. The number of each is handed to the rewriting
/// of the module's rules, once.
pub proof fn extensions_reach_what_is_loaded(s: Ev, k: int, scope: Seq<char>)
    requires
        0 <= k < s.page.extends.len() <= u64::MAX,
    ensures
        ({
            let e = s.page.extends[k];
            let reaches = if private_placeholder(e.target) {
                e.origin == scope
            } else {
                e.origin == scope || in_sight(s.page.deps, s.page.copies, e.origin, scope)
            };
            let numbers = applying(exts_of(s), scope, 0, Seq::empty());
            &&& numbers.contains(k as u64) == reaches
            &&& forall|i: int, j: int|
                0 <= i < j < numbers.len() ==> #[trigger] numbers[i] != #[trigger] numbers[j]
        }),
{
    let x = exts_of(s);
    let n = s.page.extends.len();
    extensions_are_ordered(x.sees, n);
    origin_sees_what_is_in_sight(s.page.deps, s.page.copies, x.list[k].origin, scope);
    lemma_applying(x, scope, 0, Seq::empty());
    let numbers = applying(x, scope, 0, Seq::empty());
    lemma_ranked_holds(x.sees, n, k);
    if applies(x, k, scope) {
        let i = choose|i: int| 0 <= i < x.order.len() && x.order[i] == k;
        assert(x.order[i] == k);
        assert(numbers.contains(x.order[i] as u64));
    }
    if numbers.contains(k as u64) {
        let a = choose|a: int| 0 <= a < numbers.len() && numbers[a] == k as u64;
        assert(counted_in(x, scope, x.order.len() as int, numbers[a]));
        let i = choose|i: int|
            0 <= i < x.order.len() && applies(x, #[trigger] x.order[i], scope) && x.order[i] as u64
                == numbers[a];
        assert(x.order[i] == k);
    }
}

proof fn lemma_ranked_holds(sees: Seq<Seq<Seq<char>>>, n: nat, k: int)
    requires
        n <= sees.len(),
        0 <= k < n,
    ensures
        ranked(sees, n).contains(k),
    decreases n,
{
    let before = ranked(sees, (n - 1) as nat);
    extensions_are_ordered(sees, (n - 1) as nat);
    let p = crate::extends::rank_place(sees, before, n - 1, 0);
    lemma_rank_range(sees, before, n - 1, 0);
    let after = before.insert(p, n - 1);
    if k == n - 1 {
        assert(after[p] == k);
    } else {
        lemma_ranked_holds(sees, (n - 1) as nat, k);
        let i = choose|i: int| 0 <= i < before.len() && before[i] == k;
        if i < p {
            assert(after[i] == k);
        } else {
            assert(after[i + 1] == k);
        }
    }
}

proof fn lemma_rank_range(sees: Seq<Seq<Seq<char>>>, order: Seq<int>, k: int, i: int)
    requires
        0 <= i <= order.len(),
    ensures
        i <= crate::extends::rank_place(sees, order, k, i) <= order.len(),
    decreases order.len() - i,
{
    if i < order.len() && !(sees[order[i]].len() < sees[k].len()) {
        lemma_rank_range(sees, order, k, i + 1);
    }
}

/// Whether a number is that of an extension among the first `i` that applies.
spec fn counted_in(x: Exts, scope: Seq<char>, i: int, v: u64) -> bool {
    exists|j: int| 0 <= j < i && applies(x, #[trigger] x.order[j], scope) && x.order[j] as u64 == v
}

/// The numbers of the extensions that apply, from `i` on, after what is there.
proof fn lemma_applying(x: Exts, scope: Seq<char>, i: int, acc: Seq<u64>)
    requires
        0 <= i <= x.order.len() <= u64::MAX,
        forall|a: int| 0 <= a < x.order.len() ==> 0 <= #[trigger] x.order[a] < x.order.len(),
        forall|a: int, b: int| 0 <= a < b < x.order.len() ==> #[trigger] x.order[a] != #[trigger] x.order[b],
        forall|a: int, b: int| 0 <= a < b < acc.len() ==> #[trigger] acc[a] != #[trigger] acc[b],
        forall|a: int| 0 <= a < acc.len() ==> counted_in(x, scope, i, #[trigger] acc[a]),
        forall|j: int|
            0 <= j < i && applies(x, #[trigger] x.order[j], scope) ==> acc.contains(x.order[j] as u64),
    ensures
        ({
            let out = applying(x, scope, i, acc);
            &&& forall|a: int, b: int| 0 <= a < b < out.len() ==> #[trigger] out[a] != #[trigger] out[b]
            &&& forall|a: int|
                0 <= a < out.len() ==> counted_in(x, scope, x.order.len() as int, #[trigger] out[a])
            &&& forall|j: int|
                0 <= j < x.order.len() && applies(x, #[trigger] x.order[j], scope) ==> out.contains(
                    x.order[j] as u64,
                )
        }),
    decreases x.order.len() - i,
{
    if i < x.order.len() {
        let next = if applies(x, x.order[i], scope) {
            acc.push(x.order[i] as u64)
        } else {
            acc
        };
        assert forall|a: int| 0 <= a < next.len() implies counted_in(x, scope, i + 1, #[trigger] next[a]) by {
            if a < acc.len() {
                assert(counted_in(x, scope, i, acc[a]));
                let j = choose|j: int|
                    0 <= j < i && applies(x, #[trigger] x.order[j], scope) && x.order[j] as u64 == acc[a];
                assert(applies(x, x.order[j], scope));
            } else {
                assert(applies(x, x.order[i], scope));
            }
        }
        assert forall|a: int, b: int| 0 <= a < b < next.len() implies #[trigger] next[a]
            != #[trigger] next[b] by {
            if b == acc.len() {
                assert(counted_in(x, scope, i, acc[a]));
                let j = choose|j: int|
                    0 <= j < i && applies(x, #[trigger] x.order[j], scope) && x.order[j] as u64 == acc[a];
                assert(x.order[j] != x.order[i]);
            }
        }
        assert forall|j: int| 0 <= j < i + 1 && applies(x, #[trigger] x.order[j], scope) implies next.contains(
            x.order[j] as u64,
        ) by {
            if j == i {
                assert(next[acc.len() as int] == x.order[i] as u64);
            } else {
                assert(acc.contains(x.order[j] as u64));
                let a = choose|a: int| 0 <= a < acc.len() && acc[a] == x.order[j] as u64;
                assert(next[a] == x.order[j] as u64);
            }
        }
        lemma_applying(x, scope, i + 1, next);
        assert(applying(x, scope, i, acc) == applying(x, scope, i + 1, next));
    } else {
        assert(i == x.order.len());
        assert(applying(x, scope, i, acc) == acc);
        assert forall|a: int| 0 <= a < acc.len() implies counted_in(
            x,
            scope,
            x.order.len() as int,
            #[trigger] acc[a],
        ) by {
            assert(counted_in(x, scope, i, acc[a]));
        }
    }
}

proof fn lemma_swept_one(s: Ev, ans: Seq<Answer>, n: Node, scope: Seq<char>, visible: Seq<u64>, m: Seq<u64>)
    ensures
        swept(s, ans, seq![n], 0, scope, visible, Seq::empty(), m) == match swept_node(
            s,
            ans,
            n,
            scope,
            visible,
        ) {
            (Err(h), s1) => (Err::<(Seq<Node>, Seq<u64>), Halt>(h), s1),
            (Ok(None), s1) => (Ok((Seq::<Node>::empty(), m)), s1),
            (Ok(Some((k, hits))), s1) => (Ok((seq![k], m + hits)), s1),
        },
{
    let list = seq![n];
    let none = Seq::<Node>::empty();
    assert(list[0] == n && list.len() == 1);
    match swept_node(s, ans, n, scope, visible) {
        (Ok(Some((k, hits))), s1) => {
            assert(none.push(k) =~= seq![k]);
            assert(swept(s1, ans, list, 1, scope, visible, none.push(k), m + hits) == (
                Ok::<(Seq<Node>, Seq<u64>), Halt>((none.push(k), m + hits)),
                s1,
            ));
        },
        (Ok(None), s1) => {
            assert(swept(s1, ans, list, 1, scope, visible, none, m) == (
                Ok::<(Seq<Node>, Seq<u64>), Halt>((none, m)),
                s1,
            ));
        },
        _ => {},
    }
}

proof fn lemma_inside_end(s: Ev, ans: Seq<Answer>, x: Exts, n: Node, scope: Seq<char>, k: Node, m: Seq<u64>)
    ensures
        rewritten_inside(s, ans, x, seq![n], 1, scope, Seq::empty().push(k), m) == (
            Ok::<(Seq<Node>, Seq<u64>), Halt>((seq![k], m)),
            s,
        ),
{
    assert(Seq::<Node>::empty().push(k) =~= seq![k]);
}

// ---- what is rewritten ---------------------------------------------------

/// A style rule of a module takes the selectors that the extensions reaching that module give it: they
/// are asked about its selectors, with the module and the numbers of those extensions, and it has the
/// selectors of the answer in the end, its declarations unchanged. It is dropped where the answer is
/// that nothing is left of it.
pub proof fn rule_is_rewritten_by_what_reaches_its_module(
    s: Ev,
    ans: Seq<Answer>,
    x: Exts,
    scope: Seq<char>,
    selectors: Seq<Seq<char>>,
    linebreaks: Seq<bool>,
    items: Seq<Item>,
    lines: SrcLines,
    matched: Seq<u64>,
)
    ensures
        ({
            let rule = Node::Rule { selectors, linebreaks, items, lines };
            let numbers = applying(x, scope, 0, Seq::empty());
            let r = rewritten(s, ans, x, seq![rule], scope, matched);
            if numbers.len() == 0 && !any_placeholder(selectors) {
                r == (Ok::<(Seq<Node>, Seq<u64>), Halt>((seq![rule], matched)), s)
            } else {
                match next_answer(s, ans, ask_extend(scope, selectors, linebreaks, numbers)) {
                    (Err(h), s1) => r == (Err::<(Seq<Node>, Seq<u64>), Halt>(h), s1),
                    (Ok(Answer::Nothing), s1) => r == (
                        Ok::<(Seq<Node>, Seq<u64>), Halt>((Seq::empty(), matched)),
                        s1,
                    ),
                    (Ok(Answer::Extended { selectors: sel, breaks, matched: hits }), s1) => r == (
                        Ok::<(Seq<Node>, Seq<u64>), Halt>(
                            (
                                seq![
                                    Node::Rule {
                                        selectors: texts(sel@),
                                        linebreaks: breaks@,
                                        items,
                                        lines,
                                    },
                                ],
                                matched + hits@,
                            ),
                        ),
                        s1,
                    ),
                    (Ok(_), s1) => r.0 is Err,
                }
            }
        }),
{
    let rule = Node::Rule { selectors, linebreaks, items, lines };
    let list = seq![rule];
    assert(list[0] == rule);
    lemma_inside_end(s, ans, x, rule, scope, rule, matched);
    assert(rewritten_inside(s, ans, x, list, 0, scope, Seq::empty(), matched) == (
        Ok::<(Seq<Node>, Seq<u64>), Halt>((list, matched)),
        s,
    ));
    lemma_swept_one(s, ans, rule, scope, applying(x, scope, 0, Seq::empty()), matched);
    assert(matched + Seq::<u64>::empty() =~= matched);
}

/// The CSS of a module inside that of another is rewritten as the CSS of that module: by what reaches
/// it, and not by what reaches the module round it.
pub proof fn inner_module_is_rewritten_by_its_own(
    s: Ev,
    ans: Seq<Answer>,
    x: Exts,
    scope: Seq<char>,
    key: Seq<char>,
    nodes: Seq<Node>,
    matched: Seq<u64>,
)
    ensures
        ({
            let inner = rewritten(s, ans, x, nodes, key, matched);
            let r = rewritten(s, ans, x, seq![Node::ModuleScope { key, nodes }], scope, matched);
            match inner {
                (Err(h), s1) => r == (Err::<(Seq<Node>, Seq<u64>), Halt>(h), s1),
                (Ok((list, m)), s1) => r == (
                    Ok::<(Seq<Node>, Seq<u64>), Halt>(
                        (
                            if forall|k: int| 0 <= k < list.len() ==> #[trigger] list[k] == Node::Blank {
                                Seq::empty()
                            } else {
                                seq![Node::ModuleScope { key, nodes: list }]
                            },
                            m,
                        ),
                    ),
                    s1,
                ),
            }
        }),
{
    let node = Node::ModuleScope { key, nodes };
    let list = seq![node];
    assert(list[0] == node);
    match rewritten(s, ans, x, nodes, key, matched) {
        (Ok((l, m)), s1) => {
            let k = Node::ModuleScope { key, nodes: l };
            lemma_inside_end(s1, ans, x, node, scope, k, m);
            assert(rewritten_inside(s, ans, x, list, 0, scope, Seq::empty(), matched) == (
                Ok::<(Seq<Node>, Seq<u64>), Halt>((seq![k], m)),
                s1,
            ));
            lemma_swept_one(s1, ans, k, scope, applying(x, scope, 0, Seq::empty()), m);
            assert(m + Seq::<u64>::empty() =~= m);
        },
        _ => {},
    }
}

/// What stands inside an at-rule other than keyframes is rewritten as the module's CSS that it is; what
/// stands inside keyframes is left as it is.
pub proof fn at_rules_are_rewritten_inside(
    s: Ev,
    ans: Seq<Answer>,
    x: Exts,
    scope: Seq<char>,
    name: Seq<char>,
    prelude: Seq<char>,
    body: Seq<Node>,
    lines: SrcLines,
    matched: Seq<u64>,
)
    requires
        name != "media"@,
        name != "supports"@,
    ensures
        ({
            let node = Node::AtRule { name, prelude, body, has_block: true, lines };
            let r = rewritten(s, ans, x, seq![node], scope, matched);
            if crate::names::keyframes_name(name) {
                r == (Ok::<(Seq<Node>, Seq<u64>), Halt>((seq![node], matched)), s)
            } else {
                match rewritten(s, ans, x, body, scope, matched) {
                    (Err(h), s1) => r == (Err::<(Seq<Node>, Seq<u64>), Halt>(h), s1),
                    (Ok((list, m)), s1) => r == (
                        Ok::<(Seq<Node>, Seq<u64>), Halt>(
                            (
                                seq![
                                    Node::AtRule { name, prelude, body: list, has_block: true, lines },
                                ],
                                m,
                            ),
                        ),
                        s1,
                    ),
                }
            }
        }),
{
    let node = Node::AtRule { name, prelude, body, has_block: true, lines };
    let list = seq![node];
    assert(list[0] == node);
    let visible = applying(x, scope, 0, Seq::empty());
    if crate::names::keyframes_name(name) {
        lemma_inside_end(s, ans, x, node, scope, node, matched);
        assert(rewritten_inside(s, ans, x, list, 0, scope, Seq::empty(), matched) == (
            Ok::<(Seq<Node>, Seq<u64>), Halt>((list, matched)),
            s,
        ));
        lemma_swept_one(s, ans, node, scope, visible, matched);
        assert(matched + Seq::<u64>::empty() =~= matched);
    } else {
        match rewritten(s, ans, x, body, scope, matched) {
            (Ok((l, m)), s1) => {
                let k = Node::AtRule { name, prelude, body: l, has_block: true, lines };
                lemma_inside_end(s1, ans, x, node, scope, k, m);
                assert(rewritten_inside(s, ans, x, list, 0, scope, Seq::empty(), matched) == (
                    Ok::<(Seq<Node>, Seq<u64>), Halt>((seq![k], m)),
                    s1,
                ));
                lemma_swept_one(s1, ans, k, scope, visible, m);
                assert(m + Seq::<u64>::empty() =~= m);
            },
            _ => {},
        }
    }
}

/// Every `@extend` that is not optional has matched something where the pass ends well without a
/// question more: where there is no rule left out for its combinators and no placeholder rule, one
/// that has not matched is an error, and optional ones and those that have matched are none.
pub proof fn extension_without_a_target_is_an_error(s: Ev, ans: Seq<Answer>, x: Exts, i: int, matched: Seq<u64>)
    requires
        0 <= i <= x.list.len() <= u64::MAX,
        s.page.bogus.len() == 0,
        s.page.placeholders.len() == 0,
    ensures
        targets_found(s, ans, x, i, matched).1 == s,
        targets_found(s, ans, x, i, matched).0 is Ok <==> forall|k: int|
            i <= k < x.list.len() ==> (#[trigger] x.list[k]).optional || matched.contains(k as u64),
    decreases x.list.len() - i,
{
    if i < x.list.len() {
        let e = x.list[i];
        reveal_with_fuel(crate::extends::any_holds, 2);
        reveal_with_fuel(crate::extends::placeholders_seen, 2);
        if e.optional || matched.contains(i as u64) {
            extension_without_a_target_is_an_error(s, ans, x, i + 1, matched);
        } else {
            assert(!(x.list[i].optional || matched.contains(i as u64)));
        }
    }
}

} // verus!
