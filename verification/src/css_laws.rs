//! What is written of attributes, calls and plain CSS.

use vstd::prelude::*;
use crate::ast::{Rule, Stmt};
use crate::eval::Ev;
use crate::host::{Answer, Halt};
use crate::out::{Item, Node};
use crate::plain::{plain_children, plain_item, plain_items, plain_rule, plain_selectors};
use crate::scan::{at, string_close, ws_end};
use crate::selector_check::{
    attr_name_end, attr_name_stop, attr_op_len, attr_op_start, attr_tail, attr_value_end,
    attr_value_start,
};
use crate::selector_text::{attribute_text, collapse, collapsed, plain_identifier, unquoted_value};
use crate::sem::{calc_leaf, call_text};
use crate::text::{is_alnum, is_alpha, is_ws, joined};
use crate::tree::descendants;
use crate::value::{Cal, Num, Val};

verus! {

// ---- attributes ----------------------------------------------------------

/// Whether a text is made of letters and digits.
pub open spec fn letters(s: Seq<char>) -> bool {
    s.len() > 0 && is_alpha(s[0]) && forall|k: int| 0 <= k < s.len() ==> is_alnum(#[trigger] s[k])
}

/// Whether a text can stand between quotes as it is.
pub open spec fn quotable(s: Seq<char>, q: char) -> bool {
    forall|k: int| 0 <= k < s.len() ==> #[trigger] s[k] != q && s[k] != '\\'
}

proof fn lemma_name_end(s: Seq<char>, i: int, to: int)
    requires
        0 <= i <= to < s.len(),
        forall|k: int| i <= k < to ==> is_alnum(#[trigger] s[k]),
        s[to] == '=',
    ensures
        attr_name_end(s, i) == to,
    decreases to - i,
{
    if i < to {
        assert(is_alnum(s[i]));
        lemma_name_end(s, i + 1, to);
    }
}

proof fn lemma_string_end(s: Seq<char>, q: char, i: int, to: int)
    requires
        0 <= i <= to < s.len(),
        forall|k: int| i <= k < to ==> #[trigger] s[k] != q && s[k] != '\\',
        s[to] == q,
        q != '\\',
    ensures
        string_close(s, q, i) == to + 1,
    decreases to - i,
{
    if i < to {
        assert(s[i] != q && s[i] != '\\');
        lemma_string_end(s, q, i + 1, to);
    }
}

/// The quotes round the value of an attribute are left out where it is an identifier, and kept where it
/// is not.
pub proof fn attribute_values_lose_quotes_they_do_not_need(name: Seq<char>, q: char, value: Seq<char>)
    requires
        letters(name),
        q == '"' || q == '\'',
        quotable(value, q),
    ensures
        plain_identifier(value) ==> attribute_text(name + seq!['=', q] + value + seq![q]) == name + seq!['=']
            + value,
        !plain_identifier(value) ==> attribute_text(name + seq!['=', q] + value + seq![q]) == name
            + seq!['=', q] + value + seq![q],
{
    let s = name + seq!['=', q] + value + seq![q];
    let n = name.len() as int;
    let v = value.len() as int;
    assert(s.len() == n + v + 3);
    assert forall|k: int| 0 <= k < n implies is_alnum(#[trigger] s[k]) by {
        assert(s[k] == name[k]);
    }
    assert(s[0] == name[0]);
    assert(s[n] == '=' && s[n + 1] == q && s[n + 2 + v] == q);
    assert(ws_end(s, 0) == 0);
    lemma_name_end(s, 0, n);
    assert(attr_name_stop(s) == n);
    assert(attr_op_start(s) == n);
    assert(at(s, n) == Some('='));
    assert(attr_op_len(s, n) == 1);
    assert(attr_value_start(s) == n + 1);
    assert forall|k: int| n + 2 <= k < n + 2 + v implies #[trigger] s[k] != q && s[k] != '\\' by {
        assert(s[k] == value[k - n - 2]);
    }
    lemma_string_end(s, q, n + 2, n + 2 + v);
    assert(attr_value_end(s, n + 1) == s.len());
    assert(attr_tail(s) >= s.len());
    let held = s.subrange(n + 1, s.len() as int);
    assert(s.subrange(0, n) =~= name);
    assert(s.subrange(n, n + 1) =~= seq!['=']);
    assert(held =~= seq![q] + value + seq![q]);
    assert(held[0] == q && held.last() == q);
    assert(held.subrange(1, held.len() - 1) =~= value);
    assert(attribute_text(s) == name + seq!['='] + unquoted_value(held));
    if !plain_identifier(value) {
        assert(name + seq!['='] + held =~= name + seq!['=', q] + value + seq![q]);
    }
}

/// White space within a selector, however much there is, is one space.
pub proof fn white_space_is_one_space(a: Seq<char>, gap: Seq<char>, b: Seq<char>)
    requires
        letters(a),
        letters(b),
        gap.len() > 0,
        forall|k: int| 0 <= k < gap.len() ==> is_ws(#[trigger] gap[k]),
    ensures
        collapsed(a + gap + b) == a + seq![' '] + b,
{
    let s = a + gap + b;
    let n = a.len() as int;
    let m = n + gap.len();
    let none = Seq::<char>::empty();
    lemma_letters_stay(s, 0, n, none, true);
    assert(none + s.subrange(0, n) =~= a) by {
        assert(s.subrange(0, n) =~= a);
    }
    assert(s[n] == gap[0]);
    assert(is_ws(gap[0]));
    assert(!is_alnum(s[n]));
    assert(s[n] != '\\');
    lemma_gap(s, n + 1, m, a.push(' '));
    lemma_letters_stay(s, m, s.len() as int, a.push(' '), true);
    assert(s.subrange(m, s.len() as int) =~= b);
    assert(a.push(' ') + b =~= a + seq![' '] + b);
}

proof fn lemma_letters_stay(s: Seq<char>, i: int, to: int, out: Seq<char>, spaced: bool)
    requires
        0 <= i < to <= s.len(),
        forall|k: int| i <= k < to ==> is_alnum(#[trigger] s[k]),
    ensures
        collapse(s, i, out, spaced) == collapse(s, to, out + s.subrange(i, to), false),
    decreases to - i,
{
    assert(is_alnum(s[i]));
    let one = out.push(s[i]);
    if i + 1 < to {
        lemma_letters_stay(s, i + 1, to, one, false);
        assert(one + s.subrange(i + 1, to) =~= out + s.subrange(i, to));
    } else {
        assert(one =~= out + s.subrange(i, to));
    }
}

proof fn lemma_gap(s: Seq<char>, i: int, to: int, out: Seq<char>)
    requires
        0 <= i <= to <= s.len(),
        forall|k: int| i <= k < to ==> is_ws(#[trigger] s[k]),
    ensures
        collapse(s, i, out, true) == collapse(s, to, out, true),
    decreases to - i,
{
    if i < to {
        assert(is_ws(s[i]));
        assert(s[i] != '\\');
        lemma_gap(s, i + 1, to, out);
    }
}

// ---- calls ---------------------------------------------------------------

/// A call that is left to CSS is written with its name and its arguments, in their order and with commas
/// between them.
pub proof fn calls_are_written_out(name: Seq<char>, a: Seq<char>, b: Seq<char>)
    ensures
        call_text(name, Seq::empty()) == name + seq!['(', ')'],
        call_text(name, seq![a]) == name + seq!['('] + a + seq![')'],
        call_text(name, seq![a, b]) == name + seq!['('] + a + seq![',', ' '] + b + seq![')'],
{
    reveal_strlit(")");
    reveal_strlit(", ");
    let two = seq![a, b];
    assert(two.drop_last() =~= seq![a]);
    assert(joined(seq![a], ", "@) == a);
    assert(joined(two, ", "@) == a + ", "@ + b);
    assert(call_text(name, Seq::empty()) =~= name + seq!['(', ')']);
    assert(call_text(name, seq![a]) =~= name + seq!['('] + a + seq![')']);
    assert(call_text(name, two) =~= name + seq!['('] + a + seq![',', ' '] + b + seq![')']);
}

/// A number stands for itself in a calculation, and so does a calculation.
pub proof fn numbers_stand_in_calculations(s: Ev, ans: Seq<Answer>, n: Num, t: Seq<char>, c: Cal)
    ensures
        calc_leaf(s, ans, Val::Number(n)) == (Ok::<Cal, Halt>(Cal::Number(n)), s),
        calc_leaf(s, ans, Val::Slash(n, t)) == (Ok::<Cal, Halt>(Cal::Number(n)), s),
        calc_leaf(s, ans, Val::Calc(c)) == (Ok::<Cal, Halt>(c), s),
        calc_leaf(s, ans, Val::Null).0 is Err,
{
    reveal(calc_leaf);
}

// ---- plain CSS -----------------------------------------------------------

/// The items of plain CSS come out one after the other: what is there stays there.
pub proof fn plain_items_are_added(s: Ev, ans: Seq<Answer>, stmts: Seq<Stmt>, i: int, acc: Seq<Item>, fuel: nat)
    requires
        0 <= i <= stmts.len(),
        plain_items(s, ans, stmts, i, acc, fuel).0 is Ok,
    ensures
        acc.len() <= plain_items(s, ans, stmts, i, acc, fuel).0->Ok_0.len(),
        plain_items(s, ans, stmts, i, acc, fuel).0->Ok_0.take(acc.len() as int) == acc,
    decreases stmts.len() - i,
{
    if i < stmts.len() {
        let one = plain_item(s, ans, stmts[i], acc, fuel);
        let a = one.0->Ok_0;
        lemma_item_added(s, ans, stmts[i], acc, fuel);
        assert(plain_items(s, ans, stmts, i, acc, fuel) == plain_items(one.1, ans, stmts, i + 1, a, fuel));
        plain_items_are_added(one.1, ans, stmts, i + 1, a, fuel);
        let all = plain_items(s, ans, stmts, i, acc, fuel).0->Ok_0;
        assert(all.take(acc.len() as int) =~= acc) by {
            assert forall|k: int| 0 <= k < acc.len() implies all[k] == acc[k] by {
                assert(all.take(a.len() as int)[k] == a[k]);
                assert(a.take(acc.len() as int)[k] == acc[k]);
            }
        }
    } else {
        assert(acc.take(acc.len() as int) =~= acc);
    }
}

proof fn lemma_item_added(s: Ev, ans: Seq<Answer>, stmt: Stmt, acc: Seq<Item>, fuel: nat)
    requires
        plain_item(s, ans, stmt, acc, fuel).0 is Ok,
    ensures
        acc.len() <= plain_item(s, ans, stmt, acc, fuel).0->Ok_0.len(),
        plain_item(s, ans, stmt, acc, fuel).0->Ok_0.take(acc.len() as int) == acc,
{
    let a = plain_item(s, ans, stmt, acc, fuel).0->Ok_0;
    assert(a.len() >= acc.len());
    assert(a.take(acc.len() as int) =~= acc);
}

/// A rule within a rule of plain CSS stays within it, with the selectors it is written with.
pub proof fn plain_rules_stay_nested(s: Ev, ans: Seq<Answer>, r: Rule, acc: Seq<Item>, fuel: nat)
    requires
        plain_item(s, ans, Stmt::Rule(r), acc, fuel).0 is Ok,
    ensures
        ({
            let sel = plain_selectors(s, ans, r.selector@, false, fuel);
            let inner = plain_items(sel.1, ans, r.body@, 0, Seq::empty(), fuel);
            let out = plain_item(s, ans, Stmt::Rule(r), acc, fuel).0->Ok_0;
            &&& sel.0 is Ok
            &&& inner.0 is Ok
            &&& inner.0->Ok_0.len() > 0 ==> out == acc.push(
                Item::NestedRule { selectors: sel.0->Ok_0, items: inner.0->Ok_0 },
            )
            &&& inner.0->Ok_0.len() == 0 ==> out == acc
        }),
{
}

/// A rule of plain CSS comes out with its own selectors, under those around it where there are any, and
/// with what its body comes to; what left its body follows it.
pub proof fn plain_rule_comes_out(
    s: Ev,
    ans: Seq<Answer>,
    r: Rule,
    top: bool,
    parents: Seq<Seq<char>>,
    acc: Seq<Node>,
    fuel: nat,
)
    requires
        plain_rule(s, ans, r, top, parents, acc, fuel).0 is Ok,
    ensures
        ({
            let own = plain_selectors(s, ans, r.selector@, top, fuel);
            let selectors = if parents.len() == 0 {
                own.0->Ok_0
            } else {
                descendants(parents, own.0->Ok_0)
            };
            let x = plain_children(
                own.1,
                ans,
                r.body@,
                0,
                selectors,
                Seq::empty(),
                Seq::empty(),
                fuel,
            );
            let (items, after) = x.0->Ok_0;
            let out = plain_rule(s, ans, r, top, parents, acc, fuel).0->Ok_0;
            &&& own.0 is Ok && x.0 is Ok
            &&& items.len() == 0 ==> out == acc + after
            &&& items.len() > 0 ==> {
                &&& out.len() == acc.len() + 1 + after.len()
                &&& out.take(acc.len() as int) == acc
                &&& out.skip(acc.len() as int + 1) == after
                &&& out[acc.len() as int] is Rule
                &&& out[acc.len() as int]->Rule_selectors == selectors
                &&& out[acc.len() as int]->Rule_items == items
            }
        }),
{
    reveal(plain_rule);
    let own = plain_selectors(s, ans, r.selector@, top, fuel);
    let selectors = if parents.len() == 0 {
        own.0->Ok_0
    } else {
        descendants(parents, own.0->Ok_0)
    };
    let x = plain_children(own.1, ans, r.body@, 0, selectors, Seq::empty(), Seq::empty(), fuel);
    let (items, after) = x.0->Ok_0;
    let out = plain_rule(s, ans, r, top, parents, acc, fuel).0->Ok_0;
    if items.len() > 0 {
        assert(out.take(acc.len() as int) =~= acc);
        assert(out.skip(acc.len() as int + 1) =~= after);
    }
}

} // verus!
