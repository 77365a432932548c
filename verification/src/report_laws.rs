//! What messages say and where they point.

use vstd::prelude::*;
use crate::ast::{Conjunction, Expr, MediaInParens, SupportsCondition};
use crate::diag::{Trace, decimal, digit_char, place, spaces, text_bytes, trace_lines, widest};
use crate::error::{Fault, Pos};
use crate::eval::Ev;
use crate::host::{Answer, Halt};
use crate::queries::{condition_text, condition_texts, supports_text};
use crate::report::{call_entered, rendered_error, trace_at, user_error};
use crate::semantics::{debug, eval, raise, warn};

verus! {

// ---- numbers -------------------------------------------------------------

/// The value of a decimal digit.
pub open spec fn digit_value(c: char) -> nat {
    if '0' <= c <= '9' {
        (c as u32 - '0' as u32) as nat
    } else {
        0
    }
}

/// The number that a row of decimal digits writes.
pub open spec fn number_value(s: Seq<char>) -> nat
    decreases s.len(),
{
    if s.len() == 0 {
        0
    } else {
        number_value(s.drop_last()) * 10 + digit_value(s.last())
    }
}

/// A number is written in decimal digits, and without a zero before them.
pub proof fn decimal_writes_the_number(n: nat)
    ensures
        number_value(decimal(n)) == n,
        decimal(n).len() > 0,
        forall|k: int| 0 <= k < decimal(n).len() ==> '0' <= #[trigger] decimal(n)[k] <= '9',
        n > 0 ==> decimal(n)[0] != '0',
    decreases n,
{
    if n < 10 {
        let s = seq![digit_char(n)];
        assert(s.drop_last() =~= Seq::<char>::empty());
        assert(number_value(Seq::<char>::empty()) == 0);
        assert(digit_value(digit_char(n)) == n);
    } else {
        decimal_writes_the_number(n / 10);
        let before = decimal(n / 10);
        let d = digit_char(n % 10);
        assert(digit_value(d) == n % 10);
        assert(before.push(d).drop_last() =~= before);
        assert(before.push(d)[0] == before[0]);
    }
}

// ---- traces --------------------------------------------------------------

/// A trace starts where the message comes from and goes outward, call by call.
pub proof fn trace_goes_outward(s: Ev, pos: Pos)
    ensures
        trace_at(s, pos).len() == s.report.calls.len() + 1,
        trace_at(s, pos)[0].pos == pos,
        trace_at(s, pos)[0].url == s.report.url,
        trace_at(s, pos)[0].member == s.report.member,
        forall|k: int|
            1 <= k <= s.report.calls.len() ==> #[trigger] trace_at(s, pos)[k]
                == s.report.calls[s.report.calls.len() - k],
{
}

/// Within a call the innermost line of a trace is in what is called, and the next is the place of the
/// call, in what made it.
pub proof fn call_adds_its_place(s: Ev, at: Pos, length: usize, member: Seq<char>, pos: Pos)
    ensures
        ({
            let t = trace_at(call_entered(s, at, length, member), pos);
            &&& t.len() == s.report.calls.len() + 2
            &&& t[0].member == member
            &&& t[0].pos == pos
            &&& t[1].member == s.report.member
            &&& t[1].pos == at
            &&& t[1].url == s.report.url
        }),
{
    reveal(call_entered);
}

proof fn lemma_bytes(a: Seq<char>, b: Seq<char>)
    ensures
        text_bytes(a + b) == text_bytes(a) + text_bytes(b),
    decreases b.len(),
{
    if b.len() == 0 {
        assert(a + b =~= a);
    } else {
        lemma_bytes(a, b.drop_last());
        assert((a + b).drop_last() =~= a + b.drop_last());
        assert((a + b).last() == b.last());
    }
}

proof fn lemma_spaces(n: nat)
    ensures
        text_bytes(spaces(n)) == n,
    decreases n,
{
    if n > 0 {
        lemma_spaces((n - 1) as nat);
        assert(spaces(n).drop_last() =~= spaces((n - 1) as nat));
    }
}

proof fn lemma_widest(ts: Seq<Trace>, n: nat, k: int)
    requires
        0 <= k < n <= ts.len(),
    ensures
        text_bytes(place(ts[k])) <= widest(ts, n),
    decreases n,
{
    if k < n - 1 {
        lemma_widest(ts, (n - 1) as nat, k);
    }
}

/// In every line of a trace the member stands in the same column, two behind the longest place.
pub proof fn trace_lines_are_aligned(ts: Seq<Trace>, indent: nat, k: int) -> (head: Seq<char>)
    requires
        0 <= k < ts.len(),
    ensures
        trace_lines(ts, indent)[k] == head + ts[k].member,
        text_bytes(head) == indent + widest(ts, ts.len()) + 2,
        head.len() >= indent + place(ts[k]).len(),
        head.subrange(indent as int, (indent + place(ts[k]).len()) as int) == place(ts[k]),
{
    let w = widest(ts, ts.len());
    let p = place(ts[k]);
    lemma_widest(ts, ts.len(), k);
    let pad = (w - text_bytes(p)) as nat;
    let head = spaces(indent) + p + spaces(pad) + "  "@;
    reveal_strlit("  ");
    let two = "  "@;
    assert(two =~= spaces(2));
    lemma_spaces(2);
    lemma_spaces(indent);
    lemma_spaces(pad);
    lemma_bytes(spaces(indent), p);
    lemma_bytes(spaces(indent) + p, spaces(pad));
    lemma_bytes(spaces(indent) + p + spaces(pad), two);
    assert(head.subrange(indent as int, (indent + p.len()) as int) =~= p);
    head
}

/// A place is its file, its line and its column.
pub proof fn place_names_line_and_column(t: Trace)
    ensures
        place(t) == t.url + seq![' '] + decimal(t.pos.line as nat) + seq![':'] + decimal(t.pos.col as nat),
{
    assert(place(t) =~= t.url + seq![' '] + decimal(t.pos.line as nat) + seq![':'] + decimal(
        t.pos.col as nat,
    ));
}

/// An error raised with `@error` has the message it is raised with. Within a call it points to the
/// innermost call, and at the top level to the `@error`.
pub proof fn raised_error_points_to_its_call(s: Ev, message: Seq<char>, pos: Pos, length: usize)
    ensures
        user_error(s, message, pos, length).message == message,
        s.report.enabled && s.report.calls.len() > 0 ==> user_error(s, message, pos, length).pos == Some(
            s.report.calls.last().pos,
        ),
        s.report.enabled && s.report.calls.len() == 0 ==> user_error(s, message, pos, length).pos == Some(
            pos,
        ),
{
    reveal(user_error);
}

/// A rendered error begins with its message and shows the innermost place.
pub proof fn rendered_error_shows_its_place(s: Ev, f: Fault, ts: Seq<Trace>)
    requires
        ts.len() > 0,
    ensures
        ({
            let n = rendered_error(s, f, ts);
            &&& n.before == "Error: "@ + f.message + seq!['\n']
            &&& n.excerpt is Some
            &&& (n.excerpt->0).pos == ts[0].pos
            &&& (n.excerpt->0).source == crate::report::source_of(s, ts[0].url)
        }),
{
    reveal(rendered_error);
    assert(("Error: "@ + f.message).push('\n') =~= "Error: "@ + f.message + seq!['\n']);
}

/// `@warn` and `@debug` leave one more message, and everything else as the value of their expression
/// leaves it; `@error` always fails.
pub proof fn messages_are_left_or_raised(s: Ev, ans: Seq<Answer>, value: Expr, pos: Pos, length: usize, fuel: nat)
    ensures
        warn(s, ans, value, pos, fuel).0 is Ok ==> warn(s, ans, value, pos, fuel).1.report.log.len() == eval(
            s,
            ans,
            value,
            fuel,
        ).1.report.log.len() + 1 && warn(s, ans, value, pos, fuel).1.frames == eval(
            s,
            ans,
            value,
            fuel,
        ).1.frames,
        debug(s, ans, value, pos, fuel).0 is Ok ==> debug(s, ans, value, pos, fuel).1.report.log.len()
            == eval(s, ans, value, fuel).1.report.log.len() + 1 && debug(
            s,
            ans,
            value,
            pos,
            fuel,
        ).1.frames == eval(s, ans, value, fuel).1.frames,
        raise(s, ans, value, pos, length, fuel).0 is Err,
{
}

// ---- conditions ----------------------------------------------------------

/// The conditions of a media query are written in their order.
pub proof fn conditions_are_written_in_order(
    s: Ev,
    ans: Seq<Answer>,
    cs: Seq<MediaInParens>,
    i: int,
    acc: Seq<Seq<char>>,
    fuel: nat,
) -> (mid: Seq<Ev>)
    requires
        0 <= i <= cs.len(),
        condition_texts(s, ans, cs, i, acc, fuel).0 is Ok,
    ensures
        mid.len() == cs.len() - i + 1,
        mid[0] == s,
        ({
            let r = condition_texts(s, ans, cs, i, acc, fuel);
            &&& r.1 == mid.last()
            &&& r.0->Ok_0.len() == acc.len() + cs.len() - i
            &&& forall|k: int| 0 <= k < acc.len() ==> #[trigger] r.0->Ok_0[k] == acc[k]
            &&& forall|k: int|
                i <= k < cs.len() ==> condition_text(#[trigger] mid[k - i], ans, cs[k], fuel) == (
                    Ok::<Seq<char>, Halt>(r.0->Ok_0[acc.len() + k - i]),
                    mid[k - i + 1],
                )
        }),
    decreases cs.len() - i,
{
    if i >= cs.len() {
        seq![s]
    } else {
        let t = condition_text(s, ans, cs[i], fuel);
        let more = acc.push(t.0->Ok_0);
        assert(condition_texts(s, ans, cs, i, acc, fuel) == condition_texts(
            t.1,
            ans,
            cs,
            i + 1,
            more,
            fuel,
        ));
        let rest = conditions_are_written_in_order(t.1, ans, cs, i + 1, more, fuel);
        let all = seq![s] + rest;
        let r = condition_texts(s, ans, cs, i, acc, fuel);
        let out = r.0->Ok_0;
        assert(out[acc.len() as int] == more[acc.len() as int]);
        assert forall|k: int| 0 <= k < acc.len() implies #[trigger] out[k] == acc[k] by {
            assert(out[k] == more[k]);
        }
        assert forall|k: int| i <= k < cs.len() implies condition_text(
            #[trigger] all[k - i],
            ans,
            cs[k],
            fuel,
        ) == (Ok::<Seq<char>, Halt>(out[acc.len() + k - i]), all[k - i + 1]) by {
            if k > i {
                assert(all[k - i] == rest[k - (i + 1)]);
                assert(all[k - i + 1] == rest[k - (i + 1) + 1]);
            } else {
                assert(all[1] == rest[0]);
            }
        }
        assert(all.last() == rest.last());
        all
    }
}

/// Whether a condition is neither a negation nor an operation, and so can stand without brackets.
pub open spec fn stands_alone(c: SupportsCondition) -> bool {
    !(c is Negation) && !(c is Operation)
}

/// The word of a conjunction, with spaces round it.
pub open spec fn conjunction_word(op: Conjunction) -> Seq<char> {
    if op == Conjunction::And {
        " and "@
    } else {
        " or "@
    }
}

/// Conditions that stand alone are joined by their word and negated by `not`. An operation within one
/// of the other kind, or within a negation, is put in brackets, and one within its own kind is not.
pub proof fn supports_conditions_are_bracketed(
    s: Ev,
    ans: Seq<Answer>,
    left: Box<SupportsCondition>,
    right: Box<SupportsCondition>,
    op: Conjunction,
    fuel: nat,
)
    requires
        supports_text(s, ans, *left, fuel).0 is Ok,
        supports_text(supports_text(s, ans, *left, fuel).1, ans, *right, fuel).0 is Ok,
        stands_alone(*right),
    ensures
        ({
            let l = supports_text(s, ans, *left, fuel);
            let r = supports_text(l.1, ans, *right, fuel);
            let t = supports_text(s, ans, SupportsCondition::Operation { left, right, op }, fuel);
            let bare = l.0->Ok_0 + conjunction_word(op) + r.0->Ok_0;
            let held = "("@ + l.0->Ok_0 + ")"@ + conjunction_word(op) + r.0->Ok_0;
            &&& t.1 == r.1
            &&& stands_alone(*left) ==> t.0 == Ok::<Seq<char>, Halt>(bare)
            &&& *left is Operation && (*left)->op == op ==> t.0 == Ok::<Seq<char>, Halt>(bare)
            &&& *left is Operation && (*left)->op != op ==> t.0 == Ok::<Seq<char>, Halt>(held)
            &&& *left is Negation ==> t.0 == Ok::<Seq<char>, Halt>(held)
        }),
        ({
            let l = supports_text(s, ans, *left, fuel);
            let t = supports_text(s, ans, SupportsCondition::Negation(left), fuel);
            &&& stands_alone(*left) ==> t.0 == Ok::<Seq<char>, Halt>("not "@ + l.0->Ok_0)
            &&& !stands_alone(*left) ==> t.0 == Ok::<Seq<char>, Halt>("not "@ + ("("@ + l.0->Ok_0 + ")"@))
        }),
{
}

} // verus!
