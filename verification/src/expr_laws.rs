//! What expressions come to.

use vstd::prelude::*;
use crate::ast::{BinOp, CallArg, Expr, IfClause, IfCond, TplPiece, UnOp};
use crate::cond::Outcome;
use crate::error::Pos;
use crate::eval::{Ev, asked_bits, asked_flag, asked_text};
use crate::flow_laws::counts_as_false;
use crate::host::{Answer, Halt, Task, ask_names, ask_numbers, ask_value, ask_values};
use crate::ops::{binary, coerced, division, folded, unary};
use crate::sem::{Branch, Branches, calc_value, no_branches};
use crate::semantics::{
    eval, eval_inner, eval_list, if_args, if_cond, if_function, if_operands, modern_if, simplified,
    template,
};
use crate::value::{Cal, CalcOp, Num, Val, complex_operand, complex_units, slashless, unit_of, unitless};

verus! {

// ---- templates -----------------------------------------------------------

/// The texts one after the other.
pub open spec fn strung(texts: Seq<Seq<char>>) -> Seq<char>
    decreases texts.len(),
{
    if texts.len() == 0 {
        Seq::empty()
    } else {
        texts[0] + strung(texts.skip(1))
    }
}

/// What a piece of a template comes to: a literal is its text; an interpolation is the text of its
/// value.
pub open spec fn piece_comes_to(
    s: Ev,
    ans: Seq<Answer>,
    piece: TplPiece,
    fuel: nat,
    text: Seq<char>,
    s1: Ev,
) -> bool {
    match piece {
        TplPiece::Lit(t) => text == t@ && s1 == s,
        TplPiece::Interp(e) => {
            let v = eval(s, ans, e, fuel);
            v.0 is Ok && asked_text(v.1, ans, ask_value(Task::Interp, v.0->Ok_0)) == (
                Ok::<Seq<char>, Halt>(text),
                s1,
            )
        },
    }
}

/// The text of a template is the texts of its pieces, one after the other.
pub proof fn template_strings_its_pieces(
    s: Ev,
    ans: Seq<Answer>,
    pieces: Seq<TplPiece>,
    i: int,
    acc: Seq<char>,
    fuel: nat,
) -> (r: (Seq<Seq<char>>, Seq<Ev>))
    requires
        0 <= i <= pieces.len(),
        template(s, ans, pieces, i, acc, fuel).0 is Ok,
    ensures
        r.0.len() == pieces.len() - i,
        r.1.len() == r.0.len() + 1,
        r.1[0] == s,
        forall|k: int|
            i <= k < pieces.len() ==> piece_comes_to(
                #[trigger] r.1[k - i],
                ans,
                pieces[k],
                fuel,
                r.0[k - i],
                r.1[k - i + 1],
            ),
        template(s, ans, pieces, i, acc, fuel) == (
            Ok::<Seq<char>, Halt>(acc + strung(r.0)),
            r.1.last(),
        ),
    decreases pieces.len() - i,
{
    if i >= pieces.len() {
        let none = Seq::<Seq<char>>::empty();
        assert(acc + strung(none) =~= acc);
        (none, seq![s])
    } else {
        let (text, s1) = match pieces[i] {
            TplPiece::Lit(t) => (t@, s),
            TplPiece::Interp(e) => {
                let v = eval(s, ans, e, fuel);
                let t = asked_text(v.1, ans, ask_value(Task::Interp, v.0->Ok_0));
                (t.0->Ok_0, t.1)
            },
        };
        assert(piece_comes_to(s, ans, pieces[i], fuel, text, s1));
        assert(template(s, ans, pieces, i, acc, fuel) == template(
            s1,
            ans,
            pieces,
            i + 1,
            acc + text,
            fuel,
        ));
        let (texts, mid) = template_strings_its_pieces(s1, ans, pieces, i + 1, acc + text, fuel);
        let all = seq![text] + texts;
        let evs = seq![s] + mid;
        assert(all.skip(1) =~= texts);
        assert(acc + text + strung(texts) =~= acc + strung(all));
        assert forall|k: int| i <= k < pieces.len() implies piece_comes_to(
            #[trigger] evs[k - i],
            ans,
            pieces[k],
            fuel,
            all[k - i],
            evs[k - i + 1],
        ) by {
            if k > i {
                assert(evs[k - i] == mid[k - (i + 1)]);
                assert(evs[k - i + 1] == mid[k - (i + 1) + 1]);
                assert(all[k - i] == texts[k - (i + 1)]);
            } else {
                assert(evs[1] == mid[0]);
            }
        }
        assert(evs.last() == mid.last());
        (all, evs)
    }
}

// ---- lists ---------------------------------------------------------------

/// The items of a list are the values of its expressions, evaluated and kept in their order.
pub proof fn list_has_the_values_of_its_items(
    s: Ev,
    ans: Seq<Answer>,
    items: Seq<Expr>,
    i: int,
    acc: Seq<Val>,
    fuel: nat,
) -> (mid: Seq<Ev>)
    requires
        0 <= i <= items.len(),
        eval_list(s, ans, items, i, acc, fuel).0 is Ok,
    ensures
        mid.len() == items.len() - i + 1,
        mid[0] == s,
        ({
            let r = eval_list(s, ans, items, i, acc, fuel);
            &&& r.1 == mid.last()
            &&& r.0->Ok_0.len() == acc.len() + items.len() - i
            &&& r.0->Ok_0.take(acc.len() as int) == acc
            &&& forall|k: int|
                i <= k < items.len() ==> eval(#[trigger] mid[k - i], ans, items[k], fuel) == (
                    Ok::<Val, Halt>(r.0->Ok_0[acc.len() + k - i]),
                    mid[k - i + 1],
                )
        }),
    decreases items.len() - i,
{
    if i >= items.len() {
        assert(acc.take(acc.len() as int) =~= acc);
        seq![s]
    } else {
        let v = eval(s, ans, items[i], fuel);
        let more = acc.push(v.0->Ok_0);
        let rest = list_has_the_values_of_its_items(v.1, ans, items, i + 1, more, fuel);
        let all = seq![s] + rest;
        let r = eval_list(s, ans, items, i, acc, fuel);
        let out = r.0->Ok_0;
        assert(out.take(more.len() as int)[acc.len() as int] == v.0->Ok_0);
        assert(out.take(acc.len() as int) =~= acc) by {
            assert forall|k: int| 0 <= k < acc.len() implies out[k] == acc[k] by {
                assert(out.take(more.len() as int)[k] == more[k]);
            }
        }
        assert forall|k: int| i <= k < items.len() implies eval(
            #[trigger] all[k - i],
            ans,
            items[k],
            fuel,
        ) == (Ok::<Val, Halt>(out[acc.len() + k - i]), all[k - i + 1]) by {
            if k > i {
                assert(all[k - i] == rest[k - (i + 1)]);
                assert(all[k - i + 1] == rest[k - (i + 1) + 1]);
            } else {
                assert(all[1] == rest[0]);
            }
        }
        assert(all.last() == rest.last());
        all
    }
}

// ---- logic ---------------------------------------------------------------

/// An `and` has the value of its left side where that counts as false, and does not evaluate its right
/// side then; else it has the value of its right side. An `or` does so the other way round.
pub proof fn logic_stops_at_what_decides(
    s: Ev,
    ans: Seq<Answer>,
    lhs: Box<Expr>,
    rhs: Box<Expr>,
    pos: Pos,
    fuel: nat,
)
    requires
        eval(s, ans, *lhs, fuel).0 is Ok,
    ensures
        ({
            let l = eval(s, ans, *lhs, fuel);
            let and = eval_inner(s, ans, Expr::Binary { op: BinOp::And, lhs, rhs, pos }, fuel);
            let or = eval_inner(s, ans, Expr::Binary { op: BinOp::Or, lhs, rhs, pos }, fuel);
            if counts_as_false(l.0->Ok_0) {
                and == l && or == eval(l.1, ans, *rhs, fuel)
            } else {
                or == l && and == eval(l.1, ans, *rhs, fuel)
            }
        }),
{
}

/// A `not` is true exactly of what counts as false.
pub proof fn not_turns_truth_around(s: Ev, ans: Seq<Answer>, v: Val)
    ensures
        unary(s, ans, UnOp::Not, v) == (Ok::<Val, Halt>(Val::Bool(counts_as_false(v))), s),
{
    reveal(unary);
}

/// `!=` is true exactly where `==` is false.
pub proof fn inequality_is_the_opposite(s: Ev, ans: Seq<Answer>, l: Val, r: Val, pos: Pos)
    ensures
        ({
            let eq = binary(s, ans, BinOp::Eq, l, r, pos);
            let neq = binary(s, ans, BinOp::Neq, l, r, pos);
            let same = asked_flag(s, ans, ask_values(Task::SameValue, l, r));
            &&& eq.1 == neq.1
            &&& eq.0 is Ok == neq.0 is Ok
            &&& eq.0 is Ok == same.0 is Ok
            &&& same.0 is Ok ==> eq.0->Ok_0 == Val::Bool(same.0->Ok_0) && neq.0->Ok_0 == Val::Bool(
                !same.0->Ok_0,
            )
        }),
{
    reveal(binary);
}

// ---- arithmetic ----------------------------------------------------------

/// Numbers with the same unit, or of which one has none, are added as they are, and the sum has the
/// unit that either has.
pub proof fn like_numbers_add(s: Ev, ans: Seq<Answer>, a: Num, b: Num, pos: Pos)
    requires
        !complex_units(a),
        !complex_units(b),
        unitless(a) || unitless(b) || unit_of(a) == unit_of(b),
        asked_bits(s, ans, ask_numbers(Task::Sum, seq![a.bits, b.bits])).0 is Ok,
        asked_bits(s, ans, ask_numbers(Task::Sum, seq![a.bits, b.bits])).0->Ok_0 is Some,
    ensures
        ({
            let r = binary(s, ans, BinOp::Add, Val::Number(a), Val::Number(b), pos);
            let n = r.0->Ok_0->Number_0;
            &&& r.0 is Ok
            &&& r.0->Ok_0 is Number
            &&& n.bits == asked_bits(s, ans, ask_numbers(Task::Sum, seq![a.bits, b.bits])).0->Ok_0->0
            &&& !complex_units(n)
            &&& unit_of(n) == if unitless(a) {
                unit_of(b)
            } else {
                unit_of(a)
            }
        }),
{
    reveal(binary);
}

/// The difference, the remainder and the comparison of numbers with the same unit are those of the
/// numbers, in their order; the difference and the remainder keep the unit.
pub proof fn like_numbers_compare(s: Ev, ans: Seq<Answer>, a: Num, b: Num, pos: Pos)
    requires
        !complex_units(a),
        !complex_units(b),
        a.numer == b.numer,
    ensures
        ({
            let pair = seq![a.bits, b.bits];
            let x = Val::Number(a);
            let y = Val::Number(b);
            let less = asked_flag(s, ans, ask_numbers(Task::Less, pair));
            let greater = asked_flag(s, ans, ask_numbers(Task::Greater, pair));
            let at_most = asked_flag(s, ans, ask_numbers(Task::LessEqual, pair));
            let at_least = asked_flag(s, ans, ask_numbers(Task::GreaterEqual, pair));
            let minus = asked_bits(s, ans, ask_numbers(Task::Difference, pair));
            let modulo = asked_bits(s, ans, ask_numbers(Task::Remainder, pair));
            &&& less.0 is Ok ==> binary(s, ans, BinOp::Lt, x, y, pos).0 == Ok::<Val, Halt>(
                Val::Bool(less.0->Ok_0),
            )
            &&& greater.0 is Ok ==> binary(s, ans, BinOp::Gt, x, y, pos).0 == Ok::<Val, Halt>(
                Val::Bool(greater.0->Ok_0),
            )
            &&& at_most.0 is Ok ==> binary(s, ans, BinOp::Le, x, y, pos).0 == Ok::<Val, Halt>(
                Val::Bool(at_most.0->Ok_0),
            )
            &&& at_least.0 is Ok ==> binary(s, ans, BinOp::Ge, x, y, pos).0 == Ok::<Val, Halt>(
                Val::Bool(at_least.0->Ok_0),
            )
            &&& minus.0 is Ok && minus.0->Ok_0 is Some ==> binary(s, ans, BinOp::Sub, x, y, pos).0 == Ok::<
                Val,
                Halt,
            >(Val::Number(Num { bits: minus.0->Ok_0->0, ..a }))
            &&& modulo.0 is Ok && modulo.0->Ok_0 is Some ==> binary(s, ans, BinOp::Mod, x, y, pos).0
                == Ok::<Val, Halt>(Val::Number(Num { bits: modulo.0->Ok_0->0, ..a }))
        }),
{
    reveal(binary);
}

/// A number of another unit is converted before it is added, to the unit of the left one.
pub proof fn right_side_is_converted(s: Ev, ans: Seq<Answer>, a: Num, b: Num, pos: Pos)
    requires
        !complex_units(a),
        !complex_units(b),
        !unitless(a),
        !unitless(b),
        unit_of(a) != unit_of(b),
        coerced(s, ans, a, b, pos).0 is Ok,
    ensures
        ({
            let f = asked_bits(s, ans, ask_names(Task::ConvertFactor, seq![unit_of(b), unit_of(a)]));
            let x = asked_bits(f.1, ans, ask_numbers(Task::Scale, seq![b.bits, f.0->Ok_0->0]));
            let t = coerced(s, ans, a, b, pos).0->Ok_0;
            &&& f.0 is Ok && f.0->Ok_0 is Some
            &&& x.0 is Ok && x.0->Ok_0 is Some
            &&& t.0 == a.bits
            &&& t.1 == x.0->Ok_0->0
            &&& t.2 == a
        }),
{
}

/// Strings are joined by `+`, left before right; the result is quoted where the left one is.
pub proof fn strings_join(s: Ev, ans: Seq<Answer>, x: Seq<char>, quoted: bool, y: Seq<char>, other: bool, pos: Pos)
    ensures
        binary(s, ans, BinOp::Add, Val::Str(x, quoted), Val::Str(y, other), pos) == (
            Ok::<Val, Halt>(Val::Str(x + y, quoted)),
            s,
        ),
{
    reveal(binary);
}

/// A division that may be a slash has, as a number, the value that it has when it may not; what it
/// keeps besides is its spelling, with the slash between the two sides.
pub proof fn slash_is_a_quotient(s: Ev, ans: Seq<Answer>, l: Val, r: Val, pos: Pos)
    requires
        slashless(l) is Number,
        slashless(r) is Number,
        division(s, ans, l, r, true, pos).0 is Ok,
    ensures
        ({
            let v = division(s, ans, l, r, true, pos).0->Ok_0;
            let t = crate::ops::slash_spelling(s, ans, l, r);
            let q = division(t.1, ans, slashless(l), slashless(r), false, pos);
            &&& v is Slash
            &&& q.0 == Ok::<Val, Halt>(slashless(v))
            &&& t.0 == Ok::<Seq<char>, Halt>(v->Slash_1)
        }),
{
    reveal(division);
}

/// A slash of a slash is spelled with both.
pub proof fn slashes_are_spelled_out(s: Ev, ans: Seq<Answer>, a: Num, x: Seq<char>, b: Num, y: Seq<char>)
    ensures
        crate::ops::slash_spelling(s, ans, Val::Slash(a, x), Val::Slash(b, y)) == (
            Ok::<Seq<char>, Halt>(x + seq!['/'] + y),
            s,
        ),
{
    assert(x.push('/') + y =~= x + seq!['/'] + y);
}

/// A number in parentheses, like one in any operation, is no longer a slash.
pub proof fn parentheses_make_a_number(s: Ev, ans: Seq<Answer>, inner: Box<Expr>, fuel: nat)
    requires
        eval(s, ans, *inner, fuel).0 is Ok,
    ensures
        eval_inner(s, ans, Expr::Paren(inner), fuel).0 is Ok,
        !(eval_inner(s, ans, Expr::Paren(inner), fuel).0->Ok_0 is Slash),
        !(eval(s, ans, *inner, fuel).0->Ok_0 is Slash) ==> eval_inner(s, ans, Expr::Paren(inner), fuel)
            == eval(s, ans, *inner, fuel),
{
}

/// A number has the unit that it is written with.
pub proof fn number_has_its_unit(s: Ev, ans: Seq<Answer>, bits: u64, unit: String, fuel: nat)
    ensures
        ({
            let r = eval_inner(s, ans, Expr::Number(bits, unit), fuel);
            &&& r.0 is Ok && r.1 == s
            &&& r.0->Ok_0 is Number
            &&& (r.0->Ok_0->Number_0).bits == bits
            &&& unit_of(r.0->Ok_0->Number_0) == unit@
            &&& unitless(r.0->Ok_0->Number_0) == (unit@.len() == 0)
            &&& !complex_units(r.0->Ok_0->Number_0)
        }),
{
    if unit@.len() == 0 {
        assert(unit@ =~= Seq::<char>::empty());
    }
}

// ---- conditions ----------------------------------------------------------

/// Whether an argument is written plainly, without a name and without dots behind it.
pub open spec fn plain_arg(a: CallArg) -> bool {
    a.name is None && !a.splat
}

/// `if(a, b, c)` has the value of `b` where `a` holds, and that of `c` where it does not; the other one
/// is not evaluated.
pub proof fn if_takes_one_side(s: Ev, ans: Seq<Answer>, args: Seq<CallArg>, pos: Pos, fuel: nat)
    requires
        args.len() == 3,
        forall|k: int| 0 <= k < 3 ==> plain_arg(#[trigger] args[k]),
        eval(s, ans, args[0].value, fuel).0 is Ok,
    ensures
        ({
            let c = eval(s, ans, args[0].value, fuel);
            let side = if counts_as_false(c.0->Ok_0) {
                args[2].value
            } else {
                args[1].value
            };
            let v = eval(c.1, ans, side, fuel);
            let r = if_function(s, ans, args, pos, fuel);
            &&& r.1 == v.1
            &&& v.0 is Ok ==> r.0 == Ok::<Val, Halt>(slashless(v.0->Ok_0))
            &&& v.0 is Err ==> r.0 == v.0
        }),
{
    reveal_with_fuel(if_args, 4);
    reveal(crate::sem::filled);
    assert(plain_arg(args[0]) && plain_arg(args[1]) && plain_arg(args[2]));
    let none = no_branches();
    let b0 = Branches { by_pos: none.by_pos.push(Branch::Lazy(args[0].value)), ..none };
    let b1 = Branches { by_pos: b0.by_pos.push(Branch::Lazy(args[1].value)), ..b0 };
    let b2 = Branches { by_pos: b1.by_pos.push(Branch::Lazy(args[2].value)), ..b1 };
    assert(if_args(s, ans, args, 0, none, pos, fuel) == (Ok::<Branches, Halt>(b2), s));
    assert(b2.by_pos[0] == Branch::Lazy(args[0].value));
    assert(b2.by_pos[1] == Branch::Lazy(args[1].value));
    assert(b2.by_pos[2] == Branch::Lazy(args[2].value));
}

/// A clause of an `if()` whose condition is false is passed over; the first that is true gives the value
/// where none before it was left to CSS.
pub proof fn first_true_clause_gives_the_value(
    s: Ev,
    ans: Seq<Answer>,
    clauses: Seq<IfClause>,
    i: int,
    fuel: nat,
)
    requires
        0 <= i < clauses.len(),
        clauses[i].condition is Some,
        if_cond(s, ans, clauses[i].condition->0, fuel).0 is Ok,
        if_cond(s, ans, clauses[i].condition->0, fuel).0->Ok_0 is Bool,
    ensures
        ({
            let c = if_cond(s, ans, clauses[i].condition->0, fuel);
            let v = eval(c.1, ans, clauses[i].value, fuel);
            &&& c.0->Ok_0 == Outcome::Bool(false) ==> modern_if(s, ans, clauses, i, None, fuel)
                == modern_if(c.1, ans, clauses, i + 1, None, fuel)
            &&& c.0->Ok_0 == Outcome::Bool(true) && v.0 is Ok ==> modern_if(
                s,
                ans,
                clauses,
                i,
                None,
                fuel,
            ) == (Ok::<Val, Halt>(slashless(v.0->Ok_0)), v.1)
        }),
        modern_if(s, ans, clauses, clauses.len() as int, None, fuel) == (Ok::<Val, Halt>(Val::Null), s),
{
    reveal_with_fuel(modern_if, 2);
}

/// Whether a condition comes to a truth value in every state.
pub open spec fn settles(ans: Seq<Answer>, c: IfCond, b: bool, fuel: nat) -> bool {
    forall|x: Ev| (#[trigger] if_cond(x, ans, c, fuel)).0 == Ok::<Outcome, Halt>(Outcome::Bool(b))
}

/// An `and` of conditions holds where all of them do, an `or` where one of them does.
pub proof fn operands_decide(s: Ev, ans: Seq<Answer>, items: Seq<IfCond>, truths: Seq<bool>, i: int, fuel: nat)
    requires
        0 <= i <= items.len(),
        truths.len() == items.len(),
        forall|k: int| 0 <= k < items.len() ==> settles(ans, #[trigger] items[k], truths[k], fuel),
    ensures
        if_operands(s, ans, items, i, Seq::empty(), true, fuel).0 == Ok::<Outcome, Halt>(
            Outcome::Bool(forall|k: int| i <= k < truths.len() ==> #[trigger] truths[k]),
        ),
        if_operands(s, ans, items, i, Seq::empty(), false, fuel).0 == Ok::<Outcome, Halt>(
            Outcome::Bool(exists|k: int| i <= k < truths.len() && #[trigger] truths[k]),
        ),
    decreases items.len() - i,
{
    if i < items.len() {
        assert(settles(ans, items[i], truths[i], fuel));
        let c = if_cond(s, ans, items[i], fuel);
        assert(c.0 == Ok::<Outcome, Halt>(Outcome::Bool(truths[i])));
        operands_decide(c.1, ans, items, truths, i + 1, fuel);
        if truths[i] {
            assert((forall|k: int| i <= k < truths.len() ==> #[trigger] truths[k]) == (forall|k: int|
                i + 1 <= k < truths.len() ==> #[trigger] truths[k])) by {
                if forall|k: int| i + 1 <= k < truths.len() ==> #[trigger] truths[k] {
                    assert forall|k: int| i <= k < truths.len() implies #[trigger] truths[k] by {}
                }
            }
        } else {
            assert((exists|k: int| i <= k < truths.len() && #[trigger] truths[k]) == (exists|k: int|
                i + 1 <= k < truths.len() && #[trigger] truths[k])) by {
                if exists|k: int| i <= k < truths.len() && #[trigger] truths[k] {
                    let k = choose|k: int| i <= k < truths.len() && #[trigger] truths[k];
                    assert(i + 1 <= k && truths[k]);
                }
            }
        }
    }
}

// ---- calculations --------------------------------------------------------

/// A calculation adds numbers with the same unit, and keeps the unit.
pub proof fn calculation_adds_like_numbers(s: Ev, ans: Seq<Answer>, a: Num, b: Num, pos: Pos)
    requires
        !complex_units(a),
        !complex_units(b),
        unit_of(a) == unit_of(b),
    ensures
        ({
            let plus = asked_bits(s, ans, ask_numbers(Task::Sum, seq![a.bits, b.bits]));
            let minus = asked_bits(s, ans, ask_numbers(Task::Difference, seq![a.bits, b.bits]));
            &&& plus.0 is Ok && plus.0->Ok_0 is Some ==> folded(
                s,
                ans,
                CalcOp::Add,
                Cal::Number(a),
                Cal::Number(b),
                pos,
            ) == (Ok::<Cal, Halt>(Cal::Number(Num { bits: plus.0->Ok_0->0, ..a })), plus.1)
            &&& minus.0 is Ok && minus.0->Ok_0 is Some ==> folded(
                s,
                ans,
                CalcOp::Sub,
                Cal::Number(a),
                Cal::Number(b),
                pos,
            ) == (Ok::<Cal, Halt>(Cal::Number(Num { bits: minus.0->Ok_0->0, ..a })), minus.1)
        }),
{
    reveal(folded);
}

/// A calculation on what is not known as a number is kept as it is written, left before right.
pub proof fn calculation_keeps_what_it_cannot_do(s: Ev, ans: Seq<Answer>, op: CalcOp, l: Cal, r: Cal, pos: Pos)
    requires
        !(l is Number && r is Number),
        !complex_operand(l),
        !complex_operand(r),
    ensures
        folded(s, ans, op, l, r, pos) == (Ok::<Cal, Halt>(Cal::Op(op, Box::new(l), Box::new(r))), s),
{
    reveal(folded);
}

/// A calculation that comes to a number is that number, outside `@supports` conditions.
pub proof fn calculated_number_is_a_number(s: Ev, ans: Seq<Answer>, inner: Box<Expr>, fuel: nat, n: Num)
    requires
        simplified(s, ans, *inner, fuel).0 == Ok::<Cal, Halt>(Cal::Number(n)),
        !simplified(s, ans, *inner, fuel).1.supports,
    ensures
        eval_inner(s, ans, Expr::Calc { inner }, fuel).0 == Ok::<Val, Halt>(Val::Number(n)),
{
    reveal(calc_value);
}

} // verus!
