//! The selectors of style rules, and `@extend`.

use vstd::prelude::*;
use crate::ast::TplPiece;
use crate::bogus::{block_bogus, complex_selector_block_is_bogus};
use crate::error::{Pos, fault, fault_at};
use crate::eval::{
    Ev, Evaluator, Run, ev_of, fail, next_answer, out_unit, same_place, scope_popped,
    scope_pushed, stop, stop_at,
};
use crate::expr::{empty_strings, out_texts, push_string};
use crate::host::{
    Answer, Ask, Halt, Request, Stop, TargetClass, Task, ask_names, one_name, request_names,
};
use crate::names::{keyframe_selector, normalize_keyframe_selector};
use crate::nesting::{
    all_normalized, breaks_from, comma_linebreaks, spell_selectors, substitute_parents, substituted,
};
use crate::out::copy_bools;
use crate::page::{Leaf, Pending, PendingExtend, leaf_of, pendings};
use crate::plain::{filled_parts, split_filled};
use crate::queries::whole_template;
use crate::scan::{comma_parts, split_commas};
use crate::selector_check::{selector_fault, validate_selector};
use crate::selector_text::Spellings;
use crate::state::pairs_of_text;
use crate::text::{
    chars_of, clone_strings, digit, has_char, is_digit, rows, string_of, texts, trim, trim_start,
    trimmed, trimmed_start,
};

verus! {

broadcast use crate::kept::group_kept;

// ---- the selectors of a rule ---------------------------------------------

/// The canonical spellings that are asked for.
pub open spec fn asked_spellings(s: Ev, ans: Seq<Answer>, q: Ask) -> Run<Spellings> {
    match next_answer(s, ans, q) {
        (Err(h), s1) => (Err(h), s1),
        (Ok(a), s1) => match a {
            Answer::Spellings(sp) => (Ok(sp), s1),
            _ => (Err(Halt::Mismatch), s1),
        },
    }
}

/// Whether a part of a selector list begins with a digit.
pub open spec fn digit_first(part: Seq<char>) -> bool {
    let t = trimmed_start(part);
    t.len() > 0 && is_digit(t[0])
}

pub open spec fn any_digit_first(parts: Seq<Seq<char>>) -> bool {
    exists|k: int| 0 <= k < parts.len() && digit_first(#[trigger] parts[k])
}

/// The selectors of a rule with this text, below the parents. The spellings are those of the
/// selectors that the parents have been put into.
#[verifier::opaque]
pub open spec fn rule_selectors(s: Ev, ans: Seq<Answer>, text: Seq<char>, parents: Seq<Seq<char>>) -> Run<
    Seq<Seq<char>>,
> {
    if trimmed(text).len() == 0 {
        fail(fault("expected selector."@), s)
    } else {
        match selector_fault(text, parents.len() > 0) {
            Some(m) => fail(fault(m), s),
            None => if s.page.keyframes {
                (Ok(filled_parts(comma_parts(text))), s)
            } else if any_digit_first(comma_parts(text)) {
                fail(fault("expected selector."@), s)
            } else {
                match substituted(text, parents, !s.page.at_root) {
                    Err(m) => fail(fault(m), s),
                    Ok(l) => match asked_spellings(s, ans, ask_names(Task::Spellings, l)) {
                        (Err(h), s1) => (Err(h), s1),
                        (Ok(sp), s1) => (Ok(all_normalized(sp, l)), s1),
                    },
                }
            },
        }
    }
}

/// A flag of a list; `false` beyond its end.
pub open spec fn flag_at(list: Seq<bool>, i: int) -> bool {
    0 <= i < list.len() && list[i]
}

/// Which selectors begin on a line of their own: a nested one does where its part or its parent
/// does. Empty where none does.
#[verifier::opaque]
pub open spec fn rule_breaks(s: Ev, text: Seq<char>, parents: Seq<Seq<char>>, count: nat) -> Seq<bool> {
    if s.page.linebreaks.len() == 0 && !text.contains('\n') {
        Seq::empty()
    } else {
        let parts = breaks_from(comma_parts(text), 0, false, parents.len() > 0);
        let n: int = if parts.len() == 0 {
            1
        } else {
            parts.len() as int
        };
        let above = if s.page.linebreaks.len() == parents.len() {
            s.page.linebreaks
        } else {
            Seq::empty()
        };
        Seq::new(count, |i: int| flag_at(parts, i % n) || flag_at(above, i / n))
    }
}

/// What is left of selectors and their line breaks in the output, and the state that knows the
/// selectors left out and those with placeholders.
pub ghost struct Emitted {
    pub s: Ev,
    pub selectors: Seq<Seq<char>>,
    pub breaks: Seq<bool>,
}

/// The selectors from `i` on that a rule is written with, after what is there: those with bogus
/// combinators are left out.
pub open spec fn emitted(
    s: Ev,
    current: Seq<Seq<char>>,
    lbs: Seq<bool>,
    i: int,
    selectors: Seq<Seq<char>>,
    breaks: Seq<bool>,
) -> Emitted
    decreases current.len() - i,
{
    if i < 0 || i >= current.len() {
        Emitted { s, selectors, breaks }
    } else {
        let c = current[i];
        if block_bogus(c) {
            emitted(
                Ev { page: Leaf { bogus: s.page.bogus.push(c), ..s.page }, ..s },
                current,
                lbs,
                i + 1,
                selectors,
                breaks,
            )
        } else {
            let s1 = if c.contains('%') {
                Ev {
                    page: Leaf {
                        placeholders: s.page.placeholders.push((s.page.module, c)),
                        ..s.page
                    },
                    ..s
                }
            } else {
                s
            };
            emitted(
                s1,
                current,
                lbs,
                i + 1,
                selectors.push(
                    if s.page.keyframes {
                        keyframe_selector(c)
                    } else {
                        c
                    },
                ),
                if lbs.len() > 0 {
                    breaks.push(flag_at(lbs, i))
                } else {
                    breaks
                },
            )
        }
    }
}

/// The state inside a rule.
#[verifier::opaque]
pub open spec fn rule_entered(s: Ev, current: Seq<Seq<char>>, lbs: Seq<bool>) -> Ev {
    let s1 = scope_pushed(s, false);
    Ev {
        selector: Some(current),
        page: Leaf { linebreaks: lbs, at_root: false, ..s1.page },
        ..s1
    }
}

/// The state after what was done inside a rule that was entered from `from`.
#[verifier::opaque]
pub open spec fn rule_left(s: Ev, from: Ev) -> Ev {
    scope_popped(
        Ev {
            selector: from.selector,
            page: Leaf {
                linebreaks: from.page.linebreaks,
                at_root: from.page.at_root,
                ..s.page
            },
            ..s
        },
    )
}

fn is_digit_first(parts: &Vec<Vec<char>>) -> (r: bool)
    ensures
        r == any_digit_first(rows(parts@)),
{
    let ghost all = rows(parts@);
    let mut i: usize = 0;
    while i < parts.len()
        invariant
            i <= parts@.len(),
            all == rows(parts@),
            forall|k: int| 0 <= k < i ==> !digit_first(#[trigger] all[k]),
        decreases parts@.len() - i,
    {
        let t = trim_start(parts[i].as_slice());
        let n: usize = t.len();
        if n > 0 && digit(t[0]) {
            proof {
                assert(digit_first(all[i as int]));
            }
            return true;
        }
        i += 1;
    }
    false
}

fn get_flag(list: &Vec<bool>, i: usize) -> (r: bool)
    ensures
        r == flag_at(list@, i as int),
{
    i < list.len() && list[i]
}

pub fn copy_opt_strings(o: &Option<Vec<String>>) -> (r: Option<Vec<String>>)
    ensures
        crate::env::opt_texts(r) == crate::env::opt_texts(*o),
{
    match o {
        Some(v) => Some(clone_strings(v)),
        None => None,
    }
}

/// Append a pair of strings to a list.
pub fn push_text_pair(out: &mut Vec<(String, String)>, a: String, b: String)
    ensures
        pairs_of_text(final(out)@) == pairs_of_text(old(out)@).push((a@, b@)),
{
    out.push((a, b));
    proof {
        assert(pairs_of_text(final(out)@) =~= pairs_of_text(old(out)@).push((a@, b@)));
    }
}

impl Evaluator {
    pub fn ask_spellings<'a>(&mut self, ans: &'a Vec<Answer>, q: Request) -> (r: Result<&'a Spellings, Stop>)
        ensures
            (match r {
                Ok(sp) => Ok(*sp),
                Err(e) => Err(e@),
            }, final(self)@) == asked_spellings(old(self)@, ans@, q@),
            same_place(old(self)@, final(self)@),
    {
        match self.next(ans, q) {
            Err(x) => Err(x),
            Ok(Answer::Spellings(sp)) => Ok(sp),
            Ok(_) => Err(Stop::Mismatch),
        }
    }

    /// The selectors of a rule.
    pub fn rule_selectors(&mut self, ans: &Vec<Answer>, text: &str, parents: &Vec<String>) -> (r: Result<
        Vec<String>,
        Stop,
    >)
        ensures
            (out_texts(r), final(self)@) == rule_selectors(
                old(self)@,
                ans@,
                text@,
                texts(parents@),
            ),
            same_place(old(self)@, final(self)@),
    {
        proof {
            reveal(rule_selectors);
        }
        proof {
            reveal(ev_of);
        }
        proof {
            reveal(leaf_of);
        }
        let chars = chars_of(text);
        if trim(chars.as_slice()).len() == 0 {
            return Err(stop("expected selector."));
        }
        match validate_selector(text, parents.len() > 0) {
            Ok(()) => {},
            Err(e) => {
                return Err(Stop::Error(e));
            },
        }
        if self.page.keyframes {
            return Ok(split_filled(text));
        }
        let parts = split_commas(chars.as_slice());
        if is_digit_first(&parts) {
            return Err(stop("expected selector."));
        }
        let list = match substitute_parents(text, parents, !self.page.at_root) {
            Ok(l) => l,
            Err(e) => {
                return Err(Stop::Error(e));
            },
        };
        match self.ask_spellings(ans, request_names(Task::Spellings, clone_strings(&list))) {
            Err(x) => Err(x),
            Ok(sp) => Ok(spell_selectors(sp, &list)),
        }
    }

    /// Which selectors of a rule begin on a line of their own.
    pub fn rule_breaks(&self, text: &str, parents: &Vec<String>, count: usize) -> (r: Vec<bool>)
        ensures
            r@ == rule_breaks(self@, text@, texts(parents@), count as nat),
    {
        proof {
            reveal(rule_breaks);
        }
        proof {
            reveal(ev_of);
        }
        proof {
            reveal(leaf_of);
        }
        let chars = chars_of(text);
        if self.page.linebreaks.len() == 0 && !has_char(chars.as_slice(), '\n') {
            let none: Vec<bool> = Vec::new();
            proof {
                assert(none@ =~= Seq::empty());
            }
            return none;
        }
        let parts = comma_linebreaks(text, parents.len() > 0);
        let n: usize = if parts.len() == 0 {
            1
        } else {
            parts.len()
        };
        let above = if self.page.linebreaks.len() == parents.len() {
            copy_bools(&self.page.linebreaks)
        } else {
            let none: Vec<bool> = Vec::new();
            proof {
                assert(none@ =~= Seq::empty());
            }
            none
        };
        let ghost all = rule_breaks(self@, text@, texts(parents@), count as nat);
        let mut out: Vec<bool> = Vec::new();
        let mut i: usize = 0;
        while i < count
            invariant
                i <= count,
                n > 0,
                all.len() == count,
                forall|k: int|
                    0 <= k < count ==> #[trigger] all[k] == (flag_at(parts@, k % (n as int)) || flag_at(
                        above@,
                        k / (n as int),
                    )),
                out@ =~= all.take(i as int),
            decreases count - i,
        {
            proof {
                reveal(rule_breaks);
            }
            proof {
                reveal(ev_of);
            }
            proof {
                reveal(leaf_of);
            }
            let b = get_flag(&parts, i % n) || get_flag(&above, i / n);
            proof {
                assert(all[i as int] == b);
            }
            out.push(b);
            i += 1;
        }
        proof {
            assert(all.take(i as int) =~= all);
        }
        out
    }

    /// The selectors that a rule is written with, and their line breaks.
    pub fn emit_selectors(&mut self, current: &Vec<String>, lbs: &Vec<bool>) -> (r: (Vec<String>, Vec<bool>))
        ensures
            (Emitted { s: final(self)@, selectors: texts(r.0@), breaks: r.1@ }) == emitted(
                old(self)@,
                texts(current@),
                lbs@,
                0,
                Seq::empty(),
                Seq::empty(),
            ),
            same_place(old(self)@, final(self)@),
    {
        proof {
            reveal(ev_of);
        }
        proof {
            reveal(leaf_of);
        }
        let ghost all = texts(current@);
        let ghost goal = emitted(old(self)@, all, lbs@, 0, Seq::empty(), Seq::empty());
        let mut selectors = empty_strings();
        let mut breaks: Vec<bool> = Vec::new();
        let mut i: usize = 0;
        proof {
            assert(breaks@ =~= Seq::empty());
        }
        while i < current.len()
            invariant
                same_place(old(self)@, self@),
                i <= current@.len(),
                all == texts(current@),
                goal == emitted(old(self)@, all, lbs@, 0, Seq::empty(), Seq::empty()),
                emitted(self@, all, lbs@, i as int, texts(selectors@), breaks@) == goal,
            decreases current@.len() - i,
        {
            proof {
                reveal(ev_of);
            }
            proof {
                reveal(leaf_of);
            }
            let c = chars_of(current[i].as_str());
            if complex_selector_block_is_bogus(c.as_slice()) {
                push_string(&mut self.page.bogus, current[i].clone());
            } else {
                if has_char(c.as_slice(), '%') {
                    let m = self.page.module.clone();
                    push_text_pair(&mut self.page.placeholders, m, current[i].clone());
                }
                let t = if self.page.keyframes {
                    normalize_keyframe_selector(current[i].as_str())
                } else {
                    current[i].clone()
                };
                push_string(&mut selectors, t);
                if lbs.len() > 0 {
                    breaks.push(get_flag(lbs, i));
                }
            }
            i += 1;
        }
        (selectors, breaks)
    }
}

// ---- @extend -------------------------------------------------------------

/// The kind of selector that is asked for.
pub open spec fn asked_target(s: Ev, ans: Seq<Answer>, q: Ask) -> Run<TargetClass> {
    match next_answer(s, ans, q) {
        (Err(h), s1) => (Err(h), s1),
        (Ok(a), s1) => match a {
            Answer::Target(c) => (Ok(c), s1),
            _ => (Err(Halt::Mismatch), s1),
        },
    }
}

pub open spec fn compound_message() -> Seq<char> {
    "compound selectors may no longer be extended.\nConsider `@extend a, :hover` instead.\nSee https://sass-lang.com/d/extend-compound for details."@
}

pub open spec fn with_extend(s: Ev, p: Pending) -> Ev {
    Ev { page: Leaf { extends: s.page.extends.push(p), ..s.page }, ..s }
}

/// The state with an extension of each target from `i` on.
pub open spec fn targets_extended(
    s: Ev,
    ans: Seq<Answer>,
    parts: Seq<Seq<char>>,
    i: int,
    extenders: Seq<Seq<char>>,
    optional: bool,
    pos: Pos,
) -> Run<()>
    decreases parts.len() - i,
{
    if i < 0 || i >= parts.len() {
        (Ok(()), s)
    } else {
        let t = trimmed(parts[i]);
        if t.len() == 0 {
            targets_extended(s, ans, parts, i + 1, extenders, optional, pos)
        } else {
            match asked_target(s, ans, ask_names(Task::ExtendTarget, seq![t])) {
                (Err(h), s1) => (Err(h), s1),
                (Ok(TargetClass::Simple), s1) => targets_extended(
                    with_extend(
                        s1,
                        Pending {
                            target: t,
                            extenders,
                            breaks: s1.page.linebreaks,
                            optional,
                            in_media: s1.page.media.len() > 0,
                            origin: s1.page.module,
                            pos,
                        },
                    ),
                    ans,
                    parts,
                    i + 1,
                    extenders,
                    optional,
                    pos,
                ),
                (Ok(TargetClass::Complex), s1) => fail(
                    fault_at("complex selectors may not be extended."@, pos),
                    s1,
                ),
                (Ok(TargetClass::Compound), s1) => fail(fault_at(compound_message(), pos), s1),
                (Ok(TargetClass::Invalid), s1) => fail(fault_at("expected selector."@, pos), s1),
            }
        }
    }
}

/// The state after an `@extend`.
#[verifier::opaque]
pub open spec fn extended(
    s: Ev,
    ans: Seq<Answer>,
    selector: Seq<TplPiece>,
    optional: bool,
    pos: Pos,
    parents: Seq<Seq<char>>,
    fuel: nat,
) -> Run<()> {
    if parents.len() == 0 || s.page.at_root {
        fail(fault_at("@extend may only be used within style rules."@, pos), s)
    } else {
        match whole_template(s, ans, selector, fuel) {
            (Err(h), s1) => (Err(h), s1),
            (Ok(t), s1) => if trimmed(t).len() == 0 {
                fail(fault_at("expected selector."@, pos), s1)
            } else {
                targets_extended(
                    s1,
                    ans,
                    comma_parts(t),
                    0,
                    match s.selector {
                        Some(l) => l,
                        None => parents,
                    },
                    optional,
                    pos,
                )
            },
        }
    }
}

impl Evaluator {
    pub fn ask_target(&mut self, ans: &Vec<Answer>, q: Request) -> (r: Result<TargetClass, Stop>)
        ensures
            (match r {
                Ok(c) => Ok(c),
                Err(e) => Err(e@),
            }, final(self)@) == asked_target(old(self)@, ans@, q@),
            same_place(old(self)@, final(self)@),
    {
        match self.next(ans, q) {
            Err(x) => Err(x),
            Ok(Answer::Target(c)) => Ok(*c),
            Ok(_) => Err(Stop::Mismatch),
        }
    }

    fn add_extend(&mut self, target: String, extenders: &Vec<String>, optional: bool, pos: Pos)
        ensures
            final(self)@ == with_extend(
                old(self)@,
                Pending {
                    target: target@,
                    extenders: texts(extenders@),
                    breaks: old(self)@.page.linebreaks,
                    optional,
                    in_media: old(self)@.page.media.len() > 0,
                    origin: old(self)@.page.module,
                    pos,
                },
            ),
            same_place(old(self)@, final(self)@),
    {
        proof {
            reveal(ev_of);
        }
        proof {
            reveal(leaf_of);
        }
        let p = PendingExtend {
            target,
            extenders: clone_strings(extenders),
            breaks: copy_bools(&self.page.linebreaks),
            optional,
            in_media: self.page.media.len() > 0,
            origin: self.page.module.clone(),
            pos,
        };
        let ghost before = pendings(self.page.extends@);
        let ghost pv = p@;
        self.page.extends.push(p);
        proof {
            assert(pendings(self.page.extends@) =~= before.push(pv));
        }
    }

    /// `@extend`.
    pub fn register_extend(
        &mut self,
        ans: &Vec<Answer>,
        selector: &Vec<TplPiece>,
        optional: bool,
        pos: Pos,
        parents: &Vec<String>,
        fuel: usize,
    ) -> (r: Result<(), Stop>)
        ensures
            (out_unit(r), final(self)@) == extended(
                old(self)@,
                ans@,
                selector@,
                optional,
                pos,
                texts(parents@),
                fuel as nat,
            ),
            same_place(old(self)@, final(self)@),
    {
        proof {
            reveal(extended);
        }
        proof {
            reveal(ev_of);
        }
        proof {
            reveal(leaf_of);
        }
        if parents.len() == 0 || self.page.at_root {
            return Err(stop_at("@extend may only be used within style rules.", pos));
        }
        let extenders = match &self.selector {
            Some(l) => clone_strings(l),
            None => clone_strings(parents),
        };
        let t = match self.eval_template(ans, selector, fuel) {
            Ok(t) => t,
            Err(x) => {
                return Err(x);
            },
        };
        let chars = chars_of(t.as_str());
        if trim(chars.as_slice()).len() == 0 {
            return Err(stop_at("expected selector.", pos));
        }
        let parts = split_commas(chars.as_slice());
        self.extend_targets(ans, &parts, &extenders, optional, pos)
    }

    fn extend_targets(
        &mut self,
        ans: &Vec<Answer>,
        parts: &Vec<Vec<char>>,
        extenders: &Vec<String>,
        optional: bool,
        pos: Pos,
    ) -> (r: Result<(), Stop>)
        ensures
            (out_unit(r), final(self)@) == targets_extended(
                old(self)@,
                ans@,
                rows(parts@),
                0,
                texts(extenders@),
                optional,
                pos,
            ),
            same_place(old(self)@, final(self)@),
    {
        let ghost all = rows(parts@);
        let ghost ex = texts(extenders@);
        let ghost goal = targets_extended(old(self)@, ans@, all, 0, ex, optional, pos);
        let mut i: usize = 0;
        while i < parts.len()
            invariant
                same_place(old(self)@, self@),
                i <= parts@.len(),
                all == rows(parts@),
                ex == texts(extenders@),
                goal == targets_extended(old(self)@, ans@, all, 0, ex, optional, pos),
                targets_extended(self@, ans@, all, i as int, ex, optional, pos) == goal,
            decreases parts@.len() - i,
        {
            let t = trim(parts[i].as_slice());
            if t.len() > 0 {
                let target = string_of(t);
                match self.ask_target(ans, request_names(Task::ExtendTarget, one_name(target.as_str()))) {
                    Err(x) => {
                        return Err(x);
                    },
                    Ok(TargetClass::Simple) => {
                        self.add_extend(target, extenders, optional, pos);
                    },
                    Ok(TargetClass::Complex) => {
                        return Err(stop_at("complex selectors may not be extended.", pos));
                    },
                    Ok(TargetClass::Compound) => {
                        return Err(
                            stop_at(
                                "compound selectors may no longer be extended.\nConsider `@extend a, :hover` instead.\nSee https://sass-lang.com/d/extend-compound for details.",
                                pos,
                            ),
                        );
                    },
                    Ok(TargetClass::Invalid) => {
                        return Err(stop_at("expected selector.", pos));
                    },
                }
            }
            i += 1;
        }
        Ok(())
    }
}

} // verus!
