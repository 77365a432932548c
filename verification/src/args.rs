//! Arguments of a call: how they are gathered, and how they meet the parameters.

use vstd::prelude::*;
use crate::env::{lemma_loose_entry_is, loose_entry, same_name};
use crate::error::fault;
use crate::eval::{Ev, Evaluator, Run, fail, plain_css, same_place, stop};
use crate::host::{Answer, Halt, Stop, named_vals};
use crate::names::{dashed, normalize_arg_name};
use crate::state::{Vars, entry, lemma_entry_is};
use crate::text::{append, append_str, chars_of, join, joined, same_str, string_of, text_of, texts};
use crate::value::{
    List, ListSep, Val, Value, copy_value, push_pair, push_value, push_values, val, val_pairs,
    vals, word,
};

verus! {

broadcast use crate::kept::group_kept;

// ---- gathering -----------------------------------------------------------

/// Evaluated arguments: by position, by name, and the separator of a list that was spread.
#[derive(Debug)]
pub struct Args {
    pub positional: Vec<Value>,
    pub named: Vec<(String, Value)>,
    pub sep: ListSep,
}

/// What [`Args`] holds.
pub ghost struct Given {
    pub positional: Seq<Val>,
    pub named: Vars,
    pub sep: ListSep,
}

impl View for Args {
    type V = Given;

    open spec fn view(&self) -> Given {
        Given {
            positional: vals(self.positional@),
            named: named_vals(self.named@),
            sep: self.sep,
        }
    }
}

/// Arguments under way: those written by position, those that a spread list gives, those by name,
/// and whether one by name was written.
#[derive(Debug)]
pub struct Gather {
    pub explicit: Vec<Value>,
    pub spread: Vec<Value>,
    pub named: Vec<(String, Value)>,
    pub seen_named: bool,
    pub sep: ListSep,
}

/// What a [`Gather`] holds.
pub ghost struct Gathered {
    pub explicit: Seq<Val>,
    pub spread: Seq<Val>,
    pub named: Vars,
    pub seen_named: bool,
    pub sep: ListSep,
}

impl View for Gather {
    type V = Gathered;

    open spec fn view(&self) -> Gathered {
        Gathered {
            explicit: vals(self.explicit@),
            spread: vals(self.spread@),
            named: named_vals(self.named@),
            seen_named: self.seen_named,
            sep: self.sep,
        }
    }
}

pub open spec fn nothing_gathered() -> Gathered {
    Gathered {
        explicit: Seq::empty(),
        spread: Seq::empty(),
        named: Seq::empty(),
        seen_named: false,
        sep: ListSep::Comma,
    }
}

/// The arguments in the end: those of spread lists follow those written by position.
pub open spec fn given(g: Gathered) -> Given {
    Given { positional: g.explicit + g.spread, named: g.named, sep: g.sep }
}

/// Named arguments with one more; none where the name is there already, in any spelling.
pub open spec fn with_named(named: Vars, name: Seq<char>, v: Val) -> Option<Vars> {
    if loose_entry(named, name) < named.len() {
        None
    } else {
        Some(named.push((name, v)))
    }
}

pub fn has_named(named: &Vec<(String, Value)>, name: &str) -> (r: bool)
    ensures
        r == (loose_entry(named_vals(named@), name@) < named@.len()),
{
    let ghost s = named_vals(named@);
    let mut k: usize = 0;
    while k < named.len() && !same_name(named[k].0.as_str(), name)
        invariant
            k <= named@.len(),
            s == named_vals(named@),
            forall|j: int| 0 <= j < k ==> dashed((#[trigger] s[j]).0) != dashed(name@),
        decreases named@.len() - k,
    {
        k += 1;
    }
    proof {
        lemma_loose_entry_is(s, name@, k as int);
    }
    k < named.len()
}

/// Add a named argument.
pub fn push_named(named: &mut Vec<(String, Value)>, name: &str, v: Value) -> (r: Result<(), Stop>)
    ensures
        match with_named(named_vals(old(named)@), name@, val(v)) {
            Some(n) => r is Ok && named_vals(final(named)@) == n,
            None => r is Err && r->Err_0@ == Halt::Error(fault("Duplicate argument."@)),
        },
{
    if has_named(named, name) {
        return Err(stop("Duplicate argument."));
    }
    named.push((name.to_owned(), v));
    proof {
        assert(named_vals(final(named)@) =~= named_vals(old(named)@).push((name@, val(v))));
    }
    Ok(())
}

/// The entries of a map, from `i` on, as named arguments. A key that is no string is an error.
pub open spec fn spread_map(s: Ev, ans: Seq<Answer>, m: Seq<(Val, Val)>, i: int, named: Vars) -> Run<Vars>
    decreases m.len() - i,
{
    if i < 0 || i >= m.len() {
        (Ok(named), s)
    } else {
        match m[i].0 {
            Val::Str(t, q) => match with_named(named, t, m[i].1) {
                Some(n) => spread_map(s, ans, m, i + 1, n),
                None => fail(fault("Duplicate argument."@), s),
            },
            k => match plain_css(s, ans, k) {
                (Err(h), s1) => (Err(h), s1),
                (Ok(t), s1) => fail(fault(t + " is not a string in $args."@), s1),
            },
        }
    }
}

/// The keywords of an argument list, from `i` on, as named arguments.
pub open spec fn spread_keywords(s: Ev, m: Seq<(Val, Val)>, i: int, named: Vars) -> Run<Vars>
    decreases m.len() - i,
{
    if i < 0 || i >= m.len() {
        (Ok(named), s)
    } else {
        match m[i].0 {
            Val::Str(t, q) => match with_named(named, t, m[i].1) {
                Some(n) => spread_keywords(s, m, i + 1, n),
                None => fail(fault("Duplicate argument."@), s),
            },
            _ => spread_keywords(s, m, i + 1, named),
        }
    }
}

/// The arguments with a spread value: a map gives named ones; a list gives its items and its
/// keywords; `null` gives nothing; any other value gives itself.
pub open spec fn with_spread(s: Ev, ans: Seq<Answer>, g: Gathered, v: Val) -> Run<Gathered> {
    match v {
        Val::Pairs(m) => match spread_map(s, ans, m, 0, g.named) {
            (Err(h), s1) => (Err(h), s1),
            (Ok(n), s1) => (Ok(Gathered { named: n, ..g }), s1),
        },
        Val::List { items, sep, bracketed, keywords } => {
            let g1 = Gathered {
                spread: g.spread + items,
                sep: if sep == ListSep::Undecided {
                    g.sep
                } else {
                    sep
                },
                ..g
            };
            match keywords {
                None => (Ok(g1), s),
                Some(kw) => match spread_keywords(s, kw, 0, g.named) {
                    (Err(h), s1) => (Err(h), s1),
                    (Ok(n), s1) => (Ok(Gathered { named: n, ..g1 }), s1),
                },
            }
        },
        Val::Null => (Ok(g), s),
        other => (Ok(Gathered { spread: g.spread.push(other), ..g }), s),
    }
}

/// The arguments with one that is written by name or by position.
pub open spec fn with_written(s: Ev, g: Gathered, name: Option<Seq<char>>, v: Val) -> Run<Gathered> {
    match name {
        Some(n) => match with_named(g.named, n, v) {
            Some(named) => (Ok(Gathered { named, seen_named: true, ..g }), s),
            None => fail(fault("Duplicate argument."@), s),
        },
        None => if g.seen_named {
            fail(fault("Positional arguments must come before keyword arguments."@), s)
        } else {
            (Ok(Gathered { explicit: g.explicit.push(v), ..g }), s)
        },
    }
}

pub open spec fn out_gather(r: Result<Gather, Stop>) -> Result<Gathered, Halt> {
    match r {
        Ok(g) => Ok(g@),
        Err(e) => Err(e@),
    }
}

pub open spec fn out_named(r: Result<Vec<(String, Value)>, Stop>) -> Result<Vars, Halt> {
    match r {
        Ok(g) => Ok(named_vals(g@)),
        Err(e) => Err(e@),
    }
}

pub fn empty_gather() -> (r: Gather)
    ensures
        r@ == nothing_gathered(),
{
    let g = Gather {
        explicit: Vec::new(),
        spread: Vec::new(),
        named: Vec::new(),
        seen_named: false,
        sep: ListSep::Comma,
    };
    proof {
        assert(g@.explicit =~= Seq::empty());
        assert(g@.spread =~= Seq::empty());
        assert(g@.named =~= Seq::empty());
    }
    g
}

pub fn finish_gather(g: Gather) -> (r: Args)
    ensures
        r@ == given(g@),
{
    let mut positional = g.explicit;
    push_values(&mut positional, g.spread);
    Args { positional, named: g.named, sep: g.sep }
}

impl Evaluator {
    #[verifier::loop_isolation(false)]
    fn spread_map(&mut self, ans: &Vec<Answer>, m: &Vec<(Value, Value)>, named: Vec<(String, Value)>) -> (r: Result<
        Vec<(String, Value)>,
        Stop,
    >)
        ensures
            (out_named(r), final(self)@) == spread_map(
                old(self)@,
                ans@,
                val_pairs(m@),
                0,
                named_vals(named@),
            ),
            same_place(old(self)@, final(self)@),
    {
        let ghost given = named_vals(named@);
        let ghost goal = spread_map(old(self)@, ans@, val_pairs(m@), 0, given);
        let mut named = named;
        let mut i: usize = 0;
        while i < m.len()
            invariant
                same_place(old(self)@, self@),
                i <= m@.len(),
                self@ == old(self)@,
                goal == spread_map(old(self)@, ans@, val_pairs(m@), 0, given),
                spread_map(self@, ans@, val_pairs(m@), i as int, named_vals(named@)) == goal,
            decreases m@.len() - i,
        {
            proof {
                assert(val_pairs(m@)[i as int] == (val(m@[i as int].0), val(m@[i as int].1)));
            }
            match &m[i].0 {
                Value::Str(t) => {
                    match push_named(&mut named, t.text.as_str(), copy_value(&m[i].1)) {
                        Ok(()) => {},
                        Err(e) => {
                            return Err(e);
                        },
                    }
                },
                k => {
                    return match self.plain_css(ans, k) {
                        Err(e) => Err(e),
                        Ok(t) => {
                            let mut msg = chars_of(t.as_str());
                            append_str(&mut msg, " is not a string in $args.");
                            Err(stop(string_of(msg.as_slice()).as_str()))
                        },
                    };
                },
            }
            i += 1;
        }
        Ok(named)
    }

    #[verifier::loop_isolation(false)]
    fn spread_keywords(&mut self, m: &Vec<(Value, Value)>, named: Vec<(String, Value)>) -> (r: Result<
        Vec<(String, Value)>,
        Stop,
    >)
        ensures
            (out_named(r), final(self)@) == spread_keywords(
                old(self)@,
                val_pairs(m@),
                0,
                named_vals(named@),
            ),
            same_place(old(self)@, final(self)@),
    {
        let ghost given = named_vals(named@);
        let ghost goal = spread_keywords(old(self)@, val_pairs(m@), 0, given);
        let mut named = named;
        let mut i: usize = 0;
        while i < m.len()
            invariant
                same_place(old(self)@, self@),
                i <= m@.len(),
                self@ == old(self)@,
                goal == spread_keywords(old(self)@, val_pairs(m@), 0, given),
                spread_keywords(self@, val_pairs(m@), i as int, named_vals(named@)) == goal,
            decreases m@.len() - i,
        {
            proof {
                assert(val_pairs(m@)[i as int] == (val(m@[i as int].0), val(m@[i as int].1)));
            }
            match &m[i].0 {
                Value::Str(t) => {
                    match push_named(&mut named, t.text.as_str(), copy_value(&m[i].1)) {
                        Ok(()) => {},
                        Err(e) => {
                            return Err(e);
                        },
                    }
                },
                _ => {},
            }
            i += 1;
        }
        Ok(named)
    }

    /// Add a spread value to the arguments.
    pub fn gather_spread(&mut self, ans: &Vec<Answer>, g: Gather, v: Value) -> (r: Result<Gather, Stop>)
        ensures
            (out_gather(r), final(self)@) == with_spread(old(self)@, ans@, g@, val(v)),
            same_place(old(self)@, final(self)@),
    {
        let mut g = g;
        match v {
            Value::Pairs(m) => match self.spread_map(ans, &m.entries, g.named) {
                Err(e) => Err(e),
                Ok(n) => {
                    g.named = n;
                    Ok(g)
                },
            },
            Value::List(l) => {
                if l.sep != ListSep::Undecided {
                    g.sep = l.sep;
                }
                push_values(&mut g.spread, l.items);
                match l.keywords {
                    None => Ok(g),
                    Some(kw) => match self.spread_keywords(&kw, g.named) {
                        Err(e) => Err(e),
                        Ok(n) => {
                            g.named = n;
                            Ok(g)
                        },
                    },
                }
            },
            Value::Null => Ok(g),
            other => {
                push_value(&mut g.spread, other);
                Ok(g)
            },
        }
    }

    /// Add an argument that is written by name or by position.
    pub fn gather_written(&mut self, g: Gather, name: &Option<String>, v: Value) -> (r: Result<Gather, Stop>)
        ensures
            (out_gather(r), final(self)@) == with_written(old(self)@, g@, text_of(*name), val(v)),
            same_place(old(self)@, final(self)@),
    {
        let mut g = g;
        match name {
            Some(n) => match push_named(&mut g.named, n.as_str(), v) {
                Err(e) => Err(e),
                Ok(()) => {
                    g.seen_named = true;
                    Ok(g)
                },
            },
            None => {
                if g.seen_named {
                    return Err(stop("Positional arguments must come before keyword arguments."));
                }
                push_value(&mut g.explicit, v);
                Ok(g)
            },
        }
    }
}

// ---- keywords ------------------------------------------------------------

/// Named arguments by canonical name, each with the name as it was written and its value.
pub type Keywords = Seq<(Seq<char>, (Seq<char>, Val))>;

/// The keywords that named arguments give: a name given twice keeps its first spelling and its
/// last value.
pub open spec fn keywords_of(named: Vars) -> Keywords
    decreases named.len(),
{
    if named.len() == 0 {
        Seq::empty()
    } else {
        let before = keywords_of(named.drop_last());
        let key = dashed(named.last().0);
        let k = entry(before, key);
        if k < before.len() {
            before.update(k, (key, ((before[k].1).0, named.last().1)))
        } else {
            before.push((key, (named.last().0, named.last().1)))
        }
    }
}

#[derive(Debug)]
pub struct Keyword {
    pub key: String,
    pub written: String,
    pub value: Value,
}

pub open spec fn keyword_list(v: Seq<Keyword>) -> Keywords {
    Seq::new(v.len(), |i: int| (v[i].key@, (v[i].written@, val(v[i].value))))
}

pub fn find_keyword(v: &Vec<Keyword>, key: &str) -> (r: usize)
    ensures
        r == entry(keyword_list(v@), key@),
        r <= v@.len(),
{
    let ghost s = keyword_list(v@);
    let mut i: usize = 0;
    while i < v.len() && !same_str(v[i].key.as_str(), key)
        invariant
            i <= v@.len(),
            s == keyword_list(v@),
            forall|k: int| 0 <= k < i ==> (#[trigger] s[k]).0 != key@,
        decreases v@.len() - i,
    {
        i += 1;
    }
    proof {
        lemma_entry_is(s, key@, i as int);
    }
    i
}

pub fn collect_keywords(named: &Vec<(String, Value)>) -> (r: Vec<Keyword>)
    ensures
        keyword_list(r@) == keywords_of(named_vals(named@)),
{
    let ghost all = named_vals(named@);
    let mut out: Vec<Keyword> = Vec::new();
    let mut i: usize = 0;
    proof {
        assert(keyword_list(out@) =~= Seq::empty());
    }
    while i < named.len()
        invariant
            i <= named@.len(),
            all == named_vals(named@),
            keyword_list(out@) == keywords_of(all.take(i as int)),
        decreases named@.len() - i,
    {
        let ghost before = keyword_list(out@);
        proof {
            assert(all.take(i + 1).drop_last() =~= all.take(i as int));
            assert(all.take(i + 1).last() == all[i as int]);
        }
        let key = normalize_arg_name(named[i].0.as_str());
        let k: usize = find_keyword(&out, key.as_str());
        let value = copy_value(&named[i].1);
        if k < out.len() {
            let written = out[k].written.clone();
            out[k] = Keyword { key, written, value };
        } else {
            out.push(Keyword { key, written: named[i].0.clone(), value });
        }
        i += 1;
        proof {
            assert(keyword_list(out@) =~= keywords_of(all.take(i as int)));
        }
    }
    proof {
        assert(all.take(i as int) =~= all);
    }
    out
}

/// Take the keyword `k` out.
pub fn take_keyword(v: &mut Vec<Keyword>, k: usize) -> (r: Value)
    requires
        k < old(v)@.len(),
    ensures
        val(r) == (keyword_list(old(v)@)[k as int].1).1,
        keyword_list(final(v)@) == keyword_list(old(v)@).remove(k as int),
{
    let w = v.remove(k);
    proof {
        assert(keyword_list(final(v)@) =~= keyword_list(old(v)@).remove(k as int));
    }
    w.value
}

/// Keywords as the map that an argument list carries.
pub open spec fn keyword_pairs(kw: Keywords) -> Seq<(Val, Val)> {
    Seq::new(kw.len(), |i: int| (Val::Str(kw[i].0, false), (kw[i].1).1))
}

pub fn pair_keywords(v: &Vec<Keyword>) -> (r: Vec<(Value, Value)>)
    ensures
        val_pairs(r@) == keyword_pairs(keyword_list(v@)),
{
    let ghost all = keyword_pairs(keyword_list(v@));
    let mut out: Vec<(Value, Value)> = Vec::new();
    let mut i: usize = 0;
    while i < v.len()
        invariant
            i <= v@.len(),
            all == keyword_pairs(keyword_list(v@)),
            val_pairs(out@) =~= all.take(i as int),
        decreases v@.len() - i,
    {
        let k = word(v[i].key.clone());
        let w = copy_value(&v[i].value);
        push_pair(&mut out, k, w);
        i += 1;
        proof {
            assert(all.take(i as int) =~= all.take(i - 1).push(all[i - 1]));
        }
    }
    proof {
        assert(all.take(i as int) =~= all);
    }
    out
}

/// Names with `$` before each.
pub open spec fn dollars(kw: Keywords) -> Seq<Seq<char>> {
    Seq::new(kw.len(), |i: int| seq!['$'] + (kw[i].1).0)
}

/// The message for keywords that no parameter takes.
pub open spec fn unknown_keywords(kw: Keywords) -> Seq<char> {
    let names = dollars(kw);
    if names.len() == 1 {
        "No parameter named "@ + names[0] + "."@
    } else {
        "No parameters named "@ + joined(names.drop_last(), ", "@) + " or "@ + names.last() + "."@
    }
}

pub fn unknown_keywords_message(v: &Vec<Keyword>) -> (r: String)
    requires
        v@.len() > 0,
    ensures
        r@ == unknown_keywords(keyword_list(v@)),
{
    let ghost all = dollars(keyword_list(v@));
    let n: usize = v.len();
    let mut names: Vec<String> = Vec::new();
    let mut i: usize = 0;
    while i < n
        invariant
            n == v@.len(),
            i <= n,
            all == dollars(keyword_list(v@)),
            texts(names@) =~= all.take(i as int),
        decreases n - i,
    {
        let ghost before = texts(names@);
        let mut t: Vec<char> = Vec::new();
        t.push('$');
        append_str(&mut t, v[i].written.as_str());
        proof {
            assert(t@ =~= all[i as int]);
        }
        names.push(string_of(t.as_slice()));
        i += 1;
        proof {
            assert(texts(names@) =~= before.push(all[i - 1]));
            assert(all.take(i as int) =~= all.take(i - 1).push(all[i - 1]));
        }
    }
    proof {
        assert(all.take(i as int) =~= all);
    }
    if n == 1 {
        let mut m = chars_of("No parameter named ");
        append_str(&mut m, names[0].as_str());
        append_str(&mut m, ".");
        return string_of(m.as_slice());
    }
    let mut m = chars_of("No parameters named ");
    let ghost ts = texts(names@);
    let last = match names.pop() {
        Some(l) => l,
        None => String::new(),
    };
    proof {
        assert(texts(names@) =~= ts.drop_last());
        assert(last@ == ts.last());
    }
    append(&mut m, join(&names, ", ").as_slice());
    append_str(&mut m, " or ");
    append_str(&mut m, last.as_str());
    append_str(&mut m, ".");
    string_of(m.as_slice())
}

/// The values after the first `n`.
pub open spec fn beyond(s: Seq<Val>, n: int) -> Seq<Val> {
    if n < s.len() {
        s.skip(n)
    } else {
        Seq::empty()
    }
}

pub fn values_beyond(v: &Vec<Value>, n: usize) -> (r: Vec<Value>)
    ensures
        vals(r@) == beyond(vals(v@), n as int),
{
    let ghost all = beyond(vals(v@), n as int);
    let mut out: Vec<Value> = Vec::new();
    let mut i: usize = n;
    proof {
        assert(vals(out@) =~= Seq::empty());
    }
    while i < v.len()
        invariant
            n <= i,
            n < v@.len() ==> i <= v@.len(),
            n >= v@.len() ==> i == n,
            all == beyond(vals(v@), n as int),
            n < v@.len() ==> vals(out@) =~= all.take(i - n),
            n >= v@.len() ==> vals(out@) =~= Seq::empty(),
        decreases v@.len() - i,
    {
        push_value(&mut out, copy_value(&v[i]));
        i += 1;
        proof {
            assert(all.take(i - n) =~= all.take(i - 1 - n).push(all[i - 1 - n]));
        }
    }
    proof {
        if n < v@.len() {
            assert(all.take(i - n) =~= all);
        }
    }
    out
}

/// The list that a rest parameter takes.
pub open spec fn rest_list(rest: Seq<Val>, sep: ListSep, kw: Keywords) -> Val {
    Val::List { items: rest, sep, bracketed: false, keywords: Some(keyword_pairs(kw)) }
}

pub fn make_rest_list(rest: Vec<Value>, sep: ListSep, kw: &Vec<Keyword>) -> (r: Value)
    ensures
        val(r) == rest_list(vals(rest@), sep, keyword_list(kw@)),
{
    let pairs = pair_keywords(kw);
    Value::List(List { items: rest, sep, bracketed: false, keywords: Some(pairs) })
}

/// What is wrong with arguments that are left over where there is no rest parameter.
pub open spec fn leftover_fault(count: int, params: int, kw: Keywords, name: Seq<char>) -> Option<Seq<char>> {
    if count > params {
        Some(name + " was passed too many arguments."@)
    } else if kw.len() > 0 {
        Some(unknown_keywords(kw))
    } else {
        None
    }
}

pub fn leftover_error(count: usize, params: usize, kw: &Vec<Keyword>, name: &str) -> (r: Option<Stop>)
    ensures
        match leftover_fault(count as int, params as int, keyword_list(kw@), name@) {
            Some(m) => r is Some && (r->0)@ == Halt::Error(fault(m)),
            None => r is None,
        },
{
    if count > params {
        let mut m = chars_of(name);
        append_str(&mut m, " was passed too many arguments.");
        return Some(stop(string_of(m.as_slice()).as_str()));
    }
    if kw.len() > 0 {
        let m = unknown_keywords_message(kw);
        return Some(stop(m.as_str()));
    }
    None
}

// ---- laws ----------------------------------------------------------------

/// Arguments that are all written by position come out as they went in.
pub proof fn positional_arguments_keep_their_order(s: Ev, g: Gathered, v: Val)
    requires
        !g.seen_named,
    ensures
        with_written(s, g, None, v).0 is Ok,
        with_written(s, g, None, v).0->Ok_0.explicit == g.explicit.push(v),
        with_written(s, g, None, v).0->Ok_0.named == g.named,
{
}

} // verus!
