//! The configuration of modules: `with` clauses, and what a `@forward` passes on of them.

use vstd::prelude::*;
use crate::args::{Args, Given};
use crate::ast::{ConfigEntry, ForwardMember};
use crate::calls::strip_prefix;
use crate::edges::{add_text, with_text};
use crate::env::{forward_var_visibility, listed, opt_members};
use crate::error::{Pos, fault, fault_at};
use crate::eval::{Ev, Evaluator, Run, fail, same_place, settings, stop, stop_at};
use crate::expr::push_string;
use crate::host::{Answer, Halt, Stop, named_vals};
use crate::meta::wrong_type;
use crate::names::{dashed, is_private_member, normalize_var_name, private_name};
use crate::sem::unprefixed;
use crate::semantics::eval;
use crate::state::{Vars, entry, get, get_text, lemma_entry_is, opt_val, pairs_of_text, put};
use crate::text::{cat3, holds_text, same_str, text_of, texts};
use crate::value::{Val, Value, copy_value, slashless, val, val_pairs};

verus! {

broadcast use crate::kept::group_kept;

/// What variables are configured with: a name, its value, and whether the value gives way to
/// another.
pub type Settings = Seq<(Seq<char>, (Val, bool))>;

pub fn find_setting(v: &Vec<(String, (Value, bool))>, key: &str) -> (r: usize)
    ensures
        r == entry(settings(v@), key@),
        r <= v@.len(),
{
    let ghost s = settings(v@);
    let mut i: usize = 0;
    while i < v.len() && !same_str(v[i].0.as_str(), key)
        invariant
            i <= v@.len(),
            s == settings(v@),
            forall|k: int| 0 <= k < i ==> (#[trigger] s[k]).0 != key@,
        decreases v@.len() - i,
    {
        i += 1;
    }
    proof {
        lemma_entry_is(s, key@, i as int);
    }
    i
}

pub fn put_setting(v: &mut Vec<(String, (Value, bool))>, key: &str, value: Value, guarded: bool)
    ensures
        settings(final(v)@) == put(settings(old(v)@), key@, (val(value), guarded)),
{
    let i: usize = find_setting(v, key);
    if i < v.len() {
        v[i] = (key.to_owned(), (value, guarded));
    } else {
        v.push((key.to_owned(), (value, guarded)));
    }
    proof {
        assert(settings(final(v)@) =~= put(settings(old(v)@), key@, (val(value), guarded)));
    }
}

pub fn copy_settings(v: &Vec<(String, (Value, bool))>) -> (r: Vec<(String, (Value, bool))>)
    ensures
        settings(r@) == settings(v@),
{
    let mut out: Vec<(String, (Value, bool))> = Vec::new();
    let mut i: usize = 0;
    while i < v.len()
        invariant
            i <= v@.len(),
            settings(out@) =~= settings(v@).take(i as int),
        decreases v@.len() - i,
    {
        let ghost before = settings(out@);
        let x = copy_value(&v[i].1.0);
        let ghost xv = val(x);
        out.push((v[i].0.clone(), (x, v[i].1.1)));
        proof {
            let e = v@[i as int];
            assert(settings(out@) =~= before.push((e.0@, (xv, (e.1).1))));
            assert(settings(v@)[i as int] == (e.0@, (val((e.1).0), (e.1).1)));
        }
        i += 1;
    }
    proof {
        assert(settings(v@).take(i as int) =~= settings(v@));
    }
    out
}

pub fn no_settings() -> (r: Vec<(String, (Value, bool))>)
    ensures
        settings(r@) == Seq::<(Seq<char>, (Val, bool))>::empty(),
{
    let r: Vec<(String, (Value, bool))> = Vec::new();
    proof {
        assert(settings(r@) =~= Seq::empty());
    }
    r
}

pub open spec fn out_settings(r: Result<Vec<(String, (Value, bool))>, Stop>) -> Result<Settings, Halt> {
    match r {
        Ok(v) => Ok(settings(v@)),
        Err(e) => Err(e@),
    }
}

// ---- with clauses --------------------------------------------------------

/// What a `with` clause configures, from entry `i` on, after `acc`.
pub open spec fn config_of(
    s: Ev,
    ans: Seq<Answer>,
    list: Seq<ConfigEntry>,
    i: int,
    acc: Settings,
    fuel: nat,
) -> Run<Settings>
    decreases list.len() - i,
{
    if i < 0 || i >= list.len() {
        (Ok(acc), s)
    } else {
        match eval(s, ans, list[i].value, fuel) {
            (Err(h), s1) => (Err(h), s1),
            (Ok(v), s1) => {
                let key = dashed(list[i].name@);
                if get(acc, key) is Some {
                    fail(fault("The variable $"@ + list[i].name@ + " was configured twice."@), s1)
                } else {
                    config_of(
                        s1,
                        ans,
                        list,
                        i + 1,
                        put(acc, key, (slashless(v), list[i].is_default)),
                        fuel,
                    )
                }
            },
        }
    }
}

/// What a map configures, from entry `i` on, after `acc`.
pub open spec fn map_config(
    s: Ev,
    ans: Seq<Answer>,
    m: Seq<(Val, Val)>,
    i: int,
    acc: Settings,
    pos: Pos,
) -> Run<Settings>
    decreases m.len() - i,
{
    if i < 0 || i >= m.len() {
        (Ok(acc), s)
    } else {
        match m[i].0 {
            Val::Str(t, q) => {
                let key = dashed(t);
                if get(acc, key) is Some {
                    fail(fault_at("The variable $"@ + key + " was configured twice."@, pos), s)
                } else {
                    map_config(s, ans, m, i + 1, put(acc, key, (slashless(m[i].1), false)), pos)
                }
            },
            k => wrong_type(s, ans, "$with key: "@, k, " is not a string."@, pos),
        }
    }
}

/// What the `$with` argument of `load-css` configures. The empty list is an empty map.
pub open spec fn with_argument(s: Ev, ans: Seq<Answer>, v: Option<Val>, pos: Pos) -> Run<Settings> {
    match v {
        None => (Ok(Seq::empty()), s),
        Some(v) => match v {
            Val::List { items, sep, bracketed, keywords } => if items.len() == 0 {
                (Ok(Seq::empty()), s)
            } else {
                wrong_type(s, ans, "$with: "@, v, " is not a map."@, pos)
            },
            Val::Pairs(m) => map_config(s, ans, m, 0, Seq::empty(), pos),
            other => wrong_type(s, ans, "$with: "@, other, " is not a map."@, pos),
        },
    }
}

/// The arguments of `load-css` by name, from `i` on, over those by position.
pub open spec fn load_css_named(s: Ev, n: Vars, i: int, url: Option<Val>, with: Option<Val>, pos: Pos) -> Run<
    (Option<Val>, Option<Val>),
>
    decreases n.len() - i,
{
    if i < 0 || i >= n.len() {
        (Ok((url, with)), s)
    } else if n[i].0 == "url"@ {
        load_css_named(s, n, i + 1, Some(n[i].1), with, pos)
    } else if n[i].0 == "with"@ {
        load_css_named(s, n, i + 1, url, Some(n[i].1), pos)
    } else {
        fail(fault_at("No argument named $"@ + n[i].0 + "."@, pos), s)
    }
}

/// The URL and the configuration that `load-css` is given.
pub open spec fn load_css_arguments(s: Ev, ans: Seq<Answer>, a: Given, pos: Pos) -> Run<
    (Seq<char>, Settings),
> {
    let p = a.positional;
    if p.len() > 2 {
        fail(fault_at("Only 2 arguments allowed, but 3 were passed."@, pos), s)
    } else {
        let first = if p.len() > 0 {
            Some(p[0])
        } else {
            None
        };
        let second = if p.len() > 1 {
            Some(p[1])
        } else {
            None
        };
        match load_css_named(s, a.named, 0, first, second, pos) {
            (Err(h), s1) => (Err(h), s1),
            (Ok((url, with)), s1) => match url {
                None => fail(fault_at("Missing argument $url."@, pos), s1),
                Some(u) => match u {
                    Val::Str(t, q) => match with_argument(s1, ans, with, pos) {
                        (Err(h), s2) => (Err(h), s2),
                        (Ok(c), s2) => (Ok((t, c)), s2),
                    },
                    other => wrong_type(s1, ans, "$url: "@, other, " is not a string."@, pos),
                },
            },
        }
    }
}

/// Whether a name configured was not used.
pub open spec fn any_unused(c: Settings, used: Seq<Seq<char>>) -> bool {
    exists|k: int| 0 <= k < c.len() && !used.contains((#[trigger] c[k]).0)
}

pub open spec fn unused_message() -> Seq<char> {
    "This variable was not declared with !default in the @used module."@
}

pub fn is_any_unused(c: &Vec<(String, (Value, bool))>, used: &Vec<String>) -> (r: bool)
    ensures
        r == any_unused(settings(c@), texts(used@)),
{
    let ghost all = settings(c@);
    let mut i: usize = 0;
    while i < c.len()
        invariant
            i <= c@.len(),
            all == settings(c@),
            forall|k: int| 0 <= k < i ==> texts(used@).contains((#[trigger] all[k]).0),
        decreases c@.len() - i,
    {
        if !holds_text(used, c[i].0.as_str()) {
            proof {
                assert(!texts(used@).contains(all[i as int].0));
            }
            return true;
        }
        i += 1;
    }
    false
}

impl Evaluator {
    /// What a `with` clause configures.
    pub fn eval_config(&mut self, ans: &Vec<Answer>, list: &Vec<ConfigEntry>, fuel: usize) -> (r: Result<
        Vec<(String, (Value, bool))>,
        Stop,
    >)
        ensures
            (out_settings(r), final(self)@) == config_of(
                old(self)@,
                ans@,
                list@,
                0,
                Seq::empty(),
                fuel as nat,
            ),
            same_place(old(self)@, final(self)@),
    {
        let ghost goal = config_of(old(self)@, ans@, list@, 0, Seq::empty(), fuel as nat);
        let mut acc = no_settings();
        let mut i: usize = 0;
        while i < list.len()
            invariant
                same_place(old(self)@, self@),
                i <= list@.len(),
                goal == config_of(old(self)@, ans@, list@, 0, Seq::empty(), fuel as nat),
                config_of(self@, ans@, list@, i as int, settings(acc@), fuel as nat) == goal,
            decreases list@.len() - i,
        {
            let v = match self.eval_expr(ans, &list[i].value, fuel) {
                Ok(v) => v,
                Err(x) => {
                    return Err(x);
                },
            };
            let key = normalize_var_name(list[i].name.as_str());
            if find_setting(&acc, key.as_str()) < acc.len() {
                return Err(
                    stop(
                        cat3(
                            "The variable $",
                            list[i].name.as_str(),
                            " was configured twice.",
                        ).as_str(),
                    ),
                );
            }
            put_setting(&mut acc, key.as_str(), v.without_slash(), list[i].is_default);
            i += 1;
        }
        Ok(acc)
    }

    fn map_config(&mut self, ans: &Vec<Answer>, m: &Vec<(Value, Value)>, pos: Pos) -> (r: Result<
        Vec<(String, (Value, bool))>,
        Stop,
    >)
        ensures
            (out_settings(r), final(self)@) == map_config(
                old(self)@,
                ans@,
                val_pairs(m@),
                0,
                Seq::empty(),
                pos,
            ),
            same_place(old(self)@, final(self)@),
    {
        let ghost all = val_pairs(m@);
        let ghost goal = map_config(old(self)@, ans@, all, 0, Seq::empty(), pos);
        let mut acc = no_settings();
        let mut i: usize = 0;
        while i < m.len()
            invariant
                same_place(old(self)@, self@),
                i <= m@.len(),
                all == val_pairs(m@),
                goal == map_config(old(self)@, ans@, all, 0, Seq::empty(), pos),
                map_config(self@, ans@, all, i as int, settings(acc@), pos) == goal,
            decreases m@.len() - i,
        {
            proof {
                let e = m@[i as int];
                assert(all[i as int] == (val(e.0), val(e.1)));
            }
            match &m[i].0 {
                Value::Str(t) => {
                    let key = normalize_var_name(t.text.as_str());
                    if find_setting(&acc, key.as_str()) < acc.len() {
                        return Err(
                            stop_at(
                                cat3("The variable $", key.as_str(), " was configured twice.").as_str(),
                                pos,
                            ),
                        );
                    }
                    put_setting(&mut acc, key.as_str(), copy_value(&m[i].1).without_slash(), false);
                },
                k => {
                    return Err(self.wrong_type(ans, "$with key: ", k, " is not a string.", pos));
                },
            }
            i += 1;
        }
        Ok(acc)
    }

    fn with_argument(&mut self, ans: &Vec<Answer>, v: Option<Value>, pos: Pos) -> (r: Result<
        Vec<(String, (Value, bool))>,
        Stop,
    >)
        ensures
            (out_settings(r), final(self)@) == with_argument(old(self)@, ans@, opt_val(v), pos),
            same_place(old(self)@, final(self)@),
    {
        let v = match v {
            None => {
                return Ok(no_settings());
            },
            Some(v) => v,
        };
        if let Value::List(l) = &v {
            if l.items.len() == 0 {
                return Ok(no_settings());
            }
        }
        match &v {
            Value::Pairs(m) => self.map_config(ans, &m.entries, pos),
            other => Err(self.wrong_type(ans, "$with: ", other, " is not a map.", pos)),
        }
    }

    #[verifier::loop_isolation(false)]
    fn load_css_named(
        &mut self,
        n: &Vec<(String, Value)>,
        first: Option<Value>,
        second: Option<Value>,
        pos: Pos,
    ) -> (r: Result<(Option<Value>, Option<Value>), Stop>)
        ensures
            (match r {
                Ok(t) => Ok((opt_val(t.0), opt_val(t.1))),
                Err(e) => Err(e@),
            }, final(self)@) == load_css_named(
                old(self)@,
                named_vals(n@),
                0,
                opt_val(first),
                opt_val(second),
                pos,
            ),
            same_place(old(self)@, final(self)@),
    {
        let ghost all = named_vals(n@);
        let ghost goal = load_css_named(self@, all, 0, opt_val(first), opt_val(second), pos);
        let mut url = first;
        let mut with = second;
        let mut i: usize = 0;
        while i < n.len()
            invariant
                same_place(old(self)@, self@),
                i <= n@.len(),
                self@ == old(self)@,
                load_css_named(self@, all, i as int, opt_val(url), opt_val(with), pos) == goal,
            decreases n@.len() - i,
        {
            if same_str(n[i].0.as_str(), "url") {
                url = Some(copy_value(&n[i].1));
            } else if same_str(n[i].0.as_str(), "with") {
                with = Some(copy_value(&n[i].1));
            } else {
                return Err(
                    stop_at(cat3("No argument named $", n[i].0.as_str(), ".").as_str(), pos),
                );
            }
            i += 1;
        }
        Ok((url, with))
    }

    /// The URL and the configuration that `load-css` is given.
    pub fn load_css_arguments(&mut self, ans: &Vec<Answer>, a: Args, pos: Pos) -> (r: Result<
        (String, Vec<(String, (Value, bool))>),
        Stop,
    >)
        ensures
            (match r {
                Ok(t) => Ok((t.0@, settings(t.1@))),
                Err(e) => Err(e@),
            }, final(self)@) == load_css_arguments(old(self)@, ans@, a@, pos),
            same_place(old(self)@, final(self)@),
    {
        if a.positional.len() > 2 {
            return Err(stop_at("Only 2 arguments allowed, but 3 were passed.", pos));
        }
        let first = if a.positional.len() > 0 {
            Some(copy_value(&a.positional[0]))
        } else {
            None
        };
        let second = if a.positional.len() > 1 {
            Some(copy_value(&a.positional[1]))
        } else {
            None
        };
        let (url, with) = match self.load_css_named(&a.named, first, second, pos) {
            Ok(t) => t,
            Err(x) => {
                return Err(x);
            },
        };
        match url {
            None => Err(stop_at("Missing argument $url.", pos)),
            Some(Value::Str(t)) => match self.with_argument(ans, with, pos) {
                Err(x) => Err(x),
                Ok(c) => Ok((t.text, c)),
            },
            Some(other) => Err(self.wrong_type(ans, "$url: ", &other, " is not a string.", pos)),
        }
    }
}

// ---- what a forward passes on --------------------------------------------

/// What a `@forward` hands to the module it loads, and what it keeps to itself.
pub ghost struct Plan {
    /// The configuration of the loaded module.
    pub combined: Settings,
    /// The names passed on, each with the name it has downstream.
    pub passed: Settings,
    pub names: Seq<(Seq<char>, Seq<char>)>,
    /// The names whose own value gives way to one from downstream.
    pub claimed: Seq<Seq<char>>,
    /// The names with a value of their own.
    pub own: Seq<Seq<char>>,
    /// The names whose own value replaces one from downstream.
    pub shadowed: Seq<Seq<char>>,
}

pub open spec fn empty_plan() -> Plan {
    Plan {
        combined: Seq::empty(),
        passed: Seq::empty(),
        names: Seq::empty(),
        claimed: Seq::empty(),
        own: Seq::empty(),
        shadowed: Seq::empty(),
    }
}

/// Whether a variable can be configured through a `@forward`.
pub open spec fn passes(show: Option<Vec<ForwardMember>>, hide: Option<Vec<ForwardMember>>, name: Seq<char>) -> bool {
    !private_name(name) && listed(opt_members(show, true), opt_members(hide, true), dashed(name))
}

/// The plan with the entries from `i` on of the configuration from downstream.
pub open spec fn passed_on(
    down: Settings,
    i: int,
    prefix: Option<Seq<char>>,
    show: Option<Vec<ForwardMember>>,
    hide: Option<Vec<ForwardMember>>,
    p: Plan,
) -> Plan
    decreases down.len() - i,
{
    if i < 0 || i >= down.len() {
        p
    } else {
        match unprefixed(down[i].0, prefix) {
            None => passed_on(down, i + 1, prefix, show, hide, p),
            Some(up) => if !passes(show, hide, up) {
                passed_on(down, i + 1, prefix, show, hide, p)
            } else {
                passed_on(
                    down,
                    i + 1,
                    prefix,
                    show,
                    hide,
                    Plan {
                        combined: put(p.combined, up, down[i].1),
                        passed: put(p.passed, up, down[i].1),
                        names: put(p.names, up, down[i].0),
                        ..p
                    },
                )
            },
        }
    }
}

/// The plan with the entries from `i` on of the forward's own `with` clause.
pub open spec fn own_added(own: Settings, i: int, p: Plan) -> Plan
    decreases own.len() - i,
{
    if i < 0 || i >= own.len() {
        p
    } else {
        let (name, (v, guarded)) = own[i];
        let there = get(p.passed, name);
        if guarded && there is Some && (there->0).0 != Val::Null {
            own_added(own, i + 1, Plan { claimed: p.claimed.push(name), ..p })
        } else {
            own_added(
                own,
                i + 1,
                Plan {
                    combined: put(p.combined, name, (v, false)),
                    own: p.own.push(name),
                    shadowed: if !guarded && there is Some {
                        p.shadowed.push(name)
                    } else {
                        p.shadowed
                    },
                    ..p
                },
            )
        }
    }
}

pub open spec fn forward_plan(
    down: Settings,
    own: Settings,
    prefix: Option<Seq<char>>,
    show: Option<Vec<ForwardMember>>,
    hide: Option<Vec<ForwardMember>>,
) -> Plan {
    own_added(own, 0, passed_on(down, 0, prefix, show, hide, empty_plan()))
}

#[derive(Debug)]
pub struct ForwardPlan {
    pub combined: Vec<(String, (Value, bool))>,
    pub passed: Vec<(String, (Value, bool))>,
    pub names: Vec<(String, String)>,
    pub claimed: Vec<String>,
    pub own: Vec<String>,
    pub shadowed: Vec<String>,
}

impl View for ForwardPlan {
    type V = Plan;

    open spec fn view(&self) -> Plan {
        Plan {
            combined: settings(self.combined@),
            passed: settings(self.passed@),
            names: pairs_of_text(self.names@),
            claimed: texts(self.claimed@),
            own: texts(self.own@),
            shadowed: texts(self.shadowed@),
        }
    }
}

pub fn put_text(v: &mut Vec<(String, String)>, key: &str, value: &str)
    ensures
        pairs_of_text(final(v)@) == put(pairs_of_text(old(v)@), key@, value@),
{
    let ghost s = pairs_of_text(v@);
    let mut i: usize = 0;
    while i < v.len() && !same_str(v[i].0.as_str(), key)
        invariant
            i <= v@.len(),
            s == pairs_of_text(v@),
            forall|k: int| 0 <= k < i ==> (#[trigger] s[k]).0 != key@,
        decreases v@.len() - i,
    {
        i += 1;
    }
    proof {
        lemma_entry_is(s, key@, i as int);
    }
    if i < v.len() {
        v[i] = (key.to_owned(), value.to_owned());
    } else {
        v.push((key.to_owned(), value.to_owned()));
    }
    proof {
        assert(pairs_of_text(final(v)@) =~= put(s, key@, value@));
    }
}

fn pass_on(
    down: &Vec<(String, (Value, bool))>,
    prefix: &Option<String>,
    show: &Option<Vec<ForwardMember>>,
    hide: &Option<Vec<ForwardMember>>,
) -> (r: ForwardPlan)
    ensures
        r@ == passed_on(settings(down@), 0, text_of(*prefix), *show, *hide, empty_plan()),
{
    let ghost all = settings(down@);
    let ghost pre = text_of(*prefix);
    let ghost goal = passed_on(all, 0, pre, *show, *hide, empty_plan());
    let mut p = ForwardPlan {
        combined: Vec::new(),
        passed: Vec::new(),
        names: Vec::new(),
        claimed: Vec::new(),
        own: Vec::new(),
        shadowed: Vec::new(),
    };
    let mut i: usize = 0;
    proof {
        assert(p@.combined =~= Seq::empty());
        assert(p@.passed =~= Seq::empty());
        assert(p@.names =~= Seq::empty());
        assert(p@.claimed =~= Seq::empty());
        assert(p@.own =~= Seq::empty());
        assert(p@.shadowed =~= Seq::empty());
    }
    while i < down.len()
        invariant
            i <= down@.len(),
            all == settings(down@),
            pre == text_of(*prefix),
            passed_on(all, i as int, pre, *show, *hide, p@) == goal,
        decreases down@.len() - i,
    {
        proof {
            let e = down@[i as int];
            assert(all[i as int] == (e.0@, (val((e.1).0), (e.1).1)));
        }
        let up = strip_prefix(down[i].0.as_str(), prefix);
        if let Some(up) = up {
            if !is_private_member(up.as_str()) && forward_var_visibility(show, hide, up.as_str()) {
                put_setting(&mut p.combined, up.as_str(), copy_value(&down[i].1.0), down[i].1.1);
                put_setting(&mut p.passed, up.as_str(), copy_value(&down[i].1.0), down[i].1.1);
                put_text(&mut p.names, up.as_str(), down[i].0.as_str());
            }
        }
        i += 1;
    }
    p
}

/// What a `@forward` hands to the module it loads.
#[verifier::loop_isolation(false)]
pub fn plan_forward(
    down: &Vec<(String, (Value, bool))>,
    own: &Vec<(String, (Value, bool))>,
    prefix: &Option<String>,
    show: &Option<Vec<ForwardMember>>,
    hide: &Option<Vec<ForwardMember>>,
) -> (r: ForwardPlan)
    ensures
        r@ == forward_plan(settings(down@), settings(own@), text_of(*prefix), *show, *hide),
{
    let ghost all = settings(own@);
    let mut p = pass_on(down, prefix, show, hide);
    let ghost goal = own_added(all, 0, p@);
    let mut i: usize = 0;
    while i < own.len()
        invariant
            i <= own@.len(),
            own_added(all, i as int, p@) == goal,
        decreases own@.len() - i,
    {
        proof {
            let e = own@[i as int];
            assert(all[i as int] == (e.0@, (val((e.1).0), (e.1).1)));
        }
        let name = own[i].0.as_str();
        let guarded = own[i].1.1;
        let k: usize = find_setting(&p.passed, name);
        let there = k < p.passed.len();
        let set = there && !matches!(&p.passed[k].1.0, Value::Null);
        if guarded && set {
            push_string(&mut p.claimed, own[i].0.clone());
        } else {
            put_setting(&mut p.combined, name, copy_value(&own[i].1.0), false);
            push_string(&mut p.own, own[i].0.clone());
            if !guarded && there {
                push_string(&mut p.shadowed, own[i].0.clone());
            }
        }
        i += 1;
    }
    p
}

/// Whether a text of the first list is missing in the second.
pub open spec fn any_missing(a: Seq<Seq<char>>, b: Seq<Seq<char>>) -> bool {
    exists|k: int| 0 <= k < a.len() && !b.contains(#[trigger] a[k])
}

pub fn is_any_missing(a: &Vec<String>, b: &Vec<String>) -> (r: bool)
    ensures
        r == any_missing(texts(a@), texts(b@)),
{
    let ghost all = texts(a@);
    let mut i: usize = 0;
    while i < a.len()
        invariant
            i <= a@.len(),
            all == texts(a@),
            forall|k: int| 0 <= k < i ==> texts(b@).contains(#[trigger] all[k]),
        decreases a@.len() - i,
    {
        if !holds_text(b, a[i].as_str()) {
            proof {
                assert(!texts(b@).contains(all[i as int]));
            }
            return true;
        }
        i += 1;
    }
    false
}

/// The names used downstream, with those that the names from `i` on stand for.
pub open spec fn used_downstream(p: Plan, ups: Seq<Seq<char>>, i: int, used: Seq<Seq<char>>) -> Seq<Seq<char>>
    decreases ups.len() - i,
{
    if i < 0 || i >= ups.len() {
        used
    } else {
        used_downstream(
            p,
            ups,
            i + 1,
            match get(p.names, ups[i]) {
                Some(d) => if p.shadowed.contains(ups[i]) {
                    used
                } else {
                    with_text(used, d)
                },
                None => used,
            },
        )
    }
}

pub fn mark_used(p: &ForwardPlan, ups: &Vec<String>, used: &mut Vec<String>)
    ensures
        texts(final(used)@) == used_downstream(p@, texts(ups@), 0, texts(old(used)@)),
{
    let ghost all = texts(ups@);
    let ghost goal = used_downstream(p@, all, 0, texts(old(used)@));
    let mut i: usize = 0;
    while i < ups.len()
        invariant
            i <= ups@.len(),
            all == texts(ups@),
            used_downstream(p@, all, i as int, texts(used@)) == goal,
        decreases ups@.len() - i,
    {
        if let Some(d) = get_text(&p.names, ups[i].as_str()) {
            if !holds_text(&p.shadowed, ups[i].as_str()) {
                add_text(used, d.as_str());
            }
        }
        i += 1;
    }
}

// ---- laws ----------------------------------------------------------------

/// A `@forward` without a `with` clause of its own passes on what it was given and adds nothing.
pub proof fn bare_forward_only_passes_on(
    down: Settings,
    prefix: Option<Seq<char>>,
    show: Option<Vec<ForwardMember>>,
    hide: Option<Vec<ForwardMember>>,
)
    ensures
        ({
            let p = forward_plan(down, Seq::empty(), prefix, show, hide);
            &&& p.combined == p.passed
            &&& p.own.len() == 0
            &&& p.claimed.len() == 0
            &&& p.shadowed.len() == 0
        }),
{
    lemma_passed_on(down, 0, prefix, show, hide, empty_plan());
}

proof fn lemma_passed_on(
    down: Settings,
    i: int,
    prefix: Option<Seq<char>>,
    show: Option<Vec<ForwardMember>>,
    hide: Option<Vec<ForwardMember>>,
    p: Plan,
)
    requires
        p.combined == p.passed,
    ensures
        ({
            let q = passed_on(down, i, prefix, show, hide, p);
            &&& q.combined == q.passed
            &&& q.own == p.own
            &&& q.claimed == p.claimed
            &&& q.shadowed == p.shadowed
        }),
    decreases down.len() - i,
{
    if 0 <= i < down.len() {
        match unprefixed(down[i].0, prefix) {
            None => lemma_passed_on(down, i + 1, prefix, show, hide, p),
            Some(up) => if !passes(show, hide, up) {
                lemma_passed_on(down, i + 1, prefix, show, hide, p);
            } else {
                lemma_passed_on(
                    down,
                    i + 1,
                    prefix,
                    show,
                    hide,
                    Plan {
                        combined: put(p.combined, up, down[i].1),
                        passed: put(p.passed, up, down[i].1),
                        names: put(p.names, up, down[i].0),
                        ..p
                    },
                );
            },
        }
    }
}

} // verus!
