//! The "when X then Y" rule model: events, triggers, rules, the input-action vocabulary a rule
//! set declares, and the validation of rule files.
//!
//! Rule JSON looks like:
//! `{"id": "collect-coin", "on": {"event": "collision", "between": ["Player", "Coin"]},
//!   "if": [["other.Coin.value", ">", 0]], "do": [{"despawn": "other"}]}`.
//! Conditions are only comparisons joined by AND; the rule language is deliberately not
//! Turing-complete.
use vstd::prelude::*;
use crate::json::{clone_entries, entries_get, entries_lookup, entries_view, Json, JsonV};
use crate::text::str_eq;

verus! {

/// Runtime event: a name plus a JSON object of data.
#[derive(Debug, PartialEq, Eq)]
pub struct Event {
    pub name: String,
    pub data: Vec<(String, Json)>,
}

/// The content of an event.
pub struct EventV {
    pub name: Seq<char>,
    pub data: Seq<(Seq<char>, JsonV)>,
}

impl View for Event {
    type V = EventV;

    open spec fn view(&self) -> EventV {
        EventV { name: self.name@, data: entries_view(self.data@) }
    }
}

/// The object entries of `data`, or none when `data` is not an object.
pub open spec fn object_entries(data: JsonV) -> Seq<(Seq<char>, JsonV)> {
    match data {
        JsonV::Object(m) => m,
        _ => Seq::empty(),
    }
}

impl Event {
    /// An event named `name`; data that is not a JSON object becomes the empty object.
    pub fn new(name: &str, data: Json) -> (e: Event)
        ensures
            e@.name == name@,
            e@.data == object_entries(data@),
    {
        let entries = match data {
            Json::Object(m) => m,
            _ => Vec::new(),
        };
        Event { name: String::from_str(name), data: entries }
    }

    /// A copy of the event with the same content.
    pub fn copy(&self) -> (e: Event)
        ensures
            e@ == self@,
    {
        Event { name: self.name.clone(), data: clone_entries(&self.data) }
    }
}

/// What fires a rule.
#[derive(Debug, PartialEq, Eq)]
pub enum Trigger {
    /// Once per tick (once per entity with `each`).
    Tick,
    /// An event: `filter` is an equality filter on the event data; `between` binds the two
    /// parties of a collision by component (`self` has the first, `other` the second).
    Event { name: String, filter: Vec<(String, Json)>, between: Option<(String, String)> },
}

/// The content of a trigger.
pub enum TriggerV {
    Tick,
    Event { name: Seq<char>, filter: Seq<(Seq<char>, JsonV)>, between: Option<(Seq<char>, Seq<char>)> },
}

impl View for Trigger {
    type V = TriggerV;

    open spec fn view(&self) -> TriggerV {
        match self {
            Trigger::Tick => TriggerV::Tick,
            Trigger::Event { name, filter, between } => TriggerV::Event {
                name: name@,
                filter: entries_view(filter@),
                between: match between {
                    Some(p) => Some((p.0@, p.1@)),
                    None => None,
                },
            },
        }
    }
}

/// A single validated rule.
#[derive(Debug, PartialEq, Eq)]
pub struct Rule {
    pub id: String,
    pub trigger: Trigger,
    /// With a tick trigger: run once for every entity having these components.
    pub each: Option<Vec<String>>,
    /// Condition triples `[left, operator, right]`; all must hold.
    pub conditions: Vec<(String, String, Json)>,
    /// Actions, executed in order.
    pub actions: Vec<Json>,
}

/// The content of a rule.
pub struct RuleV {
    pub id: Seq<char>,
    pub trigger: TriggerV,
    pub each: Option<Seq<Seq<char>>>,
    pub conditions: Seq<(Seq<char>, Seq<char>, JsonV)>,
    pub actions: Seq<JsonV>,
}

/// The texts of a sequence of strings.
pub open spec fn strings_view(s: Seq<String>) -> Seq<Seq<char>> {
    s.map_values(|t: String| t@)
}

/// The contents of condition triples.
pub open spec fn conditions_view(s: Seq<(String, String, Json)>) -> Seq<(Seq<char>, Seq<char>, JsonV)> {
    s.map_values(|c: (String, String, Json)| (c.0@, c.1@, c.2@))
}

/// The contents of a sequence of values.
pub open spec fn values_view(s: Seq<Json>) -> Seq<JsonV> {
    s.map_values(|v: Json| v@)
}

impl View for Rule {
    type V = RuleV;

    open spec fn view(&self) -> RuleV {
        RuleV {
            id: self.id@,
            trigger: self.trigger@,
            each: match self.each {
                Some(c) => Some(strings_view(c@)),
                None => None,
            },
            conditions: conditions_view(self.conditions@),
            actions: values_view(self.actions@),
        }
    }
}

/// All rules of a project, after parsing and validation.
#[derive(Debug, PartialEq, Eq)]
pub struct RuleSet {
    pub rules: Vec<Rule>,
}

/// The contents of a sequence of rules.
pub open spec fn rules_view(s: Seq<Rule>) -> Seq<RuleV> {
    s.map_values(|r: Rule| r@)
}

/// An injectable input action named by the rules, with the phases it appears with.
#[derive(Debug, PartialEq, Eq)]
pub struct InputAction {
    /// The action name (the `action` of an input trigger's filter).
    pub action: String,
    /// Phases it appears with ("pressed" / "released"), deduplicated, first occurrence first.
    pub phases: Vec<String>,
}

/// `s` without repetitions, each element at its first occurrence.
pub open spec fn dedup(s: Seq<Seq<char>>) -> Seq<Seq<char>>
    decreases s.len(),
{
    if s.len() == 0 {
        Seq::empty()
    } else {
        let d = dedup(s.drop_last());
        if d.contains(s.last()) {
            d
        } else {
            d.push(s.last())
        }
    }
}

/// What an input trigger of `r` declares: `(action, phase)` when `r` fires on the `input`
/// event and its filter names a text `action`; the phase is the filter's text `phase`, if any.
pub open spec fn input_decl(r: RuleV) -> Option<(Seq<char>, Option<Seq<char>>)> {
    match r.trigger {
        TriggerV::Event { name, filter, between } =>
            if name == "input"@ {
                match entries_get(filter, "action"@) {
                    Some(JsonV::Str(a)) => Some((a, match entries_get(filter, "phase"@) {
                        Some(JsonV::Str(p)) => Some(p),
                        _ => None,
                    })),
                    _ => None,
                }
            } else {
                None
            },
        TriggerV::Tick => None,
    }
}

/// The actions declared by input triggers, in rule order (with repetitions).
pub open spec fn declared_actions(rules: Seq<RuleV>) -> Seq<Seq<char>>
    decreases rules.len(),
{
    if rules.len() == 0 {
        Seq::empty()
    } else {
        let rest = declared_actions(rules.drop_last());
        match input_decl(rules.last()) {
            Some(d) => rest.push(d.0),
            None => rest,
        }
    }
}

/// The phases declared together with `action`, in rule order (with repetitions).
pub open spec fn declared_phases(rules: Seq<RuleV>, action: Seq<char>) -> Seq<Seq<char>>
    decreases rules.len(),
{
    if rules.len() == 0 {
        Seq::empty()
    } else {
        let rest = declared_phases(rules.drop_last(), action);
        match input_decl(rules.last()) {
            Some(d) => if d.0 == action && d.1 is Some { rest.push(d.1->0) } else { rest },
            None => rest,
        }
    }
}

/// Whether `out` is the input vocabulary of `rules`: the distinct declared actions in order of
/// first appearance, each with its distinct declared phases in order of first appearance.
pub open spec fn is_vocabulary(out: Seq<InputAction>, rules: Seq<RuleV>) -> bool {
    let acts = dedup(declared_actions(rules));
    &&& out.len() == acts.len()
    &&& forall|i: int| 0 <= i < out.len() ==> (#[trigger] out[i]).action@ == acts[i]
            && strings_view(out[i].phases@) == dedup(declared_phases(rules, acts[i]))
}

proof fn lemma_dedup_push(s: Seq<Seq<char>>, x: Seq<char>)
    ensures
        dedup(s.push(x)) == if dedup(s).contains(x) { dedup(s) } else { dedup(s).push(x) },
{
    assert(s.push(x).drop_last() =~= s);
}

proof fn lemma_dedup_contains(s: Seq<Seq<char>>, x: Seq<char>)
    ensures
        dedup(s).contains(x) <==> s.contains(x),
        dedup(s).no_duplicates(),
    decreases s.len(),
{
    if s.len() > 0 {
        lemma_dedup_contains(s.drop_last(), x);
        lemma_dedup_contains(s.drop_last(), s.last());
        let d = dedup(s.drop_last());
        if !d.contains(s.last()) {
            assert forall|p: int, q: int| 0 <= p < d.push(s.last()).len() && 0 <= q < d.push(s.last()).len() && p != q
                implies d.push(s.last())[p] != d.push(s.last())[q] by {
                if p == d.len() {
                    assert(d.contains(d[q]));
                } else if q == d.len() {
                    assert(d.contains(d[p]));
                }
            }
        }
        if s.drop_last().contains(x) {
            let k = choose|k: int| 0 <= k < s.drop_last().len() && s.drop_last()[k] == x;
            assert(s[k] == x);
            assert(s.contains(x));
        }
        if d.contains(x) {
            let k = choose|k: int| 0 <= k < d.len() && d[k] == x;
            assert(dedup(s)[k] == x);
        }
        if !d.contains(s.last()) {
            assert(dedup(s)[d.len() as int] == s.last());
        }
        if dedup(s).contains(x) {
            if !d.contains(x) {
                let k = choose|k: int| 0 <= k < dedup(s).len() && dedup(s)[k] == x;
                assert(k == d.len());
                assert(s[s.len() - 1] == x);
            }
            assert(s.contains(x));
        }
        if s.contains(x) && !s.drop_last().contains(x) {
            let k = choose|k: int| 0 <= k < s.len() && s[k] == x;
            if k < s.len() - 1 {
                assert(s.drop_last()[k] == x);
            }
            assert(s.last() == x);
        }
        if d.push(s.last()).contains(x) && !d.contains(x) {
            assert(x == s.last());
            assert(s[s.len() - 1] == x);
        }
    }
}

/// Whether a text is among the given strings.
pub fn strings_contain(v: &Vec<String>, x: &str) -> (r: bool)
    ensures
        r == strings_view(v@).contains(x@),
{
    let mut i: usize = 0;
    while i < v.len()
        invariant
            i <= v@.len(),
            forall|k: int| 0 <= k < i ==> v@[k]@ != x@,
        decreases v@.len() - i,
    {
        if str_eq(v[i].as_str(), x) {
            assert(strings_view(v@)[i as int] == x@);
            return true;
        }
        i += 1;
    }
    proof {
        if strings_view(v@).contains(x@) {
            let k = choose|k: int| 0 <= k < strings_view(v@).len() && strings_view(v@)[k] == x@;
            assert(v@[k]@ == x@);
        }
    }
    false
}

/// What `rule`'s trigger declares for the input vocabulary (see [`input_decl`]).
fn rule_input_decl(rule: &Rule) -> (r: Option<(&str, Option<&str>)>)
    ensures
        match r {
            Some(p) => input_decl(rule@) == Some((p.0@, match p.1 { Some(q) => Some(q@), None => None::<Seq<char>> })),
            None => input_decl(rule@) is None,
        },
{
    match &rule.trigger {
        Trigger::Tick => None,
        Trigger::Event { name, filter, between: _ } => {
            if !str_eq(name.as_str(), "input") {
                return None;
            }
            let action = match entries_lookup(filter, "action") {
                Some(v) => v.as_str(),
                None => None,
            };
            match action {
                None => None,
                Some(a) => {
                    let phase = match entries_lookup(filter, "phase") {
                        Some(v) => v.as_str(),
                        None => None,
                    };
                    Some((a, phase))
                },
            }
        },
    }
}

/// Derive the input-action vocabulary of a rule set: every distinct action of an `input`
/// trigger, in order of first appearance, with the distinct phases it appears with (also in
/// order of first appearance). A trigger without a phase contributes its action only; tick,
/// collision and custom-event triggers contribute nothing.
pub fn input_actions(rules: &RuleSet) -> (out: Vec<InputAction>)
    ensures
        is_vocabulary(out@, rules_view(rules.rules@)),
{
    let ghost rv = rules_view(rules.rules@);
    let mut out: Vec<InputAction> = Vec::new();
    let mut i: usize = 0;
    while i < rules.rules.len()
        invariant
            i <= rules.rules@.len(),
            rv == rules_view(rules.rules@),
            is_vocabulary(out@, rv.subrange(0, i as int)),
        decreases rules.rules@.len() - i,
    {
        let ghost pre = rv.subrange(0, i as int);
        let ghost post = rv.subrange(0, i + 1);
        proof {
            assert(post.drop_last() =~= pre);
            assert(post.last() == rules.rules@[i as int]@);
        }
        match rule_input_decl(&rules.rules[i]) {
            None => {
                proof {
                    assert(declared_actions(post) == declared_actions(pre));
                    assert forall|a: Seq<char>| declared_phases(post, a) == declared_phases(pre, a) by {}
                }
            },
            Some((action, phase)) => {
                let ghost acts = dedup(declared_actions(pre));
                // find the action among the vocabulary so far
                let mut k: usize = 0;
                while k < out.len() && !str_eq(out[k].action.as_str(), action)
                    invariant
                        k <= out@.len(),
                        forall|m: int| 0 <= m < k ==> out@[m].action@ != action@,
                    decreases out@.len() - k,
                {
                    k += 1;
                }
                proof {
                    assert(declared_actions(post) == declared_actions(pre).push(action@));
                    lemma_dedup_push(declared_actions(pre), action@);
                    assert forall|a: Seq<char>| a != action@ implies declared_phases(post, a) == declared_phases(pre, a) by {}
                }
                if k < out.len() {
                    proof {
                        assert(acts[k as int] == action@);
                        assert(acts.contains(action@));
                    }
                    match phase {
                        Some(p) => {
                            let ghost old_ph = out@[k as int].phases@;
                            proof {
                                assert(declared_phases(post, action@) == declared_phases(pre, action@).push(p@));
                                lemma_dedup_push(declared_phases(pre, action@), p@);
                            }
                            if !strings_contain(&out[k].phases, p) {
                                let mut entry = out.remove(k);
                                entry.phases.push(String::from_str(p));
                                out.insert(k, entry);
                                proof {
                                    assert(strings_view(out@[k as int].phases@) =~= strings_view(old_ph).push(p@));
                                }
                            }
                            proof {
                                assert forall|m: int| 0 <= m < out@.len() implies (#[trigger] out@[m]).action@ == dedup(declared_actions(post))[m]
                                    && strings_view(out@[m].phases@) == dedup(declared_phases(post, dedup(declared_actions(post))[m])) by {
                                    if m != k as int {
                                        lemma_dedup_contains(declared_actions(pre), action@);
                                        assert(acts.no_duplicates());
                                        assert(acts[m] != action@);
                                    }
                                }
                            }
                        },
                        None => {
                            proof {
                                assert(declared_phases(post, action@) == declared_phases(pre, action@));
                            }
                        },
                    }
                } else {
                    let mut phases: Vec<String> = Vec::new();
                    match phase {
                        Some(p) => { phases.push(String::from_str(p)); },
                        None => {},
                    }
                    let entry = InputAction { action: String::from_str(action), phases };
                    let ghost old_out = out@;
                    out.push(entry);
                    proof {
                        assert(!acts.contains(action@)) by {
                            if acts.contains(action@) {
                                let m = choose|m: int| 0 <= m < acts.len() && acts[m] == action@;
                                assert(out@[m].action@ == action@);
                            }
                        }
                        lemma_dedup_contains(declared_actions(pre), action@);
                        assert(!declared_actions(pre).contains(action@));
                        lemma_no_phases_before(pre, action@);
                        match phase {
                            Some(p) => {
                                assert(declared_phases(post, action@) == declared_phases(pre, action@).push(p@));
                                lemma_dedup_push(declared_phases(pre, action@), p@);
                                assert(dedup(Seq::<Seq<char>>::empty()) == Seq::<Seq<char>>::empty());
                                assert(strings_view(out@[k as int].phases@) =~= seq![p@]);
                                assert(dedup(declared_phases(post, action@)) =~= seq![p@]);
                            },
                            None => {
                                assert(strings_view(out@[k as int].phases@) =~= Seq::<Seq<char>>::empty());
                            },
                        }
                        assert forall|m: int| 0 <= m < out@.len() implies (#[trigger] out@[m]).action@ == dedup(declared_actions(post))[m]
                            && strings_view(out@[m].phases@) == dedup(declared_phases(post, dedup(declared_actions(post))[m])) by {
                            if m < k as int {
                                assert(out@[m] == old_out[m]);
                                assert(acts[m] != action@);
                            }
                        }
                    }
                }
            },
        }
        i += 1;
    }
    proof {
        assert(rv.subrange(0, rules.rules@.len() as int) =~= rv);
    }
    out
}

/// An action no input trigger has declared yet has no declared phases either.
proof fn lemma_no_phases_before(rules: Seq<RuleV>, action: Seq<char>)
    requires
        !declared_actions(rules).contains(action),
    ensures
        declared_phases(rules, action) == Seq::<Seq<char>>::empty(),
    decreases rules.len(),
{
    if rules.len() > 0 {
        let rest = declared_actions(rules.drop_last());
        if rest.contains(action) {
            let k = choose|k: int| 0 <= k < rest.len() && rest[k] == action;
            match input_decl(rules.last()) {
                Some(d) => { assert(declared_actions(rules)[k] == action); },
                None => {},
            }
        }
        lemma_no_phases_before(rules.drop_last(), action);
        match input_decl(rules.last()) {
            Some(d) => {
                if d.0 == action {
                    assert(declared_actions(rules).last() == action);
                }
            },
            None => {},
        }
    }
}

} // verus!
