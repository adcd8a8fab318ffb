//! The rule engine's decisions that do not touch the world: which rules an event or a tick
//! fires, the cascade guard and the causal chain, JSON value equality as filters and
//! conditions use it, how a reference text is read, event-field lookup, template filling,
//! checked integer addition, and the engine's error messages.
//!
//! Reading and writing entity fields is the host's part; it asks these functions what a rule
//! means and reports back what it found.
use vstd::prelude::*;
use crate::json::{clone_entries, entries_get, entries_lookup, entries_view, json_view, seq_view, Json, JsonNumber, JsonV};
use crate::rules::{Event, EventV, RuleSet, RuleV, Trigger, TriggerV, rules_view};
use crate::text::{chars_of, debug_quote, debug_quoted, decimal, join, join_strs, push_decimal, push_str, str_eq};

verus! {

/// How deep an event cascade may go before the engine calls it a loop.
pub const MAX_CASCADE_DEPTH: usize = 8;

/// A rule failure. The engine stops and explains; it never falls back.
#[derive(Debug, PartialEq, Eq)]
pub enum RuleError {
    /// The event cascade went deeper than the limit (rules emitting events that trigger rules...).
    CascadeOverflow { depth: usize, chain: Vec<String> },
    /// A rule's condition or action failed.
    Exec { rule: String, at: String, message: String },
}

/// The message of a rule failure.
pub open spec fn rule_error_message(e: RuleError) -> Seq<char> {
    match e {
        RuleError::CascadeOverflow { depth, chain } =>
            "事件级联超过 "@ + decimal(depth as nat) + " 层，疑似规则死循环。触发链: "@
                + join(chain@.map_values(|t: String| t@), " -> "@) + "。提示：检查链上的规则是否互相 emit 形成回路"@,
        RuleError::Exec { rule, at, message } =>
            "规则 "@ + debug_quoted(rule@) + " 在 "@ + at@ + " 执行失败: "@ + message@,
    }
}

impl RuleError {
    /// The human-readable message.
    pub fn message(&self) -> (m: String)
        ensures
            m@ == rule_error_message(*self),
    {
        match self {
            RuleError::CascadeOverflow { depth, chain } => {
                let mut m = String::from_str("事件级联超过 ");
                push_decimal(&mut m, *depth as u64);
                push_str(&mut m, " 层，疑似规则死循环。触发链: ");
                let mut items: Vec<&str> = Vec::new();
                let mut i: usize = 0;
                while i < chain.len()
                    invariant
                        i <= chain@.len(),
                        items@.len() == i,
                        forall|k: int| 0 <= k < i ==> (#[trigger] items@[k])@ == chain@[k]@,
                    decreases chain@.len() - i,
                {
                    items.push(chain[i].as_str());
                    i += 1;
                }
                proof {
                    assert(items@.map_values(|t: &str| t@) =~= chain@.map_values(|t: String| t@));
                }
                let joined = join_strs(&items, " -> ");
                push_str(&mut m, joined.as_str());
                push_str(&mut m, "。提示：检查链上的规则是否互相 emit 形成回路");
                m
            },
            RuleError::Exec { rule, at, message } => {
                let mut m = String::from_str("规则 ");
                let q = debug_quote(rule.as_str());
                push_str(&mut m, q.as_str());
                push_str(&mut m, " 在 ");
                push_str(&mut m, at.as_str());
                push_str(&mut m, " 执行失败: ");
                push_str(&mut m, message.as_str());
                m
            },
        }
    }
}

/// The label of a rule's `i`-th condition or action: `kind/i` (`if/0`, `do/2`, `check/1`).
pub fn step_label(kind: &str, i: usize) -> (l: String)
    ensures
        l@ == kind@ + "/"@ + decimal(i as nat),
{
    let mut l = String::from_str(kind);
    push_str(&mut l, "/");
    push_decimal(&mut l, i as u64);
    l
}

// ---- JSON equality ----

/// Whether a float bit pattern is a zero (either sign).
pub open spec fn zero_bits(b: u64) -> bool {
    b & 0x7fff_ffff_ffff_ffffu64 == 0
}

/// Number equality as serde_json's: same shape, same value (the two float zeros are equal).
pub open spec fn num_eq(a: JsonNumber, b: JsonNumber) -> bool {
    match (a, b) {
        (JsonNumber::PosInt(x), JsonNumber::PosInt(y)) => x == y,
        (JsonNumber::NegInt(x), JsonNumber::NegInt(y)) => x == y,
        (JsonNumber::Float(x), JsonNumber::Float(y)) => x == y || (zero_bits(x) && zero_bits(y)),
        _ => false,
    }
}

/// Value equality as serde_json's `==` (objects compare entry by entry: documents keep their
/// keys in order, each once).
pub open spec fn json_eq(a: JsonV, b: JsonV) -> bool
    decreases a,
{
    match (a, b) {
        (JsonV::Null, JsonV::Null) => true,
        (JsonV::Bool(x), JsonV::Bool(y)) => x == y,
        (JsonV::Number(x), JsonV::Number(y)) => num_eq(x, y),
        (JsonV::Str(x), JsonV::Str(y)) => x == y,
        (JsonV::Array(x), JsonV::Array(y)) => items_eq(x, y),
        (JsonV::Object(x), JsonV::Object(y)) => entries_eq(x, y),
        _ => false,
    }
}

pub open spec fn items_eq(a: Seq<JsonV>, b: Seq<JsonV>) -> bool
    decreases a,
{
    a.len() == b.len() && (a.len() == 0 || (items_eq(a.drop_last(), b.drop_last()) && json_eq(a.last(), b.last())))
}

pub open spec fn entries_eq(a: Seq<(Seq<char>, JsonV)>, b: Seq<(Seq<char>, JsonV)>) -> bool
    decreases a,
{
    a.len() == b.len() && (a.len() == 0 || (entries_eq(a.drop_last(), b.drop_last())
        && a.last().0 == b.last().0 && json_eq(a.last().1, b.last().1)))
}

fn num_equal(a: &JsonNumber, b: &JsonNumber) -> (r: bool)
    ensures
        r == num_eq(*a, *b),
{
    match (a, b) {
        (JsonNumber::PosInt(x), JsonNumber::PosInt(y)) => *x == *y,
        (JsonNumber::NegInt(x), JsonNumber::NegInt(y)) => *x == *y,
        (JsonNumber::Float(x), JsonNumber::Float(y)) =>
            *x == *y || (*x & 0x7fff_ffff_ffff_ffffu64 == 0 && *y & 0x7fff_ffff_ffff_ffffu64 == 0),
        _ => false,
    }
}

/// serde_json's `==` on two values (see [`json_eq`]).
pub fn json_equal(a: &Json, b: &Json) -> (r: bool)
    ensures
        r == json_eq(a@, b@),
    decreases a,
{
    match (a, b) {
        (Json::Null, Json::Null) => true,
        (Json::Bool(x), Json::Bool(y)) => *x == *y,
        (Json::Number(x), Json::Number(y)) => num_equal(x, y),
        (Json::Str(x), Json::Str(y)) => str_eq(x.as_str(), y.as_str()),
        (Json::Array(x), Json::Array(y)) => {
            proof {
                crate::json::lemma_seq_view(x@);
                crate::json::lemma_seq_view(y@);
                assert(decreases_to!(*a => *x));
            }
            if x.len() != y.len() {
                return false;
            }
            let ghost xv = seq_view(x@);
            let ghost yv = seq_view(y@);
            let mut i: usize = 0;
            while i < x.len()
                invariant
                    decreases_to!(*a => *x),
                    x@.len() == y@.len(),
                    i <= x@.len(),
                    xv == seq_view(x@),
                    yv == seq_view(y@),
                    a@ == JsonV::Array(xv),
                    b@ == JsonV::Array(yv),
                    xv.len() == x@.len() && yv.len() == y@.len(),
                    forall|k: int| 0 <= k < x@.len() ==> #[trigger] xv[k] == json_view(x@[k]),
                    forall|k: int| 0 <= k < y@.len() ==> #[trigger] yv[k] == json_view(y@[k]),
                    items_eq(xv.subrange(0, i as int), yv.subrange(0, i as int)),
                decreases x@.len() - i,
            {
                proof {
                    vstd::std_specs::vec::axiom_vec_index_decreases(*x, i as int);
                    assert(xv.subrange(0, i + 1).drop_last() =~= xv.subrange(0, i as int));
                    assert(yv.subrange(0, i + 1).drop_last() =~= yv.subrange(0, i as int));
                }
                if !json_equal(&x[i], &y[i]) {
                    proof { lemma_items_eq_prefix(xv, yv, i + 1); }
                    return false;
                }
                i += 1;
            }
            proof {
                assert(xv.subrange(0, i as int) =~= xv);
                assert(yv.subrange(0, i as int) =~= yv);
            }
            true
        },
        (Json::Object(x), Json::Object(y)) => {
            proof {
                crate::json::lemma_entries_view(x@);
                crate::json::lemma_entries_view(y@);
                assert(decreases_to!(*a => *x));
            }
            if x.len() != y.len() {
                return false;
            }
            let ghost xv = entries_view(x@);
            let ghost yv = entries_view(y@);
            let mut i: usize = 0;
            while i < x.len()
                invariant
                    decreases_to!(*a => *x),
                    x@.len() == y@.len(),
                    i <= x@.len(),
                    xv == entries_view(x@),
                    yv == entries_view(y@),
                    a@ == JsonV::Object(xv),
                    b@ == JsonV::Object(yv),
                    xv.len() == x@.len() && yv.len() == y@.len(),
                    forall|k: int| 0 <= k < x@.len() ==> #[trigger] xv[k] == (x@[k].0@, json_view(x@[k].1)),
                    forall|k: int| 0 <= k < y@.len() ==> #[trigger] yv[k] == (y@[k].0@, json_view(y@[k].1)),
                    entries_eq(xv.subrange(0, i as int), yv.subrange(0, i as int)),
                decreases x@.len() - i,
            {
                proof {
                    vstd::std_specs::vec::axiom_vec_index_decreases(*x, i as int);
                    assert(decreases_to!(x@[i as int] => x@[i as int].1));
                    assert(xv.subrange(0, i + 1).drop_last() =~= xv.subrange(0, i as int));
                    assert(yv.subrange(0, i + 1).drop_last() =~= yv.subrange(0, i as int));
                }
                if !str_eq(x[i].0.as_str(), y[i].0.as_str()) || !json_equal(&x[i].1, &y[i].1) {
                    proof { lemma_entries_eq_prefix(xv, yv, i + 1); }
                    return false;
                }
                i += 1;
            }
            proof {
                assert(xv.subrange(0, i as int) =~= xv);
                assert(yv.subrange(0, i as int) =~= yv);
            }
            true
        },
        _ => false,
    }
}

proof fn lemma_items_eq_prefix(a: Seq<JsonV>, b: Seq<JsonV>, k: int)
    requires
        a.len() == b.len(),
        0 <= k <= a.len(),
        !items_eq(a.subrange(0, k), b.subrange(0, k)),
    ensures
        !items_eq(a, b),
    decreases a.len(),
{
    if k < a.len() {
        assert(a.drop_last().subrange(0, k) =~= a.subrange(0, k));
        assert(b.drop_last().subrange(0, k) =~= b.subrange(0, k));
        lemma_items_eq_prefix(a.drop_last(), b.drop_last(), k);
    } else {
        assert(a.subrange(0, k) =~= a);
        assert(b.subrange(0, k) =~= b);
    }
}

proof fn lemma_entries_eq_prefix(a: Seq<(Seq<char>, JsonV)>, b: Seq<(Seq<char>, JsonV)>, k: int)
    requires
        a.len() == b.len(),
        0 <= k <= a.len(),
        !entries_eq(a.subrange(0, k), b.subrange(0, k)),
    ensures
        !entries_eq(a, b),
    decreases a.len(),
{
    if k < a.len() {
        assert(a.drop_last().subrange(0, k) =~= a.subrange(0, k));
        assert(b.drop_last().subrange(0, k) =~= b.subrange(0, k));
        lemma_entries_eq_prefix(a.drop_last(), b.drop_last(), k);
    } else {
        assert(a.subrange(0, k) =~= a);
        assert(b.subrange(0, k) =~= b);
    }
}

// ---- which rules fire ----

/// Whether event data passes an equality filter: every filter entry's key is in the data with
/// an equal value.
pub open spec fn filter_ok(filter: Seq<(Seq<char>, JsonV)>, data: Seq<(Seq<char>, JsonV)>) -> bool {
    forall|i: int| 0 <= i < filter.len() ==> #[trigger] entry_passes(data, filter[i])
}

/// Whether the data holds the filter entry's key with an equal value.
pub open spec fn entry_passes(data: Seq<(Seq<char>, JsonV)>, entry: (Seq<char>, JsonV)) -> bool {
    match entries_get(data, entry.0) {
        Some(v) => json_eq(v, entry.1),
        None => false,
    }
}

/// Whether event data passes an equality filter (see [`filter_ok`]).
pub fn filter_matches(filter: &Vec<(String, Json)>, data: &Vec<(String, Json)>) -> (r: bool)
    ensures
        r == filter_ok(entries_view(filter@), entries_view(data@)),
{
    proof { crate::json::lemma_entries_view(filter@); }
    let ghost fv = entries_view(filter@);
    let ghost dv = entries_view(data@);
    let mut i: usize = 0;
    while i < filter.len()
        invariant
            i <= filter@.len(),
            fv == entries_view(filter@),
            dv == entries_view(data@),
            fv.len() == filter@.len(),
            forall|k: int| 0 <= k < filter@.len() ==> #[trigger] fv[k] == (filter@[k].0@, json_view(filter@[k].1)),
            forall|k: int| 0 <= k < i ==> #[trigger] entry_passes(dv, fv[k]),
        decreases filter@.len() - i,
    {
        let ok = match crate::json::entries_lookup(data, filter[i].0.as_str()) {
            Some(v) => json_equal(v, &filter[i].1),
            None => false,
        };
        if !ok {
            assert(!entry_passes(dv, fv[i as int]));
            return false;
        }
        i += 1;
    }
    true
}

/// Whether rule `r` fires on event `e` (before any collision binding): an event trigger of
/// that name whose filter the data passes.
pub open spec fn fires_on(r: RuleV, e: EventV) -> bool {
    match r.trigger {
        TriggerV::Event { name, filter, .. } => name == e.name && filter_ok(filter, e.data),
        TriggerV::Tick => false,
    }
}

/// The positions, in file order, of the rules an event fires.
pub open spec fn fired_by(rules: Seq<RuleV>, e: EventV) -> Seq<int>
    decreases rules.len(),
{
    if rules.len() == 0 {
        Seq::empty()
    } else {
        fired_by(rules.drop_last(), e) + if fires_on(rules.last(), e) { seq![rules.len() - 1] } else { Seq::empty() }
    }
}

/// The positions, in file order, of the tick rules.
pub open spec fn tick_rules(rules: Seq<RuleV>) -> Seq<int>
    decreases rules.len(),
{
    if rules.len() == 0 {
        Seq::empty()
    } else {
        tick_rules(rules.drop_last()) + if rules.last().trigger is Tick { seq![rules.len() - 1] } else { Seq::empty() }
    }
}

pub open spec fn positions(v: Seq<usize>) -> Seq<int> {
    v.map_values(|i: usize| i as int)
}

/// The rules an event fires, in file order (collision binding is checked by the caller).
pub fn event_rules(rules: &RuleSet, e: &Event) -> (r: Vec<usize>)
    ensures
        positions(r@) == fired_by(rules_view(rules.rules@), e@),
{
    let ghost rv = rules_view(rules.rules@);
    let mut r: Vec<usize> = Vec::new();
    let mut i: usize = 0;
    while i < rules.rules.len()
        invariant
            i <= rules.rules@.len(),
            rv == rules_view(rules.rules@),
            positions(r@) == fired_by(rv.subrange(0, i as int), e@),
        decreases rules.rules@.len() - i,
    {
        let ghost pre = r@;
        proof {
            assert(rv.subrange(0, i + 1).drop_last() =~= rv.subrange(0, i as int));
            assert(rv.subrange(0, i + 1).last() == rules.rules@[i as int]@);
        }
        let fires = match &rules.rules[i].trigger {
            Trigger::Event { name, filter, .. } => str_eq(name.as_str(), e.name.as_str()) && filter_matches(filter, &e.data),
            Trigger::Tick => false,
        };
        if fires {
            r.push(i);
            proof { assert(positions(r@) =~= positions(pre) + seq![i as int]); }
        } else {
            proof { assert(positions(r@) =~= positions(pre) + Seq::<int>::empty()); }
        }
        i += 1;
    }
    proof { assert(rv.subrange(0, i as int) =~= rv); }
    r
}

/// The tick rules, in file order.
pub fn tick_rule_positions(rules: &RuleSet) -> (r: Vec<usize>)
    ensures
        positions(r@) == tick_rules(rules_view(rules.rules@)),
{
    let ghost rv = rules_view(rules.rules@);
    let mut r: Vec<usize> = Vec::new();
    let mut i: usize = 0;
    while i < rules.rules.len()
        invariant
            i <= rules.rules@.len(),
            rv == rules_view(rules.rules@),
            positions(r@) == tick_rules(rv.subrange(0, i as int)),
        decreases rules.rules@.len() - i,
    {
        let ghost pre = r@;
        proof {
            assert(rv.subrange(0, i + 1).drop_last() =~= rv.subrange(0, i as int));
            assert(rv.subrange(0, i + 1).last() == rules.rules@[i as int]@);
        }
        let tick = match &rules.rules[i].trigger {
            Trigger::Tick => true,
            _ => false,
        };
        if tick {
            r.push(i);
            proof { assert(positions(r@) =~= positions(pre) + seq![i as int]); }
        } else {
            proof { assert(positions(r@) =~= positions(pre) + Seq::<int>::empty()); }
        }
        i += 1;
    }
    proof { assert(rv.subrange(0, i as int) =~= rv); }
    r
}

// ---- the cascade ----

/// The cascade guard: an event queued at `depth` may run only up to the limit; beyond it the
/// cascade is reported with its causal chain.
pub fn check_cascade(depth: usize, chain: &Vec<String>) -> (r: Result<(), RuleError>)
    ensures
        depth <= MAX_CASCADE_DEPTH ==> r is Ok,
        depth > MAX_CASCADE_DEPTH ==> (r matches Err(RuleError::CascadeOverflow { depth: d, chain: c })
            && d == MAX_CASCADE_DEPTH && c@.map_values(|t: String| t@) == chain@.map_values(|t: String| t@)),
{
    if depth > MAX_CASCADE_DEPTH {
        let mut c: Vec<String> = Vec::new();
        let mut i: usize = 0;
        while i < chain.len()
            invariant
                i <= chain@.len(),
                c@.len() == i,
                forall|k: int| 0 <= k < i ==> (#[trigger] c@[k])@ == chain@[k]@,
            decreases chain@.len() - i,
        {
            c.push(chain[i].clone());
            i += 1;
        }
        proof { assert(c@.map_values(|t: String| t@) =~= chain@.map_values(|t: String| t@)); }
        return Err(RuleError::CascadeOverflow { depth: MAX_CASCADE_DEPTH, chain: c });
    }
    Ok(())
}

/// The causal chain of an emitted event: the emitter's chain, then `rule→event`.
pub fn extend_chain(chain: &Vec<String>, rule_id: &str, event: &str) -> (r: Vec<String>)
    ensures
        r@.map_values(|t: String| t@) == chain@.map_values(|t: String| t@).push(rule_id@ + "→"@ + event@),
{
    let mut c: Vec<String> = Vec::new();
    let mut i: usize = 0;
    while i < chain.len()
        invariant
            i <= chain@.len(),
            c@.len() == i,
            forall|k: int| 0 <= k < i ==> (#[trigger] c@[k])@ == chain@[k]@,
        decreases chain@.len() - i,
    {
        c.push(chain[i].clone());
        i += 1;
    }
    let mut link = String::from_str(rule_id);
    push_str(&mut link, "→");
    push_str(&mut link, event);
    c.push(link);
    proof { assert(c@.map_values(|t: String| t@) =~= chain@.map_values(|t: String| t@).push(rule_id@ + "→"@ + event@)); }
    c
}

// ---- templates ----

/// Whether `f` starts with the slot `{}`.
pub open spec fn slot_first(f: Seq<char>) -> bool {
    f.len() >= 2 && f[0] == '{' && f[1] == '}'
}

/// The number of `{}` slots, found left to right without overlap.
pub open spec fn slot_count(f: Seq<char>) -> nat
    decreases f.len(),
{
    if f.len() == 0 {
        0
    } else if slot_first(f) {
        1 + slot_count(f.skip(2))
    } else {
        slot_count(f.drop_first())
    }
}

/// `f` with its slots replaced by `args`, in order.
pub open spec fn filled(f: Seq<char>, args: Seq<Seq<char>>) -> Seq<char>
    decreases f.len(),
{
    if f.len() == 0 {
        Seq::empty()
    } else if slot_first(f) {
        (if args.len() > 0 { args[0] } else { Seq::empty() }) + filled(f.skip(2), args.drop_first())
    } else {
        seq![f[0]] + filled(f.drop_first(), args)
    }
}

/// A template filled with the texts of its arguments, or the arity mismatch.
pub open spec fn template_spec(f: Seq<char>, args: Seq<Seq<char>>) -> Result<Seq<char>, Seq<char>> {
    if slot_count(f) != args.len() {
        Err("format 模板 "@ + debug_quoted(f) + " 有 "@ + decimal(slot_count(f)) + " 个 {}，但 args 给了 "@ + decimal(args.len()) + " 个"@)
    } else {
        Ok(filled(f, args))
    }
}

/// Fill the `{}` slots of a template with the texts of its arguments; the number of slots must
/// be the number of arguments.
pub fn fill_template(fmt: &str, args: &Vec<String>) -> (r: Result<String, String>)
    ensures
        match template_spec(fmt@, args@.map_values(|t: String| t@)) {
            Ok(t) => r matches Ok(x) && x@ == t,
            Err(m) => r matches Err(e) && e@ == m,
        },
{
    let ghost av = args@.map_values(|t: String| t@);
    let cs = chars_of(fmt);
    let n = cs.len();
    // count the slots
    let mut slots: usize = 0;
    let mut i: usize = 0;
    proof { assert(cs@.subrange(0, n as int) =~= cs@); }
    while i < n
        invariant
            n == cs@.len(),
            cs@ == fmt@,
            i <= n,
            slots <= i,
            slot_count(fmt@) == slots + slot_count(cs@.subrange(i as int, n as int)),
        decreases n - i,
    {
        let ghost rest = cs@.subrange(i as int, n as int);
        if i + 1 < n && cs[i] == '{' && cs[i + 1] == '}' {
            proof { assert(rest.skip(2) =~= cs@.subrange(i + 2, n as int)); }
            slots += 1;
            i += 2;
        } else {
            proof { assert(rest.drop_first() =~= cs@.subrange(i + 1, n as int)); }
            i += 1;
        }
    }
    proof { assert(cs@.subrange(i as int, n as int) =~= Seq::<char>::empty()); }
    if slots != args.len() {
        let mut m = String::from_str("format 模板 ");
        let q = debug_quote(fmt);
        push_str(&mut m, q.as_str());
        push_str(&mut m, " 有 ");
        push_decimal(&mut m, slots as u64);
        push_str(&mut m, " 个 {}，但 args 给了 ");
        push_decimal(&mut m, args.len() as u64);
        push_str(&mut m, " 个");
        return Err(m);
    }
    let mut out = String::new();
    let mut i: usize = 0;
    let mut k: usize = 0;
    proof {
        assert(cs@.subrange(0, n as int) =~= cs@);
        assert(av.skip(0) =~= av);
    }
    while i < n
        invariant
            n == cs@.len(),
            cs@ == fmt@,
            av == args@.map_values(|t: String| t@),
            av.len() == args@.len(),
            args@.len() <= usize::MAX,
            i <= n,
            k + slot_count(cs@.subrange(i as int, n as int)) == args@.len(),
            filled(fmt@, av) == out@ + filled(cs@.subrange(i as int, n as int), av.skip(k as int)),
        decreases n - i,
    {
        let ghost rest = cs@.subrange(i as int, n as int);
        if i + 1 < n && cs[i] == '{' && cs[i + 1] == '}' {
            proof {
                assert(slot_first(rest));
                assert(rest.skip(2) =~= cs@.subrange(i + 2, n as int));
                assert(k < args@.len());
                assert(av.skip(k as int).drop_first() =~= av.skip(k + 1));
                assert(av[k as int] == args@[k as int]@);
                assert(av.skip(k as int)[0] == av[k as int]);
            }
            push_str(&mut out, args[k].as_str());
            k += 1;
            i += 2;
        } else {
            proof {
                assert(!slot_first(rest));
                assert(rest.drop_first() =~= cs@.subrange(i + 1, n as int));
            }
            crate::text::push_char(&mut out, cs[i]);
            i += 1;
        }
    }
    proof { assert(cs@.subrange(i as int, n as int) =~= Seq::<char>::empty()); }
    Ok(out)
}

// ---- references ----

/// `s` starts with `p`.
pub open spec fn starts_with(s: Seq<char>, p: Seq<char>) -> bool {
    p.len() <= s.len() && s.subrange(0, p.len() as int) == p
}

/// How a text in a rule reads.
#[derive(Debug, PartialEq, Eq)]
pub enum RefForm {
    /// `self` / `other`: the bound entity's handle.
    Binding(String),
    /// `event.<field>`: a field of the triggering event's data.
    EventField(String),
    /// `self.<field>` / `other.<field>`: a field of the bound entity.
    BoundField { binding: String, field: String },
    /// `@name` / `@name.<path>`: the named entity's handle, or one of its fields.
    Named { name: String, path: Option<String> },
    /// Anything else: the text itself.
    Literal,
}

/// The content of a reading.
pub enum RefFormV {
    Binding(Seq<char>),
    EventField(Seq<char>),
    BoundField { binding: Seq<char>, field: Seq<char> },
    Named { name: Seq<char>, path: Option<Seq<char>> },
    Literal,
}

impl View for RefForm {
    type V = RefFormV;

    open spec fn view(&self) -> RefFormV {
        match self {
            RefForm::Binding(b) => RefFormV::Binding(b@),
            RefForm::EventField(f) => RefFormV::EventField(f@),
            RefForm::BoundField { binding, field } => RefFormV::BoundField { binding: binding@, field: field@ },
            RefForm::Named { name, path } => RefFormV::Named { name: name@, path: match path { Some(p) => Some(p@), None => None } },
            RefForm::Literal => RefFormV::Literal,
        }
    }
}

/// `(before, after)` the first `.`, or the whole text and nothing.
pub open spec fn split_first_dot(s: Seq<char>) -> (Seq<char>, Option<Seq<char>>) {
    match crate::text::first_index(s, '.') {
        Some(d) => (s.subrange(0, d), Some(s.subrange(d + 1, s.len() as int))),
        None => (s, None),
    }
}

/// How a text in a rule reads (checked in this order).
pub open spec fn ref_form(s: Seq<char>) -> RefFormV {
    if s == "self"@ || s == "other"@ {
        RefFormV::Binding(s)
    } else if starts_with(s, "event."@) {
        RefFormV::EventField(s.skip(6))
    } else if starts_with(s, "self."@) {
        RefFormV::BoundField { binding: "self"@, field: s.skip(5) }
    } else if starts_with(s, "other."@) {
        RefFormV::BoundField { binding: "other"@, field: s.skip(6) }
    } else if s.len() > 0 && s[0] == '@' {
        RefFormV::Named { name: split_first_dot(s.drop_first()).0, path: split_first_dot(s.drop_first()).1 }
    } else {
        RefFormV::Literal
    }
}

fn chars_start_with(cs: &Vec<char>, p: &str) -> (r: bool)
    ensures
        r == starts_with(cs@, p@),
{
    let pc = chars_of(p);
    if pc.len() > cs.len() {
        return false;
    }
    let mut i: usize = 0;
    while i < pc.len()
        invariant
            pc@ == p@,
            pc@.len() <= cs@.len(),
            i <= pc@.len(),
            forall|j: int| 0 <= j < i ==> cs@[j] == pc@[j],
        decreases pc@.len() - i,
    {
        if cs[i] != pc[i] {
            assert(cs@.subrange(0, pc@.len() as int)[i as int] != pc@[i as int]);
            return false;
        }
        i += 1;
    }
    assert(cs@.subrange(0, pc@.len() as int) =~= pc@);
    true
}

/// Split at the first `.` (see [`split_first_dot`]).
pub fn split_at_first_dot(s: &str) -> (r: (String, Option<String>))
    ensures
        r.0@ == split_first_dot(s@).0,
        match r.1 {
            Some(p) => split_first_dot(s@).1 == Some(p@),
            None => split_first_dot(s@).1 is None,
        },
{
    let cs = chars_of(s);
    match crate::text::first_index_of(&cs, '.') {
        Some(d) => (crate::text::text_between(&cs, 0, d), Some(crate::text::text_between(&cs, d + 1, cs.len()))),
        None => {
            proof { assert(cs@.subrange(0, cs@.len() as int) =~= cs@); }
            (String::from_str(s), None)
        },
    }
}

/// How a text in a rule reads (see [`ref_form`]).
pub fn classify_ref(s: &str) -> (r: RefForm)
    ensures
        r@ == ref_form(s@),
{
    let cs = chars_of(s);
    if str_eq(s, "self") || str_eq(s, "other") {
        return RefForm::Binding(String::from_str(s));
    }
    if chars_start_with(&cs, "event.") {
        proof { reveal_strlit("event."); }
        return RefForm::EventField(crate::text::text_between(&cs, 6, cs.len()));
    }
    if chars_start_with(&cs, "self.") {
        proof { reveal_strlit("self."); }
        return RefForm::BoundField { binding: String::from_str("self"), field: crate::text::text_between(&cs, 5, cs.len()) };
    }
    if chars_start_with(&cs, "other.") {
        proof { reveal_strlit("other."); }
        return RefForm::BoundField { binding: String::from_str("other"), field: crate::text::text_between(&cs, 6, cs.len()) };
    }
    if cs.len() > 0 && cs[0] == '@' {
        let rest = crate::text::text_between(&cs, 1, cs.len());
        proof { assert(rest@ =~= s@.drop_first()); }
        let (name, path) = split_at_first_dot(rest.as_str());
        return RefForm::Named { name, path };
    }
    RefForm::Literal
}

/// How an entity reference reads: the bindings, a name, or a handle text (`e<index>v<generation>`
/// shape, parsed by the caller).
#[derive(Debug, PartialEq, Eq)]
pub enum EntityRef {
    SelfRef,
    OtherRef,
    Named(String),
    Handle(String),
    Unrecognized,
}

/// The message for an entity reference in none of the accepted forms.
pub open spec fn unrecognized_ref_message(s: Seq<char>) -> Seq<char> {
    "无法识别实体引用 "@ + debug_quoted(s) + "。可用写法: self / other / @实体名 / e3v1 句柄"@
}

/// The message for an unbound `self` / `other`.
pub open spec fn unbound_ref_message(s: Seq<char>) -> Seq<char> {
    debug_quoted(s) + " 没有绑定。self/other 只在对应触发器下有值（between 碰撞绑定 self+other，each 绑定 self）"@
}

/// How an entity reference reads: `self`, `other`, `@name`, a text starting with `e` that
/// contains a `v` (a handle candidate), or none of these.
pub fn entity_ref_form(s: &str) -> (r: EntityRef)
    ensures
        s@ == "self"@ ==> r is SelfRef,
        s@ == "other"@ ==> r is OtherRef,
        s@ != "self"@ && s@ != "other"@ && s@.len() > 0 && s@[0] == '@' ==> (r matches EntityRef::Named(n) && n@ == s@.drop_first()),
        s@ != "self"@ && s@ != "other"@ && !(s@.len() > 0 && s@[0] == '@') && s@.len() > 0 && s@[0] == 'e'
            && s@.contains('v') ==> (r matches EntityRef::Handle(h) && h@ == s@),
        s@ != "self"@ && s@ != "other"@ && !(s@.len() > 0 && s@[0] == '@') && !(s@.len() > 0 && s@[0] == 'e'
            && s@.contains('v')) ==> r is Unrecognized,
{
    proof {
        reveal_strlit("self");
        reveal_strlit("other");
        assert("self"@.len() != "other"@.len());
    }
    if str_eq(s, "self") {
        return EntityRef::SelfRef;
    }
    if str_eq(s, "other") {
        return EntityRef::OtherRef;
    }
    let cs = chars_of(s);
    if cs.len() > 0 && cs[0] == '@' {
        let n = crate::text::text_between(&cs, 1, cs.len());
        proof { assert(n@ =~= s@.drop_first()); }
        return EntityRef::Named(n);
    }
    if cs.len() > 0 && cs[0] == 'e' {
        match crate::text::first_index_of(&cs, 'v') {
            Some(i) => {
                proof { assert(s@[i as int] == 'v'); }
                return EntityRef::Handle(String::from_str(s));
            },
            None => {
                proof {
                    crate::text::lemma_first_index(s@, 'v');
                    if s@.contains('v') {
                        let j = choose|j: int| 0 <= j < s@.len() && s@[j] == 'v';
                        assert(s@[j] == 'v');
                    }
                }
            },
        }
    }
    EntityRef::Unrecognized
}

/// The message for an entity reference in none of the accepted forms.
pub fn unrecognized_ref(s: &str) -> (m: String)
    ensures
        m@ == unrecognized_ref_message(s@),
{
    let mut m = String::from_str("无法识别实体引用 ");
    let q = debug_quote(s);
    push_str(&mut m, q.as_str());
    push_str(&mut m, "。可用写法: self / other / @实体名 / e3v1 句柄");
    m
}

/// The message for an unbound `self` / `other`.
pub fn unbound_ref(s: &str) -> (m: String)
    ensures
        m@ == unbound_ref_message(s@),
{
    let mut m = debug_quote(s);
    push_str(&mut m, " 没有绑定。self/other 只在对应触发器下有值（between 碰撞绑定 self+other，each 绑定 self）");
    m
}

/// An action target `entity.field-path`: the entity part and the path after the first `.`.
pub fn split_target(target: &str) -> (r: Result<(String, String), String>)
    ensures
        match split_first_dot(target@) {
            (e, Some(p)) => r matches Ok(x) && x.0@ == e && x.1@ == p,
            (_, None) => r matches Err(m) && m@ == "目标 "@ + debug_quoted(target@)
                + " 缺少字段路径。写法: \"self.组件.字段\"，如 \"self.Score.value\""@,
        },
{
    let (e, p) = split_at_first_dot(target);
    match p {
        Some(p) => Ok((e, p)),
        None => {
            let mut m = String::from_str("目标 ");
            let q = debug_quote(target);
            push_str(&mut m, q.as_str());
            push_str(&mut m, " 缺少字段路径。写法: \"self.组件.字段\"，如 \"self.Score.value\"");
            Err(m)
        },
    }
}

/// The value of `event.<field>` (`s` is the whole reference, `field` the part after `event.`).
pub open spec fn event_field_spec(event: Option<EventV>, s: Seq<char>, field: Seq<char>) -> Result<JsonV, Seq<char>> {
    match event {
        None => Err("引用了 "@ + debug_quoted(s) + "，但该规则不是事件触发的（tick 规则没有 event 上下文）"@),
        Some(e) => match entries_get(e.data, field) {
            Some(v) => Ok(v),
            None => Err("事件 "@ + debug_quoted(e.name) + " 没有字段 "@ + debug_quoted(field) + "，现有字段: ["@
                + join(e.data.map_values(|kv: (Seq<char>, JsonV)| kv.0), ", "@) + "]"@),
        },
    }
}

/// The value of `event.<field>` (see [`event_field_spec`]).
pub fn event_field(event: Option<&Event>, s: &str, field: &str) -> (r: Result<Json, String>)
    ensures
        match event_field_spec(match event { Some(e) => Some(e@), None => None }, s@, field@) {
            Ok(v) => r matches Ok(x) && x@ == v,
            Err(m) => r matches Err(e) && e@ == m,
        },
{
    match event {
        None => {
            let mut m = String::from_str("引用了 ");
            let q = debug_quote(s);
            push_str(&mut m, q.as_str());
            push_str(&mut m, "，但该规则不是事件触发的（tick 规则没有 event 上下文）");
            Err(m)
        },
        Some(e) => match crate::json::entries_lookup(&e.data, field) {
            Some(v) => Ok(v.deep_clone()),
            None => {
                let mut m = String::from_str("事件 ");
                let q = debug_quote(e.name.as_str());
                push_str(&mut m, q.as_str());
                push_str(&mut m, " 没有字段 ");
                let f = debug_quote(field);
                push_str(&mut m, f.as_str());
                push_str(&mut m, "，现有字段: [");
                let mut keys: Vec<&str> = Vec::new();
                let mut i: usize = 0;
                proof { crate::json::lemma_entries_view(e.data@); }
                while i < e.data.len()
                    invariant
                        i <= e.data@.len(),
                        keys@.len() == i,
                        entries_view(e.data@).len() == e.data@.len(),
                        forall|k: int| 0 <= k < e.data@.len() ==> #[trigger] entries_view(e.data@)[k] == (e.data@[k].0@, json_view(e.data@[k].1)),
                        forall|k: int| 0 <= k < i ==> (#[trigger] keys@[k])@ == e.data@[k].0@,
                    decreases e.data@.len() - i,
                {
                    keys.push(e.data[i].0.as_str());
                    i += 1;
                }
                proof {
                    assert(keys@.map_values(|t: &str| t@) =~= e@.data.map_values(|kv: (Seq<char>, JsonV)| kv.0));
                }
                let joined = join_strs(&keys, ", ");
                push_str(&mut m, joined.as_str());
                push_str(&mut m, "]");
                Err(m)
            },
        },
    }
}

// ---- integer addition ----

/// The decimal text of a signed integer.
pub open spec fn int_text(i: int) -> Seq<char> {
    if i < 0 { "-"@ + decimal((-i) as nat) } else { decimal(i as nat) }
}

pub(crate) fn push_i64(s: &mut String, v: i64)
    ensures
        final(s)@ == old(s)@ + int_text(v as int),
{
    if v < 0 {
        push_str(s, "-");
        let m: u64 = (0i128 - v as i128) as u64;
        push_decimal(s, m);
    } else {
        push_decimal(s, v as u64);
    }
}

// ---- actions ----

/// What one rule action asks for, read from its object (references in it are not resolved yet).
#[derive(Debug, PartialEq, Eq)]
pub enum ActionSpec {
    /// Write the value `to` into the field `target`.
    SetField { target: String, to: Json },
    /// Add the number `by` to the field `target`.
    Add { target: String, by: Json },
    /// Create an entity (named when `name` is given) with these components.
    Spawn { name: Option<String>, components: Vec<(String, Json)> },
    /// Remove the entity `target`.
    Despawn { target: String },
    /// Queue the event `name` with `data`.
    Emit { name: String, data: Json },
    /// Ask the script host to call `function` with `with`.
    Call { function: String, with: Json },
}

/// The content of an action.
pub enum ActionV {
    SetField { target: Seq<char>, to: JsonV },
    Add { target: Seq<char>, by: JsonV },
    Spawn { name: Option<Seq<char>>, components: Seq<(Seq<char>, JsonV)> },
    Despawn { target: Seq<char> },
    Emit { name: Seq<char>, data: JsonV },
    Call { function: Seq<char>, with: JsonV },
}

impl View for ActionSpec {
    type V = ActionV;

    open spec fn view(&self) -> ActionV {
        match self {
            ActionSpec::SetField { target, to } => ActionV::SetField { target: target@, to: to@ },
            ActionSpec::Add { target, by } => ActionV::Add { target: target@, by: by@ },
            ActionSpec::Spawn { name, components } => ActionV::Spawn {
                name: match name {
                    Some(n) => Some(n@),
                    None => None,
                },
                components: entries_view(components@),
            },
            ActionSpec::Despawn { target } => ActionV::Despawn { target: target@ },
            ActionSpec::Emit { name, data } => ActionV::Emit { name: name@, data: data@ },
            ActionSpec::Call { function, with } => ActionV::Call { function: function@, with: with@ },
        }
    }
}

/// The text under `key`, when it is a string.
pub open spec fn entry_text(m: Seq<(Seq<char>, JsonV)>, key: Seq<char>) -> Option<Seq<char>> {
    match entries_get(m, key) {
        Some(JsonV::Str(t)) => Some(t),
        _ => None,
    }
}

/// The value under `key`, or an empty object.
pub open spec fn entry_or_empty(m: Seq<(Seq<char>, JsonV)>, key: Seq<char>) -> JsonV {
    match entries_get(m, key) {
        Some(v) => v,
        None => JsonV::Object(Seq::empty()),
    }
}

pub open spec fn spawn_without_components() -> Seq<char> {
    "spawn 动作缺少 components 对象。写法: {\"spawn\": {\"components\": {...}}}"@
}

pub open spec fn unknown_action_kind() -> Seq<char> {
    "action is not any known kind (parse layer should have rejected it)"@
}

/// How an action object reads: the first kind key present (`set`, `add`, `spawn`, `despawn`,
/// `emit`, `call`, in that order; all but `spawn` need a text) with its companion fields, or the
/// message of what is missing.
pub open spec fn action_spec(m: Seq<(Seq<char>, JsonV)>) -> Result<ActionV, Seq<char>> {
    if entry_text(m, "set"@) is Some {
        match entries_get(m, "to"@) {
            Some(to) => Ok(ActionV::SetField { target: entry_text(m, "set"@)->0, to }),
            None => Err("set 动作缺少 to"@),
        }
    } else if entry_text(m, "add"@) is Some {
        match entries_get(m, "by"@) {
            Some(by) => Ok(ActionV::Add { target: entry_text(m, "add"@)->0, by }),
            None => Err("add 动作缺少 by"@),
        }
    } else if entries_get(m, "spawn"@) is Some {
        match entries_get(m, "spawn"@)->0 {
            JsonV::Object(sm) => match entries_get(sm, "components"@) {
                Some(JsonV::Object(c)) => Ok(ActionV::Spawn { name: entry_text(sm, "name"@), components: c }),
                _ => Err(spawn_without_components()),
            },
            _ => Err(spawn_without_components()),
        }
    } else if entry_text(m, "despawn"@) is Some {
        Ok(ActionV::Despawn { target: entry_text(m, "despawn"@)->0 })
    } else if entry_text(m, "emit"@) is Some {
        Ok(ActionV::Emit { name: entry_text(m, "emit"@)->0, data: entry_or_empty(m, "data"@) })
    } else if entry_text(m, "call"@) is Some {
        Ok(ActionV::Call { function: entry_text(m, "call"@)->0, with: entry_or_empty(m, "with"@) })
    } else {
        Err(unknown_action_kind())
    }
}

/// What a decoded action holds, read off the action object's own fields. Its kind is the first
/// of `set`, `add` (each with a text target), `spawn`, `despawn`, `emit`, `call` (with a text)
/// that the object carries:
/// - `set` with `to` writes that value to the `set` target, `add` with `by` adds that amount
///   to the `add` target;
/// - `spawn` with a `components` object spawns those components, named by its text `name`
///   when there is one;
/// - `despawn` names the entity to remove;
/// - `emit` names the event, with `data` as its data (an empty object when missing);
/// - `call` names the function, with `with` as its arguments (an empty object when missing).
pub proof fn lemma_decoded_action_fields(m: Seq<(Seq<char>, JsonV)>)
    ensures
        entries_get(m, "set"@) matches Some(JsonV::Str(t)) ==> (entries_get(m, "to"@) matches Some(v)
            ==> action_spec(m) == Ok::<ActionV, Seq<char>>(ActionV::SetField { target: t, to: v })),
        !(entries_get(m, "set"@) matches Some(JsonV::Str(_))) ==> (entries_get(m, "add"@) matches Some(JsonV::Str(t))
            ==> (entries_get(m, "by"@) matches Some(v)
            ==> action_spec(m) == Ok::<ActionV, Seq<char>>(ActionV::Add { target: t, by: v }))),
        (!(entries_get(m, "set"@) matches Some(JsonV::Str(_))) && !(entries_get(m, "add"@) matches Some(JsonV::Str(_))))
            ==> (entries_get(m, "spawn"@) matches Some(JsonV::Object(sm))
            ==> (entries_get(sm, "components"@) matches Some(JsonV::Object(c))
            ==> action_spec(m) == Ok::<ActionV, Seq<char>>(ActionV::Spawn {
                name: match entries_get(sm, "name"@) {
                    Some(JsonV::Str(n)) => Some(n),
                    _ => None::<Seq<char>>,
                },
                components: c,
            }))),
        (!(entries_get(m, "set"@) matches Some(JsonV::Str(_))) && !(entries_get(m, "add"@) matches Some(JsonV::Str(_)))
            && entries_get(m, "spawn"@) is None)
            ==> (entries_get(m, "despawn"@) matches Some(JsonV::Str(t))
            ==> action_spec(m) == Ok::<ActionV, Seq<char>>(ActionV::Despawn { target: t })),
        (!(entries_get(m, "set"@) matches Some(JsonV::Str(_))) && !(entries_get(m, "add"@) matches Some(JsonV::Str(_)))
            && entries_get(m, "spawn"@) is None && !(entries_get(m, "despawn"@) matches Some(JsonV::Str(_))))
            ==> (entries_get(m, "emit"@) matches Some(JsonV::Str(t))
            ==> action_spec(m) == Ok::<ActionV, Seq<char>>(ActionV::Emit {
                name: t,
                data: match entries_get(m, "data"@) {
                    Some(d) => d,
                    None => JsonV::Object(Seq::empty()),
                },
            })),
        (!(entries_get(m, "set"@) matches Some(JsonV::Str(_))) && !(entries_get(m, "add"@) matches Some(JsonV::Str(_)))
            && entries_get(m, "spawn"@) is None && !(entries_get(m, "despawn"@) matches Some(JsonV::Str(_)))
            && !(entries_get(m, "emit"@) matches Some(JsonV::Str(_))))
            ==> (entries_get(m, "call"@) matches Some(JsonV::Str(t))
            ==> action_spec(m) == Ok::<ActionV, Seq<char>>(ActionV::Call {
                function: t,
                with: match entries_get(m, "with"@) {
                    Some(w) => w,
                    None => JsonV::Object(Seq::empty()),
                },
            })),
{
}

fn lookup_text<'a>(m: &'a Vec<(String, Json)>, key: &str) -> (r: Option<&'a str>)
    ensures
        match r {
            Some(t) => entry_text(entries_view(m@), key@) == Some(t@),
            None => entry_text(entries_view(m@), key@) is None,
        },
{
    match entries_lookup(m, key) {
        Some(v) => v.as_str(),
        None => None,
    }
}

fn lookup_or_empty(m: &Vec<(String, Json)>, key: &str) -> (r: Json)
    ensures
        r@ == entry_or_empty(entries_view(m@), key@),
{
    match entries_lookup(m, key) {
        Some(v) => v.deep_clone(),
        None => {
            let r = Json::Object(Vec::new());
            proof { assert(entries_view(Seq::<(String, Json)>::empty()) =~= Seq::<(Seq<char>, JsonV)>::empty()); }
            r
        },
    }
}

fn exec_error(rule_id: &str, at: &str, message: &str) -> (e: RuleError)
    ensures
        e matches RuleError::Exec { rule, at: t, message: msg } && rule@ == rule_id@ && t@ == at@ && msg@ == message@,
{
    RuleError::Exec { rule: String::from_str(rule_id), at: String::from_str(at), message: String::from_str(message) }
}

/// Read what the action `action` of rule `rule_id` (at `at`) asks for; a kind whose companion
/// field is missing, or an action that is not an object at all, is a failure of that rule there.
pub fn decode_action(rule_id: &str, at: &str, action: &Json) -> (r: Result<ActionSpec, RuleError>)
    ensures
        match action@ {
            JsonV::Object(m) => match action_spec(m) {
                Ok(a) => r matches Ok(x) && x@ == a,
                Err(msg) => r matches Err(RuleError::Exec { rule, at: t, message })
                    && rule@ == rule_id@ && t@ == at@ && message@ == msg,
            },
            _ => r matches Err(RuleError::Exec { rule, at: t, message })
                && rule@ == rule_id@ && t@ == at@ && message@ == unknown_action_kind(),
        },
{
    let m = match action {
        Json::Object(m) => m,
        _ => return Err(exec_error(rule_id, at, "action is not any known kind (parse layer should have rejected it)")),
    };
    let ghost mv = entries_view(m@);
    proof { assert(action@->Object_0 == mv); }
    if let Some(target) = lookup_text(m, "set") {
        return match entries_lookup(m, "to") {
            Some(to) => Ok(ActionSpec::SetField { target: String::from_str(target), to: to.deep_clone() }),
            None => Err(exec_error(rule_id, at, "set 动作缺少 to")),
        };
    }
    if let Some(target) = lookup_text(m, "add") {
        return match entries_lookup(m, "by") {
            Some(by) => Ok(ActionSpec::Add { target: String::from_str(target), by: by.deep_clone() }),
            None => Err(exec_error(rule_id, at, "add 动作缺少 by")),
        };
    }
    if let Some(spec) = entries_lookup(m, "spawn") {
        return match spec {
            Json::Object(sm) => match entries_lookup(sm, "components") {
                Some(Json::Object(c)) => {
                    let name = match lookup_text(sm, "name") {
                        Some(n) => Some(String::from_str(n)),
                        None => None,
                    };
                    Ok(ActionSpec::Spawn { name, components: clone_entries(c) })
                },
                _ => Err(exec_error(rule_id, at, "spawn 动作缺少 components 对象。写法: {\"spawn\": {\"components\": {...}}}")),
            },
            _ => Err(exec_error(rule_id, at, "spawn 动作缺少 components 对象。写法: {\"spawn\": {\"components\": {...}}}")),
        };
    }
    if let Some(target) = lookup_text(m, "despawn") {
        return Ok(ActionSpec::Despawn { target: String::from_str(target) });
    }
    if let Some(name) = lookup_text(m, "emit") {
        return Ok(ActionSpec::Emit { name: String::from_str(name), data: lookup_or_empty(m, "data") });
    }
    if let Some(function) = lookup_text(m, "call") {
        return Ok(ActionSpec::Call { function: String::from_str(function), with: lookup_or_empty(m, "with") });
    }
    Err(exec_error(rule_id, at, "action is not any known kind (parse layer should have rejected it)"))
}

/// Add two integers of an `add` action; a sum outside `i64` is an error (never a wrap).
pub fn add_ints(a: i64, b: i64) -> (r: Result<i64, String>)
    ensures
        i64::MIN <= a + b <= i64::MAX ==> r == Ok::<i64, String>((a + b) as i64),
        !(i64::MIN <= a + b <= i64::MAX) ==> (r matches Err(m) && m@ == "add 整数溢出："@ + int_text(a as int) + " + "@
            + int_text(b as int) + " 超出 i64 范围"@),
{
    match a.checked_add(b) {
        Some(s) => Ok(s),
        None => {
            let mut m = String::from_str("add 整数溢出：");
            push_i64(&mut m, a);
            push_str(&mut m, " + ");
            push_i64(&mut m, b);
            push_str(&mut m, " 超出 i64 范围");
            Err(m)
        },
    }
}

// ---- the order in which one tick runs its rules ----

/// An event waiting in the tick's queue: how deep in the cascade it was emitted and the causal
/// chain that led to it.
#[derive(Debug, PartialEq, Eq)]
pub struct Queued {
    pub event: Event,
    pub depth: usize,
    pub chain: Vec<String>,
}

/// The content of a queued event.
pub struct QueuedV {
    pub event: EventV,
    pub depth: usize,
    pub chain: Seq<Seq<char>>,
}

impl View for Queued {
    type V = QueuedV;

    open spec fn view(&self) -> QueuedV {
        QueuedV { event: self.event@, depth: self.depth, chain: self.chain@.map_values(|t: String| t@) }
    }
}

/// What the tick does next.
#[derive(Debug, PartialEq, Eq)]
pub enum TickStep {
    /// Run the tick rule at this position (no event, no bindings).
    RunTickRule(usize),
    /// Run the event rule at position `rule` for the queued event `event` (collision binding,
    /// when the rule asks for one, is checked first by the caller).
    RunEventRule { rule: usize, event: usize },
    /// The queue is empty: the tick is over.
    Finished,
    /// An event lies deeper in the cascade than allowed.
    Overflow(RuleError),
}

/// The scheduler's state: the tick rules still to run, the event queue (processed from `head`
/// on, in arrival order), and the rules still to run for the event being processed.
pub struct SchedV {
    pub rule_count: int,
    pub tick_rules: Seq<int>,
    pub next_tick: int,
    pub queue: Seq<QueuedV>,
    pub head: int,
    pub current: Option<int>,
    pub candidates: Seq<int>,
    pub next_cand: int,
}

/// A step as the state machine sees it (positions and queue indices).
pub enum StepS {
    Tick(int),
    Event(int, int),
    Finished,
    Overflow(int),
}

/// The next step from a state, and the state after it: first every tick rule in file order;
/// then, event by event in arrival order, every rule that event fires in file order; an event
/// deeper than [`MAX_CASCADE_DEPTH`] stops the tick (the step names it).
pub open spec fn next_spec(v: SchedV, rules: Seq<RuleV>) -> (SchedV, StepS)
    decreases v.queue.len() - v.head,
{
    if 0 <= v.next_tick < v.tick_rules.len() {
        (SchedV { next_tick: v.next_tick + 1, ..v }, StepS::Tick(v.tick_rules[v.next_tick]))
    } else if v.current is Some && 0 <= v.next_cand < v.candidates.len() {
        (SchedV { next_cand: v.next_cand + 1, ..v }, StepS::Event(v.candidates[v.next_cand], v.current->0))
    } else if 0 <= v.head < v.queue.len() {
        if v.queue[v.head].depth > MAX_CASCADE_DEPTH {
            (SchedV { head: v.head + 1, current: None, ..v }, StepS::Overflow(v.head))
        } else {
            next_spec(SchedV {
                head: v.head + 1,
                current: Some(v.head),
                candidates: fired_by(rules, v.queue[v.head].event),
                next_cand: 0,
                ..v
            }, rules)
        }
    } else {
        (v, StepS::Finished)
    }
}

/// The context an emission happens in: the event being processed (its depth and chain), or
/// the tick itself (depth 0, no chain).
pub open spec fn emit_context(v: SchedV) -> (int, Seq<Seq<char>>) {
    match v.current {
        Some(c) => (v.queue[c].depth as int, v.queue[c].chain),
        None => (0, Seq::empty()),
    }
}

/// The order in which one tick runs its rules.
pub struct TickScheduler {
    rule_count: usize,
    tick_rules: Vec<usize>,
    next_tick: usize,
    queue: Vec<Queued>,
    head: usize,
    current: Option<usize>,
    candidates: Vec<usize>,
    next_cand: usize,
}

impl View for TickScheduler {
    type V = SchedV;

    closed spec fn view(&self) -> SchedV {
        SchedV {
            rule_count: self.rule_count as int,
            tick_rules: positions(self.tick_rules@),
            next_tick: self.next_tick as int,
            queue: self.queue@.map_values(|q: Queued| q@),
            head: self.head as int,
            current: match self.current { Some(c) => Some(c as int), None => None },
            candidates: positions(self.candidates@),
            next_cand: self.next_cand as int,
        }
    }
}

impl SchedV {
    /// The event being processed is in the queue and within the depth limit; positions fit.
    pub open spec fn wf(self) -> bool {
        &&& 0 <= self.next_tick <= self.tick_rules.len()
        &&& forall|i: int| 0 <= i < self.tick_rules.len() ==> 0 <= #[trigger] self.tick_rules[i] < self.rule_count
        &&& forall|i: int| 0 <= i < self.candidates.len() ==> 0 <= #[trigger] self.candidates[i] < self.rule_count
        &&& 0 <= self.head <= self.queue.len()
        &&& 0 <= self.next_cand <= self.candidates.len()
        &&& (self.current matches Some(c) ==> 0 <= c < self.queue.len() && self.queue[c].depth <= MAX_CASCADE_DEPTH)
    }
}

proof fn lemma_positions_in_range(rules: Seq<RuleV>, e: EventV)
    ensures
        forall|i: int| 0 <= i < fired_by(rules, e).len() ==> 0 <= #[trigger] fired_by(rules, e)[i] < rules.len(),
        forall|i: int| 0 <= i < tick_rules(rules).len() ==> 0 <= #[trigger] tick_rules(rules)[i] < rules.len(),
    decreases rules.len(),
{
    if rules.len() > 0 {
        lemma_positions_in_range(rules.drop_last(), e);
        let f = fired_by(rules.drop_last(), e);
        let t = tick_rules(rules.drop_last());
        assert forall|i: int| 0 <= i < fired_by(rules, e).len() implies 0 <= #[trigger] fired_by(rules, e)[i] < rules.len() by {
            if i < f.len() {
                assert(fired_by(rules, e)[i] == f[i]);
            }
        }
        assert forall|i: int| 0 <= i < tick_rules(rules).len() implies 0 <= #[trigger] tick_rules(rules)[i] < rules.len() by {
            if i < t.len() {
                assert(tick_rules(rules)[i] == t[i]);
            }
        }
    }
}

impl TickScheduler {
    /// A tick over `rules` whose queue starts with the externally produced `inbox` events (depth
    /// 0, empty chains).
    pub fn new(rules: &RuleSet, inbox: Vec<Event>) -> (s: TickScheduler)
        ensures
            s@.wf(),
            s@.rule_count == rules.rules@.len(),
            s@.tick_rules == tick_rules(rules_view(rules.rules@)),
            s@.next_tick == 0,
            s@.queue == inbox@.map_values(|e: Event| QueuedV { event: e@, depth: 0, chain: Seq::empty() }),
            s@.head == 0,
            s@.current is None,
    {
        let tr = tick_rule_positions(rules);
        let mut queue: Vec<Queued> = Vec::new();
        let mut i: usize = 0;
        while i < inbox.len()
            invariant
                i <= inbox@.len(),
                queue@.len() == i,
                forall|k: int| 0 <= k < i ==> (#[trigger] queue@[k])@ == (QueuedV { event: inbox@[k]@, depth: 0, chain: Seq::empty() }),
            decreases inbox@.len() - i,
        {
            let chain: Vec<String> = Vec::new();
            proof { assert(chain@.map_values(|t: String| t@) =~= Seq::<Seq<char>>::empty()); }
            queue.push(Queued { event: inbox[i].copy(), depth: 0, chain });
            i += 1;
        }
        proof {
            assert(queue@.map_values(|q: Queued| q@) =~= inbox@.map_values(|e: Event| QueuedV { event: e@, depth: 0, chain: Seq::empty() }));
        }
        let s = TickScheduler { rule_count: rules.rules.len(), tick_rules: tr, next_tick: 0, queue, head: 0, current: None, candidates: Vec::new(), next_cand: 0 };
        proof {
            lemma_positions_in_range(rules_view(rules.rules@), EventV { name: Seq::empty(), data: Seq::empty() });
            assert(s@.candidates =~= Seq::<int>::empty());
        }
        s
    }

    /// The queued event at `i`.
    pub fn event(&self, i: usize) -> (e: &Event)
        requires
            i < self@.queue.len(),
        ensures
            e@ == self@.queue[i as int].event,
    {
        &self.queue[i].event
    }

    /// The next step of the tick (see [`next_spec`]).
    pub fn next(&mut self, rules: &RuleSet) -> (step: TickStep)
        requires
            old(self)@.wf(),
            old(self)@.rule_count == rules.rules@.len(),
        ensures
            final(self)@.wf(),
            final(self)@ == next_spec(old(self)@, rules_view(rules.rules@)).0,
            match next_spec(old(self)@, rules_view(rules.rules@)).1 {
                StepS::Tick(r) => step == TickStep::RunTickRule(r as usize) && r < rules.rules@.len(),
                StepS::Event(r, e) => step == (TickStep::RunEventRule { rule: r as usize, event: e as usize })
                    && r < rules.rules@.len() && e < final(self)@.queue.len(),
                StepS::Finished => step == TickStep::Finished,
                StepS::Overflow(i) => step matches TickStep::Overflow(RuleError::CascadeOverflow { depth, chain })
                    && depth == MAX_CASCADE_DEPTH && chain@.map_values(|t: String| t@) == old(self)@.queue[i].chain,
            },
    {
        let ghost target = next_spec(old(self)@, rules_view(rules.rules@));
        let ghost q0 = old(self)@.queue;
        loop
            invariant
                self@.wf(),
                self@.rule_count == rules.rules@.len(),
                self@.queue == q0,
                q0 == old(self)@.queue,
                target == next_spec(old(self)@, rules_view(rules.rules@)),
                next_spec(self@, rules_view(rules.rules@)) == target,
            decreases self@.queue.len() - self@.head,
        {
            let ghost cur = self@;
            if self.next_tick < self.tick_rules.len() {
                let r = self.tick_rules[self.next_tick];
                self.next_tick = self.next_tick + 1;
                proof {
                    assert(next_spec(cur, rules_view(rules.rules@)).0 == SchedV { next_tick: cur.next_tick + 1, ..cur });
                    assert(self@ == SchedV { next_tick: cur.next_tick + 1, ..cur });
                }
                return TickStep::RunTickRule(r);
            }
            match self.current {
                Some(e) => {
                    if self.next_cand < self.candidates.len() {
                        let r = self.candidates[self.next_cand];
                        self.next_cand = self.next_cand + 1;
                        proof {
                            assert(self@ == SchedV { next_cand: cur.next_cand + 1, ..cur });
                        }
                        return TickStep::RunEventRule { rule: r, event: e };
                    }
                },
                None => {},
            }
            if self.head < self.queue.len() {
                let e = self.head;
                self.head = self.head + 1;
                if self.queue[e].depth > MAX_CASCADE_DEPTH {
                    self.current = None;
                    let mut c: Vec<String> = Vec::new();
                    let mut k: usize = 0;
                    while k < self.queue[e].chain.len()
                        invariant
                            e < self.queue@.len(),
                            k <= self.queue@[e as int].chain@.len(),
                            c@.len() == k,
                            forall|j: int| 0 <= j < k ==> (#[trigger] c@[j])@ == self.queue@[e as int].chain@[j]@,
                        decreases self.queue@[e as int].chain@.len() - k,
                    {
                        c.push(self.queue[e].chain[k].clone());
                        k += 1;
                    }
                    proof {
                        assert(c@.map_values(|t: String| t@) =~= self.queue@[e as int].chain@.map_values(|t: String| t@));
                    }
                    proof {
                        assert(self@ == SchedV { head: cur.head + 1, current: None, ..cur });
                    }
                    return TickStep::Overflow(RuleError::CascadeOverflow { depth: MAX_CASCADE_DEPTH, chain: c });
                }
                let cands = event_rules(rules, &self.queue[e].event);
                proof { lemma_positions_in_range(rules_view(rules.rules@), self.queue@[e as int]@.event); }
                self.current = Some(e);
                self.candidates = cands;
                self.next_cand = 0;
            } else {
                proof { assert(self@ == cur); }
                return TickStep::Finished;
            }
        }
    }

    /// Queue an event emitted by the rule `rule_id`: it runs after everything already queued,
    /// one level deeper than what emitted it, its chain extended by `rule_id→name`.
    pub fn emit(&mut self, rule_id: &str, event: Event)
        requires
            old(self)@.wf(),
        ensures
            final(self)@.wf(),
            final(self)@ == (SchedV {
                queue: old(self)@.queue.push(QueuedV {
                    event: event@,
                    depth: (emit_context(old(self)@).0 + 1) as usize,
                    chain: emit_context(old(self)@).1.push(rule_id@ + "→"@ + event@.name),
                }),
                ..old(self)@
            }),
    {
        let (depth, chain) = match self.current {
            Some(c) => (self.queue[c].depth + 1, extend_chain(&self.queue[c].chain, rule_id, event.name.as_str())),
            None => {
                let empty: Vec<String> = Vec::new();
                proof { assert(empty@.map_values(|t: String| t@) =~= Seq::<Seq<char>>::empty()); }
                (1, extend_chain(&empty, rule_id, event.name.as_str()))
            },
        };
        let ghost pre = self@;
        self.queue.push(Queued { event, depth, chain });
        proof {
            assert(self@.queue =~= pre.queue.push(QueuedV {
                event: self.queue@[pre.queue.len() as int].event@,
                depth,
                chain: self.queue@[pre.queue.len() as int].chain@.map_values(|t: String| t@),
            }));
        }
    }
}

} // verus!
