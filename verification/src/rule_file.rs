//! Validation of rule files (`{"rules": [ ... ]}`): every structural problem of every rule is
//! reported at once, each with a stable code, a JSON path, a message and a fix hint.
use vstd::prelude::*;
use crate::json::{
    array_spec, clone_entries, entries_get, entries_view, get_spec, get_str_spec,
    str_spec, Json, JsonV,
};
use crate::rules::{conditions_view, rules_view, strings_view, values_view, Rule, RuleSet, RuleV, Trigger, TriggerV};
use crate::text::{debug_quote, debug_quoted, decimal, push_decimal, push_str, str_eq};

verus! {

/// One validation problem: stable code, JSON path, message, fix hint.
#[derive(Debug, PartialEq, Eq)]
pub struct Issue {
    pub code: String,
    pub path: String,
    pub message: String,
    pub hint: String,
}

/// The content of an issue.
pub struct IssueV {
    pub code: Seq<char>,
    pub path: Seq<char>,
    pub message: Seq<char>,
    pub hint: Seq<char>,
}

impl View for Issue {
    type V = IssueV;

    open spec fn view(&self) -> IssueV {
        IssueV { code: self.code@, path: self.path@, message: self.message@, hint: self.hint@ }
    }
}

/// All problems found in one validation pass.
#[derive(Debug, PartialEq, Eq)]
pub struct ValidationReport {
    pub errors: Vec<Issue>,
}

/// The contents of a sequence of issues.
pub open spec fn issues_view(s: Seq<Issue>) -> Seq<IssueV> {
    s.map_values(|i: Issue| i@)
}

pub open spec fn iv(code: Seq<char>, path: Seq<char>, message: Seq<char>, hint: Seq<char>) -> IssueV {
    IssueV { code, path, message, hint }
}

// ---- the issues a rule file can have ----

pub open spec fn vr001(file: Seq<char>) -> IssueV {
    iv("VR001"@, file + "#/rules"@, "规则文件缺少 rules 数组"@,
        "顶层结构: {\"rules\": [ {\"id\":..., \"on\":..., \"do\":[...]} ]}"@)
}

pub open spec fn vr002(rpath: Seq<char>, id: Seq<char>) -> IssueV {
    iv("VR002"@, rpath + "/id"@, "规则 id "@ + debug_quoted(id) + " 重复"@,
        "规则 id 全局唯一，错误信息和调试都靠它定位"@)
}

pub open spec fn vr003(rpath: Seq<char>) -> IssueV {
    iv("VR003"@, rpath + "/id"@, "规则缺少 id（非空文本）"@, "给规则起个能说明意图的 id，如 \"collect-coin\""@)
}

pub open spec fn vr004_names(rpath: Seq<char>) -> IssueV {
    iv("VR004"@, rpath + "/on/between"@, "between 必须是两个组件名"@, "写法: \"between\": [\"Player\", \"Coin\"]"@)
}

pub open spec fn vr004_array(rpath: Seq<char>) -> IssueV {
    iv("VR004"@, rpath + "/on/between"@, "between 必须是两个组件名的数组"@, "写法: \"between\": [\"Player\", \"Coin\"]"@)
}

pub open spec fn vr005(rpath: Seq<char>) -> IssueV {
    iv("VR005"@, rpath + "/on"@, "between 只能配 collision 事件"@, "其他事件用 filter 做字段过滤"@)
}

pub open spec fn vr006_event(rpath: Seq<char>) -> IssueV {
    iv("VR006"@, rpath + "/on"@, "on 对象缺少 event 字段"@,
        "写法: \"on\": {\"event\": \"collision\"} 或 \"on\": \"tick\""@)
}

pub open spec fn vr006_missing(rpath: Seq<char>) -> IssueV {
    iv("VR006"@, rpath + "/on"@, "规则缺少触发器 on"@, "写法: \"on\": \"tick\" 或 \"on\": {\"event\": \"事件名\"}"@)
}

pub open spec fn vr007_empty(rpath: Seq<char>) -> IssueV {
    iv("VR007"@, rpath + "/each"@, "each 必须是非空组件名数组"@, "写法: \"each\": [\"Position\", \"Velocity\"]"@)
}

pub open spec fn vr007_array(rpath: Seq<char>) -> IssueV {
    iv("VR007"@, rpath + "/each"@, "each 必须是组件名数组"@, "写法: \"each\": [\"Position\", \"Velocity\"]"@)
}

pub open spec fn vr008_array(rpath: Seq<char>) -> IssueV {
    iv("VR008"@, rpath + "/if"@, "if 必须是条件数组"@,
        "每个条件是 [左, 操作符, 右] 三元组，如 [\"self.Health.hp\", \"<=\", 0]"@)
}

pub open spec fn vr008_shape(cpath: Seq<char>) -> IssueV {
    iv("VR008"@, cpath, "条件必须是 [路径, 操作符, 值] 三元组（exists/!exists 可省略第三项）"@,
        "例: [\"self.Health.hp\", \"<\", 10] 或 [\"self.Shield\", \"exists\"]"@)
}

pub open spec fn vr009(cpath: Seq<char>, op: Seq<char>) -> IssueV {
    iv("VR009"@, cpath, "未知操作符 "@ + debug_quoted(op), "可用操作符: [==, !=, <, <=, >, >=, exists, !exists]"@)
}

pub open spec fn vr010_object(apath: Seq<char>) -> IssueV {
    iv("VR010"@, apath, "动作必须是对象"@, "例: {\"set\": \"self.Health.hp\", \"to\": 100}"@)
}

pub open spec fn vr010_kind(apath: Seq<char>) -> IssueV {
    iv("VR010"@, apath, "动作不属于任何已知类型"@, "动作类型: [set, add, spawn, despawn, emit, call]，按对象的键识别"@)
}

pub open spec fn vr011(rpath: Seq<char>) -> IssueV {
    iv("VR011"@, rpath + "/do"@, "规则缺少非空 do 数组"@, "没有动作的规则什么也不会发生；至少写一个动作"@)
}

/// The condition operators.
pub open spec fn is_operator(op: Seq<char>) -> bool {
    op == "=="@ || op == "!="@ || op == "<"@ || op == "<="@ || op == ">"@ || op == ">="@
        || op == "exists"@ || op == "!exists"@
}

/// Whether an action object names one of the action kinds by a key.
pub open spec fn names_action_kind(m: Seq<(Seq<char>, JsonV)>) -> bool {
    entries_get(m, "set"@) is Some || entries_get(m, "add"@) is Some || entries_get(m, "spawn"@) is Some
        || entries_get(m, "despawn"@) is Some || entries_get(m, "emit"@) is Some
        || entries_get(m, "call"@) is Some
}

// ---- what each part of a rule contributes ----

/// The `id` part: the issues it raises and whether it breaks the rule.
pub open spec fn id_part(doc: JsonV, rpath: Seq<char>) -> (Seq<IssueV>, bool) {
    match get_str_spec(doc, "id"@) {
        Some(s) => if s.len() > 0 { (Seq::empty(), false) } else { (seq![vr003(rpath)], true) },
        None => (seq![vr003(rpath)], true),
    }
}

/// Outcome of a part that may end the rule's validation early.
pub enum PartV<T> {
    /// Validation of this rule stops here, with these issues.
    Abort(Seq<IssueV>),
    /// The part's value, its issues, and whether it breaks the rule.
    Done(T, Seq<IssueV>, bool),
}

/// The `between` field of an event trigger.
pub open spec fn between_part(o: JsonV, rpath: Seq<char>) -> PartV<Option<(Seq<char>, Seq<char>)>> {
    match get_spec(o, "between"@) {
        None => PartV::Done(None, Seq::empty(), false),
        Some(JsonV::Array(arr)) =>
            if arr.len() == 2 {
                match (str_spec(arr[0]), str_spec(arr[1])) {
                    (Some(a), Some(b)) => PartV::Done(Some((a, b)), Seq::empty(), false),
                    _ => PartV::Abort(seq![vr004_names(rpath)]),
                }
            } else {
                PartV::Abort(seq![vr004_array(rpath)])
            },
        Some(_) => PartV::Abort(seq![vr004_array(rpath)]),
    }
}

/// The `filter` of an event trigger: its entries when it is an object, none otherwise.
pub open spec fn filter_of(o: JsonV) -> Seq<(Seq<char>, JsonV)> {
    match get_spec(o, "filter"@) {
        Some(JsonV::Object(m)) => m,
        _ => Seq::empty(),
    }
}

/// The `on` part: the trigger (if any can be read), its issues and whether it breaks the rule.
pub open spec fn on_part(doc: JsonV, rpath: Seq<char>) -> PartV<Option<TriggerV>> {
    match get_spec(doc, "on"@) {
        Some(JsonV::Str(s)) =>
            if s == "tick"@ {
                PartV::Done(Some(TriggerV::Tick), Seq::empty(), false)
            } else {
                PartV::Done(None, seq![vr006_missing(rpath)], false)
            },
        Some(JsonV::Object(m)) => {
            let o = JsonV::Object(m);
            match get_str_spec(o, "event"@) {
                Some(name) => match between_part(o, rpath) {
                    PartV::Abort(iss) => PartV::Abort(iss),
                    PartV::Done(between, _, _) => {
                        let wrong = between is Some && name != "collision"@;
                        PartV::Done(
                            Some(TriggerV::Event { name, filter: filter_of(o), between }),
                            if wrong { seq![vr005(rpath)] } else { Seq::empty() },
                            wrong,
                        )
                    },
                },
                None => PartV::Done(None, seq![vr006_event(rpath)], false),
            }
        },
        _ => PartV::Done(None, seq![vr006_missing(rpath)], false),
    }
}

/// Whether every element is a string.
pub open spec fn all_strings(arr: Seq<JsonV>) -> bool {
    forall|i: int| 0 <= i < arr.len() ==> (#[trigger] arr[i]) is Str
}

/// The texts of an array of strings.
pub open spec fn texts_of(arr: Seq<JsonV>) -> Seq<Seq<char>> {
    arr.map_values(|v: JsonV| str_spec(v)->0)
}

/// The `each` part.
pub open spec fn each_part(doc: JsonV, rpath: Seq<char>) -> (Option<Seq<Seq<char>>>, Seq<IssueV>, bool) {
    match get_spec(doc, "each"@) {
        None => (None, Seq::empty(), false),
        Some(JsonV::Array(arr)) =>
            if all_strings(arr) && arr.len() > 0 {
                (Some(texts_of(arr)), Seq::empty(), false)
            } else {
                (None, seq![vr007_empty(rpath)], true)
            },
        Some(_) => (None, seq![vr007_array(rpath)], true),
    }
}

/// The operators that take no value: a condition with one of them may leave out its third item.
pub open spec fn is_presence_operator(op: Seq<char>) -> bool {
    op == "exists"@ || op == "!exists"@
}

/// Whether a condition has the `[text, text, value]` shape, or the `[text, op]` shape with
/// `exists` / `!exists` as the operator.
pub open spec fn condition_shaped(c: JsonV) -> bool {
    match c {
        JsonV::Array(p) => p[0] is Str && p[1] is Str
            && (p.len() == 3 || (p.len() == 2 && is_presence_operator(str_spec(p[1])->0))),
        _ => false,
    }
}

/// One condition at path `cpath`: the triple it contributes, or the issue it raises.
pub open spec fn condition_step(c: JsonV, cpath: Seq<char>) -> Result<(Seq<char>, Seq<char>, JsonV), IssueV> {
    if !condition_shaped(c) {
        Err(vr008_shape(cpath))
    } else {
        let p = array_spec(c)->0;
        let left = str_spec(p[0])->0;
        let op = str_spec(p[1])->0;
        if !is_operator(op) {
            Err(vr009(cpath, op))
        } else {
            Ok((left, op, if p.len() == 3 { p[2] } else { JsonV::Null }))
        }
    }
}

/// The path of element `i` under `base`.
pub open spec fn indexed(base: Seq<char>, i: int) -> Seq<char> {
    base + "/"@ + decimal(i as nat)
}

/// The first `n` conditions of `arr`: the triples they contribute and their issues.
pub open spec fn conditions_prefix(arr: Seq<JsonV>, rpath: Seq<char>, n: int) -> (Seq<(Seq<char>, Seq<char>, JsonV)>, Seq<IssueV>)
    decreases n,
{
    if n <= 0 {
        (Seq::empty(), Seq::empty())
    } else {
        let (cs, iss) = conditions_prefix(arr, rpath, n - 1);
        match condition_step(arr[n - 1], indexed(rpath + "/if"@, n - 1)) {
            Ok(c) => (cs.push(c), iss),
            Err(e) => (cs, iss.push(e)),
        }
    }
}

/// The `if` part.
pub open spec fn if_part(doc: JsonV, rpath: Seq<char>) -> PartV<Seq<(Seq<char>, Seq<char>, JsonV)>> {
    match get_spec(doc, "if"@) {
        None => PartV::Done(Seq::empty(), Seq::empty(), false),
        Some(JsonV::Array(arr)) => {
            let (cs, iss) = conditions_prefix(arr, rpath, arr.len() as int);
            PartV::Done(cs, iss, iss.len() > 0)
        },
        Some(_) => PartV::Abort(seq![vr008_array(rpath)]),
    }
}

/// The first `n` actions of `arr`: the actions they contribute and their issues.
pub open spec fn actions_prefix(arr: Seq<JsonV>, rpath: Seq<char>, n: int) -> (Seq<JsonV>, Seq<IssueV>)
    decreases n,
{
    if n <= 0 {
        (Seq::empty(), Seq::empty())
    } else {
        let (acts, iss) = actions_prefix(arr, rpath, n - 1);
        let apath = indexed(rpath + "/do"@, n - 1);
        match arr[n - 1] {
            JsonV::Object(m) =>
                if names_action_kind(m) {
                    (acts.push(arr[n - 1]), iss)
                } else {
                    (acts, iss.push(vr010_kind(apath)))
                },
            _ => (acts, iss.push(vr010_object(apath))),
        }
    }
}

/// The `do` part.
pub open spec fn do_part(doc: JsonV, rpath: Seq<char>) -> (Seq<JsonV>, Seq<IssueV>, bool) {
    match get_spec(doc, "do"@) {
        Some(JsonV::Array(arr)) =>
            if arr.len() > 0 {
                let (acts, iss) = actions_prefix(arr, rpath, arr.len() as int);
                (acts, iss, iss.len() > 0)
            } else {
                (Seq::empty(), seq![vr011(rpath)], true)
            },
        _ => (Seq::empty(), seq![vr011(rpath)], true),
    }
}

/// One rule document at `rpath`: the rule it yields (when it is sound) and all its issues, in
/// the order `id`, `on`, `each`, `if`, `do`. A malformed `between` or a non-array `if` ends
/// the rule's validation at that point.
pub open spec fn rule_outcome(doc: JsonV, rpath: Seq<char>) -> (Option<RuleV>, Seq<IssueV>) {
    let (id_iss, b1) = id_part(doc, rpath);
    match on_part(doc, rpath) {
        PartV::Abort(on_iss) => (None, id_iss + on_iss),
        PartV::Done(trigger, on_iss, b2) => {
            let (each, each_iss, b3) = each_part(doc, rpath);
            match if_part(doc, rpath) {
                PartV::Abort(if_iss) => (None, id_iss + on_iss + each_iss + if_iss),
                PartV::Done(conds, if_iss, b4) => {
                    let (acts, do_iss, b5) = do_part(doc, rpath);
                    let issues = id_iss + on_iss + each_iss + if_iss + do_iss;
                    if b1 || b2 || b3 || b4 || b5 || trigger is None {
                        (None, issues)
                    } else {
                        (Some(RuleV {
                            id: get_str_spec(doc, "id"@)->0,
                            trigger: trigger->0,
                            each,
                            conditions: conds,
                            actions: acts,
                        }), issues)
                    }
                },
            }
        },
    }
}

/// The path of rule `i` of `file`.
pub open spec fn rule_path(file: Seq<char>, i: int) -> Seq<char> {
    indexed(file + "#/rules"@, i)
}

/// The first `n` rule documents: the rules they yield, all issues (a duplicate id is reported
/// before the rule's own issues), and the ids seen.
pub open spec fn rules_prefix(docs: Seq<JsonV>, file: Seq<char>, n: int) -> (Seq<RuleV>, Seq<IssueV>, Seq<Seq<char>>)
    decreases n,
{
    if n <= 0 {
        (Seq::empty(), Seq::empty(), Seq::empty())
    } else {
        let (rs, iss, seen) = rules_prefix(docs, file, n - 1);
        let doc = docs[n - 1];
        let rpath = rule_path(file, n - 1);
        let (iss2, seen2) = match get_str_spec(doc, "id"@) {
            Some(id) => (if seen.contains(id) { iss.push(vr002(rpath, id)) } else { iss }, seen.push(id)),
            None => (iss, seen),
        };
        let (r, riss) = rule_outcome(doc, rpath);
        (match r {
            Some(x) => rs.push(x),
            None => rs,
        }, iss2 + riss, seen2)
    }
}

/// A rule file's validation: the rules when no issue is found, every issue otherwise.
pub open spec fn parse_outcome(doc: JsonV, file: Seq<char>) -> Result<Seq<RuleV>, Seq<IssueV>> {
    match get_spec(doc, "rules"@) {
        Some(JsonV::Array(docs)) => {
            let (rs, iss, _) = rules_prefix(docs, file, docs.len() as int);
            if iss.len() == 0 { Ok(rs) } else { Err(iss) }
        },
        _ => Err(seq![vr001(file)]),
    }
}

// ---- what a parsed rule holds ----

/// A collision rule binds in the order written: for a rule whose `on.between` is the pair of
/// texts `[a, b]`, the parsed trigger's `between` is `(a, b)` (self is the `a` entity, other the
/// `b` entity); a rule without `on.between` has none.
pub proof fn lemma_rule_between(doc: JsonV, rpath: Seq<char>, o: JsonV)
    requires
        rule_outcome(doc, rpath).0 is Some,
        get_spec(doc, "on"@) == Some(o),
    ensures
        match get_spec(o, "between"@) {
            Some(JsonV::Array(p)) => p.len() == 2 ==> (p[0] matches JsonV::Str(a) && p[1] matches JsonV::Str(b)
                && rule_outcome(doc, rpath).0->0.trigger matches TriggerV::Event { between, .. }
                && between == Some((a, b))),
            None => o is Object ==> (rule_outcome(doc, rpath).0->0.trigger matches TriggerV::Event { between, .. }
                && between is None),
            _ => true,
        },
{
}

/// A rule runs per entity exactly as listed: for a rule whose `each` is a non-empty array of
/// texts, the parsed rule's `each` holds exactly those texts in order; a rule without `each` has
/// none.
pub proof fn lemma_rule_each(doc: JsonV, rpath: Seq<char>)
    requires
        rule_outcome(doc, rpath).0 is Some,
    ensures
        match get_spec(doc, "each"@) {
            Some(JsonV::Array(p)) => rule_outcome(doc, rpath).0->0.each matches Some(es)
                && es.len() == p.len() && p.len() > 0
                && forall|i: int| 0 <= i < p.len() ==> p[i] == JsonV::Str(#[trigger] es[i]),
            None => rule_outcome(doc, rpath).0->0.each is None,
            _ => false,
        },
{
    match get_spec(doc, "each"@) {
        Some(JsonV::Array(p)) => {
            let es = texts_of(p);
            assert forall|i: int| 0 <= i < p.len() implies p[i] == JsonV::Str(#[trigger] es[i]) by {
                assert(p[i] is Str);
            }
        },
        _ => {},
    }
}

proof fn lemma_clean_conditions(arr: Seq<JsonV>, rpath: Seq<char>, n: int)
    requires
        0 <= n <= arr.len(),
        conditions_prefix(arr, rpath, n).1.len() == 0,
    ensures
        conditions_prefix(arr, rpath, n).0.len() == n,
        forall|i: int| 0 <= i < n ==> condition_step(arr[i], indexed(rpath + "/if"@, i))
            == Ok::<(Seq<char>, Seq<char>, JsonV), IssueV>(#[trigger] conditions_prefix(arr, rpath, n).0[i]),
    decreases n,
{
    if n > 0 {
        lemma_clean_conditions(arr, rpath, n - 1);
        let (cs, iss) = conditions_prefix(arr, rpath, n - 1);
        let cs2 = conditions_prefix(arr, rpath, n).0;
        match condition_step(arr[n - 1], indexed(rpath + "/if"@, n - 1)) {
            Ok(c) => {
                assert forall|i: int| 0 <= i < n implies condition_step(arr[i], indexed(rpath + "/if"@, i))
                    == Ok::<(Seq<char>, Seq<char>, JsonV), IssueV>(#[trigger] cs2[i]) by {
                    if i < n - 1 { assert(cs2[i] == cs[i]); }
                }
            },
            Err(e) => { assert(iss.push(e).len() > 0); },
        }
    }
}

proof fn lemma_clean_actions(arr: Seq<JsonV>, rpath: Seq<char>, n: int)
    requires
        0 <= n <= arr.len(),
        actions_prefix(arr, rpath, n).1.len() == 0,
    ensures
        actions_prefix(arr, rpath, n).0 == arr.subrange(0, n),
    decreases n,
{
    if n > 0 {
        lemma_clean_actions(arr, rpath, n - 1);
        let (acts, iss) = actions_prefix(arr, rpath, n - 1);
        match arr[n - 1] {
            JsonV::Object(m) => {
                if names_action_kind(m) {
                    assert(acts.push(arr[n - 1]) =~= arr.subrange(0, n));
                } else {
                    assert(iss.push(vr010_kind(indexed(rpath + "/do"@, n - 1))).len() > 0);
                }
            },
            _ => { assert(iss.push(vr010_object(indexed(rpath + "/do"@, n - 1))).len() > 0); },
        }
    } else {
        assert(arr.subrange(0, 0) =~= Seq::<JsonV>::empty());
    }
}

/// What a parsed rule holds, read off its document: its `id` text; a tick trigger for `on:
/// "tick"`, or for an `on` object an event trigger named by `on.event` with `on.filter`'s
/// entries (none when it is not an object); one condition per `if` item, `[left, op, value]`
/// in order (value null when left out); and the `do` items as its actions, in order.
pub proof fn lemma_rule_fields(doc: JsonV, rpath: Seq<char>)
    requires
        rule_outcome(doc, rpath).0 is Some,
    ensures
        ({
            let r = rule_outcome(doc, rpath).0->0;
            &&& get_spec(doc, "id"@) == Some(JsonV::Str(r.id))
            &&& match get_spec(doc, "on"@) {
                Some(JsonV::Str(t)) => t == "tick"@ && r.trigger == TriggerV::Tick,
                Some(JsonV::Object(m)) => r.trigger matches TriggerV::Event { name, filter, .. }
                    && get_spec(JsonV::Object(m), "event"@) == Some(JsonV::Str(name))
                    && filter == match get_spec(JsonV::Object(m), "filter"@) {
                        Some(JsonV::Object(f)) => f,
                        _ => Seq::<(Seq<char>, JsonV)>::empty(),
                    },
                _ => false,
            }
            &&& match get_spec(doc, "if"@) {
                None => r.conditions.len() == 0,
                Some(JsonV::Array(p)) => r.conditions.len() == p.len()
                    && forall|i: int| 0 <= i < p.len() ==> (p[i] matches JsonV::Array(c)
                        && c[0] == JsonV::Str((#[trigger] r.conditions[i]).0) && c[1] == JsonV::Str(r.conditions[i].1)
                        && r.conditions[i].2 == (if c.len() == 3 { c[2] } else { JsonV::Null })),
                _ => false,
            }
            &&& get_spec(doc, "do"@) == Some(JsonV::Array(r.actions))
        }),
{
    let r = rule_outcome(doc, rpath).0->0;
    match get_spec(doc, "if"@) {
        Some(JsonV::Array(p)) => {
            lemma_clean_conditions(p, rpath, p.len() as int);
            assert forall|i: int| 0 <= i < p.len() implies (p[i] matches JsonV::Array(c)
                && c[0] == JsonV::Str((#[trigger] r.conditions[i]).0) && c[1] == JsonV::Str(r.conditions[i].1)
                && r.conditions[i].2 == (if c.len() == 3 { c[2] } else { JsonV::Null })) by {
                let step = condition_step(p[i], indexed(rpath + "/if"@, i));
                assert(step == Ok::<(Seq<char>, Seq<char>, JsonV), IssueV>(r.conditions[i]));
            }
        },
        _ => {},
    }
    match get_spec(doc, "do"@) {
        Some(JsonV::Array(arr)) => {
            if arr.len() > 0 {
                lemma_clean_actions(arr, rpath, arr.len() as int);
                assert(arr.subrange(0, arr.len() as int) =~= arr);
            }
        },
        _ => {},
    }
}

/// A rule document that raises no issue yields a rule.
proof fn lemma_clean_rule(doc: JsonV, rpath: Seq<char>)
    requires
        rule_outcome(doc, rpath).1.len() == 0,
    ensures
        rule_outcome(doc, rpath).0 is Some,
{
    let (id_iss, b1) = id_part(doc, rpath);
    match on_part(doc, rpath) {
        PartV::Abort(on_iss) => {
            assert(on_iss.len() > 0) by {
                match get_spec(doc, "on"@) {
                    Some(JsonV::Object(m)) => {
                        let o = JsonV::Object(m);
                        match between_part(o, rpath) {
                            PartV::Abort(iss) => {},
                            _ => {},
                        }
                    },
                    _ => {},
                }
            }
            assert((id_iss + on_iss).len() >= on_iss.len());
        },
        PartV::Done(trigger, on_iss, b2) => {
            let (each, each_iss, b3) = each_part(doc, rpath);
            match if_part(doc, rpath) {
                PartV::Abort(if_iss) => {
                    assert((id_iss + on_iss + each_iss + if_iss).len() >= if_iss.len());
                },
                PartV::Done(conds, if_iss, b4) => {
                    let (acts, do_iss, b5) = do_part(doc, rpath);
                    let all = id_iss + on_iss + each_iss + if_iss + do_iss;
                    assert(all.len() == id_iss.len() + on_iss.len() + each_iss.len() + if_iss.len() + do_iss.len());
                    assert(b1 ==> id_iss.len() > 0);
                    assert(b2 ==> on_iss.len() > 0);
                    assert(trigger is None ==> on_iss.len() > 0);
                    assert(b3 ==> each_iss.len() > 0);
                    assert(b4 ==> if_iss.len() > 0);
                    assert(b5 ==> do_iss.len() > 0);
                },
            }
        },
    }
}

/// Issues only accumulate along the rule documents.
proof fn lemma_clean_prefix(docs: Seq<JsonV>, file: Seq<char>, n: int)
    requires
        0 <= n <= docs.len(),
        rules_prefix(docs, file, n).1.len() == 0,
    ensures
        rules_prefix(docs, file, n).0.len() == n,
        forall|j: int| 0 <= j < n ==> rule_outcome(docs[j], rule_path(file, j)).0
            == Some(#[trigger] rules_prefix(docs, file, n).0[j]),
    decreases n,
{
    if n > 0 {
        let (rs, iss, seen) = rules_prefix(docs, file, n - 1);
        let doc = docs[n - 1];
        let rpath = rule_path(file, n - 1);
        let iss2 = match get_str_spec(doc, "id"@) {
            Some(id) => if seen.contains(id) { iss.push(vr002(rpath, id)) } else { iss },
            None => iss,
        };
        let (r, riss) = rule_outcome(doc, rpath);
        assert((iss2 + riss).len() == iss2.len() + riss.len());
        assert(iss2.len() >= iss.len());
        lemma_clean_prefix(docs, file, n - 1);
        lemma_clean_rule(doc, rpath);
        let rs2 = rules_prefix(docs, file, n).0;
        assert(rs2 == rs.push(r->0));
        assert forall|j: int| 0 <= j < n implies rule_outcome(docs[j], rule_path(file, j)).0
            == Some(#[trigger] rules_prefix(docs, file, n).0[j]) by {
            if j < n - 1 {
                assert(rs2[j] == rs[j]);
            }
        }
    }
}

/// A rule file that validates yields one rule per rule document, in the documents' order: the
/// `i`-th rule is what the `i`-th document reads as (so every law of a parsed rule holds of the
/// rule set's `i`-th rule and the file's `i`-th document).
pub proof fn lemma_rules_follow_documents(doc: JsonV, file: Seq<char>)
    requires
        parse_outcome(doc, file) is Ok,
    ensures
        get_spec(doc, "rules"@) matches Some(JsonV::Array(docs))
            && parse_outcome(doc, file)->Ok_0.len() == docs.len()
            && forall|i: int| 0 <= i < docs.len() ==> rule_outcome(docs[i], rule_path(file, i)).0
                == Some(#[trigger] parse_outcome(doc, file)->Ok_0[i]),
{
    match get_spec(doc, "rules"@) {
        Some(JsonV::Array(docs)) => {
            lemma_clean_prefix(docs, file, docs.len() as int);
        },
        _ => {},
    }
}

// ---- validation ----

/// Outcome of a part that may end the rule's validation early.
pub enum Part<T> {
    Abort,
    Done(T, bool),
}

fn text(s: &str) -> (r: String)
    ensures
        r@ == s@,
{
    String::from_str(s)
}

fn joined(base: &String, suffix: &str) -> (r: String)
    ensures
        r@ == base@ + suffix@,
{
    let mut r = base.clone();
    push_str(&mut r, suffix);
    r
}

fn indexed_path(base: &String, suffix: &str, i: usize) -> (r: String)
    ensures
        r@ == indexed(base@ + suffix@, i as int),
{
    let mut r = joined(base, suffix);
    push_str(&mut r, "/");
    push_decimal(&mut r, i as u64);
    r
}

fn push_issue(issues: &mut Vec<Issue>, code: &str, path: String, message: String, hint: &str)
    ensures
        issues_view(final(issues)@) == issues_view(old(issues)@).push(iv(code@, path@, message@, hint@)),
{
    let i = Issue { code: text(code), path, message, hint: text(hint) };
    issues.push(i);
    proof {
        assert(issues_view(issues@) =~= issues_view(old(issues)@).push(iv(code@, path@, message@, hint@)));
    }
}

/// The `id` part of one rule.
fn check_id(doc: &Json, rpath: &String, issues: &mut Vec<Issue>) -> (broken: bool)
    ensures
        issues_view(final(issues)@) == issues_view(old(issues)@) + id_part(doc@, rpath@).0,
        broken == id_part(doc@, rpath@).1,
{
    let id = match doc.get("id") {
        Some(v) => v.as_str(),
        None => None,
    };
    let ok = match id {
        Some(s) => s.unicode_len() > 0,
        None => false,
    };
    if ok {
        proof { assert(issues_view(issues@) + Seq::<IssueV>::empty() =~= issues_view(issues@)); }
        false
    } else {
        push_issue(issues, "VR003", joined(rpath, "/id"), text("规则缺少 id（非空文本）"),
            "给规则起个能说明意图的 id，如 \"collect-coin\"");
        proof { assert(issues_view(old(issues)@).push(vr003(rpath@)) =~= issues_view(old(issues)@) + seq![vr003(rpath@)]); }
        true
    }
}

/// The view of an optional trigger.
pub open spec fn opt_trigger_view(t: Option<Trigger>) -> Option<TriggerV> {
    match t {
        Some(x) => Some(x@),
        None => None,
    }
}

/// The `between` field of an event trigger object `o`.
fn check_between(o: &Json, rpath: &String, issues: &mut Vec<Issue>) -> (r: Part<Option<(String, String)>>)
    ensures
        match between_part(o@, rpath@) {
            PartV::Abort(iss) => r is Abort && issues_view(final(issues)@) == issues_view(old(issues)@) + iss,
            PartV::Done(b, iss, _) => iss.len() == 0 && issues_view(final(issues)@) == issues_view(old(issues)@)
                && (r matches Part::Done(x, _) && match x {
                    Some(p) => b == Some((p.0@, p.1@)),
                    None => b is None,
                }),
        },
{
    let bv = o.get("between");
    match bv {
        None => Part::Done(None, false),
        Some(v) => {
            match v {
                Json::Array(arr) => {
                    proof { crate::json::lemma_seq_view(arr@); }
                    if arr.len() == 2 {
                        let a = arr[0].as_str();
                        let b = arr[1].as_str();
                        match (a, b) {
                            (Some(a), Some(b)) => Part::Done(Some((text(a), text(b))), false),
                            _ => {
                                push_issue(issues, "VR004", joined(rpath, "/on/between"),
                                    text("between 必须是两个组件名"), "写法: \"between\": [\"Player\", \"Coin\"]");
                                proof { assert(issues_view(old(issues)@).push(vr004_names(rpath@)) =~= issues_view(old(issues)@) + seq![vr004_names(rpath@)]); }
                                Part::Abort
                            },
                        }
                    } else {
                        push_issue(issues, "VR004", joined(rpath, "/on/between"),
                            text("between 必须是两个组件名的数组"), "写法: \"between\": [\"Player\", \"Coin\"]");
                        proof { assert(issues_view(old(issues)@).push(vr004_array(rpath@)) =~= issues_view(old(issues)@) + seq![vr004_array(rpath@)]); }
                        Part::Abort
                    }
                },
                _ => {
                    push_issue(issues, "VR004", joined(rpath, "/on/between"),
                        text("between 必须是两个组件名的数组"), "写法: \"between\": [\"Player\", \"Coin\"]");
                    proof { assert(issues_view(old(issues)@).push(vr004_array(rpath@)) =~= issues_view(old(issues)@) + seq![vr004_array(rpath@)]); }
                    Part::Abort
                },
            }
        },
    }
}

/// The `on` part of one rule.
fn check_on(doc: &Json, rpath: &String, issues: &mut Vec<Issue>) -> (r: Part<Option<Trigger>>)
    ensures
        match on_part(doc@, rpath@) {
            PartV::Abort(iss) => r is Abort && issues_view(final(issues)@) == issues_view(old(issues)@) + iss,
            PartV::Done(t, iss, b) => issues_view(final(issues)@) == issues_view(old(issues)@) + iss
                && (r matches Part::Done(x, bb) && bb == b && opt_trigger_view(x) == t),
        },
{
    let ghost old_issues = issues_view(issues@);
    let on = doc.get("on");
    match on {
        Some(v) => {
            match v {
                Json::Str(s) => {
                    if str_eq(s.as_str(), "tick") {
                        proof { assert(old_issues + Seq::<IssueV>::empty() =~= old_issues); }
                        Part::Done(Some(Trigger::Tick), false)
                    } else {
                        push_issue(issues, "VR006", joined(rpath, "/on"), text("规则缺少触发器 on"),
                            "写法: \"on\": \"tick\" 或 \"on\": {\"event\": \"事件名\"}");
                        proof { assert(old_issues.push(vr006_missing(rpath@)) =~= old_issues + seq![vr006_missing(rpath@)]); }
                        Part::Done(None, false)
                    }
                },
                Json::Object(m) => {
                    let name = match v.get("event") {
                        Some(e) => e.as_str(),
                        None => None,
                    };
                    match name {
                        Some(name) => {
                            match check_between(v, rpath, issues) {
                                Part::Abort => Part::Abort,
                                Part::Done(between, _) => {
                                    let wrong = between.is_some() && !str_eq(name, "collision");
                                    if wrong {
                                        push_issue(issues, "VR005", joined(rpath, "/on"), text("between 只能配 collision 事件"),
                                            "其他事件用 filter 做字段过滤");
                                        proof { assert(old_issues.push(vr005(rpath@)) =~= old_issues + seq![vr005(rpath@)]); }
                                    } else {
                                        proof { assert(old_issues + Seq::<IssueV>::empty() =~= old_issues); }
                                    }
                                    let filter = match v.get("filter") {
                                        Some(f) => match f {
                                            Json::Object(fm) => clone_entries(fm),
                                            _ => Vec::new(),
                                        },
                                        None => Vec::new(),
                                    };
                                    proof {
                                        if filter@.len() == 0 {
                                            assert(entries_view(filter@) =~= Seq::<(Seq<char>, JsonV)>::empty());
                                        }
                                    }
                                    Part::Done(Some(Trigger::Event { name: text(name), filter, between }), wrong)
                                },
                            }
                        },
                        None => {
                            push_issue(issues, "VR006", joined(rpath, "/on"), text("on 对象缺少 event 字段"),
                                "写法: \"on\": {\"event\": \"collision\"} 或 \"on\": \"tick\"");
                            proof { assert(old_issues.push(vr006_event(rpath@)) =~= old_issues + seq![vr006_event(rpath@)]); }
                            Part::Done(None, false)
                        },
                    }
                },
                _ => {
                    push_issue(issues, "VR006", joined(rpath, "/on"), text("规则缺少触发器 on"),
                        "写法: \"on\": \"tick\" 或 \"on\": {\"event\": \"事件名\"}");
                    proof { assert(old_issues.push(vr006_missing(rpath@)) =~= old_issues + seq![vr006_missing(rpath@)]); }
                    Part::Done(None, false)
                },
            }
        },
        None => {
            push_issue(issues, "VR006", joined(rpath, "/on"), text("规则缺少触发器 on"),
                "写法: \"on\": \"tick\" 或 \"on\": {\"event\": \"事件名\"}");
            proof { assert(old_issues.push(vr006_missing(rpath@)) =~= old_issues + seq![vr006_missing(rpath@)]); }
            Part::Done(None, false)
        },
    }
}

/// The `each` part of one rule.
fn check_each(doc: &Json, rpath: &String, issues: &mut Vec<Issue>) -> (r: (Option<Vec<String>>, bool))
    ensures
        issues_view(final(issues)@) == issues_view(old(issues)@) + each_part(doc@, rpath@).1,
        r.1 == each_part(doc@, rpath@).2,
        match r.0 {
            Some(v) => each_part(doc@, rpath@).0 == Some(strings_view(v@)),
            None => each_part(doc@, rpath@).0 is None,
        },
{
    let ghost old_issues = issues_view(issues@);
    match doc.get("each") {
        None => {
            proof { assert(old_issues + Seq::<IssueV>::empty() =~= old_issues); }
            (None, false)
        },
        Some(v) => {
            match v {
                Json::Array(arr) => {
                    let ghost sv = crate::json::seq_view(arr@);
                    proof { crate::json::lemma_seq_view(arr@); }
                    let mut comps: Vec<String> = Vec::new();
                    let mut all = true;
                    let mut i: usize = 0;
                    while i < arr.len() && all
                        invariant
                            i <= arr@.len(),
                            sv == crate::json::seq_view(arr@),
                            sv.len() == arr@.len(),
                            forall|k: int| 0 <= k < arr@.len() ==> #[trigger] sv[k] == crate::json::json_view(arr@[k]),
                            all ==> comps@.len() == i,
                            all ==> forall|k: int| 0 <= k < i ==> (#[trigger] sv[k]) is Str
                                && strings_view(comps@)[k] == str_spec(sv[k])->0,
                            !all ==> !all_strings(sv),
                        decreases arr@.len() - i + (if all { 1int } else { 0int }),
                    {
                        match arr[i].as_str() {
                            Some(t) => {
                                comps.push(text(t));
                                i += 1;
                            },
                            None => {
                                assert(!(sv[i as int] is Str));
                                all = false;
                            },
                        }
                    }
                    if all && comps.len() > 0 {
                        proof {
                            assert(all_strings(sv));
                            assert(strings_view(comps@) =~= texts_of(sv));
                            assert(old_issues + Seq::<IssueV>::empty() =~= old_issues);
                        }
                        (Some(comps), false)
                    } else {
                        push_issue(issues, "VR007", joined(rpath, "/each"), text("each 必须是非空组件名数组"),
                            "写法: \"each\": [\"Position\", \"Velocity\"]");
                        proof { assert(old_issues.push(vr007_empty(rpath@)) =~= old_issues + seq![vr007_empty(rpath@)]); }
                        (None, true)
                    }
                },
                _ => {
                    push_issue(issues, "VR007", joined(rpath, "/each"), text("each 必须是组件名数组"),
                        "写法: \"each\": [\"Position\", \"Velocity\"]");
                    proof { assert(old_issues.push(vr007_array(rpath@)) =~= old_issues + seq![vr007_array(rpath@)]); }
                    (None, true)
                },
            }
        },
    }
}

fn is_operator_exec(op: &str) -> (r: bool)
    ensures
        r == is_operator(op@),
{
    str_eq(op, "==") || str_eq(op, "!=") || str_eq(op, "<") || str_eq(op, "<=") || str_eq(op, ">")
        || str_eq(op, ">=") || str_eq(op, "exists") || str_eq(op, "!exists")
}

/// One condition at `cpath`.
fn check_condition(c: &Json, cpath: String, issues: &mut Vec<Issue>) -> (r: Option<(String, String, Json)>)
    ensures
        match condition_step(c@, cpath@) {
            Ok(t) => r matches Some(x) && (x.0@, x.1@, x.2@) == t
                && issues_view(final(issues)@) == issues_view(old(issues)@),
            Err(e) => r is None && issues_view(final(issues)@) == issues_view(old(issues)@).push(e),
        },
{
    match c {
        Json::Array(p) => {
            proof { crate::json::lemma_seq_view(p@); }
            let shaped = if (p.len() == 3 || p.len() == 2) && p[0].is_string() && p[1].is_string() {
                let op = match p[1].as_str() { Some(t) => t, None => "" };
                p.len() == 3 || str_eq(op, "exists") || str_eq(op, "!exists")
            } else {
                false
            };
            if shaped {
                let left = match p[0].as_str() { Some(t) => t, None => "" };
                let op = match p[1].as_str() { Some(t) => t, None => "" };
                if !is_operator_exec(op) {
                    let mut msg = text("未知操作符 ");
                    let q = debug_quote(op);
                    push_str(&mut msg, q.as_str());
                    push_issue(issues, "VR009", cpath, msg, "可用操作符: [==, !=, <, <=, >, >=, exists, !exists]");
                    None
                } else {
                    let right = if p.len() == 3 { p[2].deep_clone() } else { Json::Null };
                    Some((text(left), text(op), right))
                }
            } else {
                push_issue(issues, "VR008", cpath, text("条件必须是 [路径, 操作符, 值] 三元组（exists/!exists 可省略第三项）"),
                    "例: [\"self.Health.hp\", \"<\", 10] 或 [\"self.Shield\", \"exists\"]");
                None
            }
        },
        _ => {
            push_issue(issues, "VR008", cpath, text("条件必须是 [路径, 操作符, 值] 三元组（exists/!exists 可省略第三项）"),
                "例: [\"self.Health.hp\", \"<\", 10] 或 [\"self.Shield\", \"exists\"]");
            None
        },
    }
}

/// The `if` part of one rule.
fn check_if(doc: &Json, rpath: &String, issues: &mut Vec<Issue>) -> (r: Part<Vec<(String, String, Json)>>)
    ensures
        match if_part(doc@, rpath@) {
            PartV::Abort(iss) => r is Abort && issues_view(final(issues)@) == issues_view(old(issues)@) + iss,
            PartV::Done(cs, iss, b) => issues_view(final(issues)@) == issues_view(old(issues)@) + iss
                && (r matches Part::Done(x, bb) && bb == b && conditions_view(x@) == cs),
        },
{
    let ghost old_issues = issues_view(issues@);
    match doc.get("if") {
        None => {
            proof {
                assert(old_issues + Seq::<IssueV>::empty() =~= old_issues);
                assert(conditions_view(Seq::<(String, String, Json)>::empty()) =~= Seq::<(Seq<char>, Seq<char>, JsonV)>::empty());
            }
            Part::Done(Vec::new(), false)
        },
        Some(v) => {
            match v {
                Json::Array(arr) => {
                    let ghost sv = crate::json::seq_view(arr@);
                    proof { crate::json::lemma_seq_view(arr@); }
                    let mut conds: Vec<(String, String, Json)> = Vec::new();
                    let start_len = issues.len();
                    let mut i: usize = 0;
                    proof {
                        assert(conditions_view(conds@) =~= Seq::<(Seq<char>, Seq<char>, JsonV)>::empty());
                        assert(old_issues + Seq::<IssueV>::empty() =~= old_issues);
                    }
                    while i < arr.len()
                        invariant
                            i <= arr@.len(),
                            sv == crate::json::seq_view(arr@),
                            sv.len() == arr@.len(),
                            forall|k: int| 0 <= k < arr@.len() ==> #[trigger] sv[k] == crate::json::json_view(arr@[k]),
                            conditions_view(conds@) == conditions_prefix(sv, rpath@, i as int).0,
                            issues_view(issues@) == old_issues + conditions_prefix(sv, rpath@, i as int).1,
                            old_issues.len() == start_len,
                        decreases arr@.len() - i,
                    {
                        let cpath = indexed_path(rpath, "/if", i);
                        let ghost before = issues_view(issues@);
                        let c = check_condition(&arr[i], cpath, issues);
                        match c {
                            Some(t) => {
                                let ghost pre = conds@;
                                conds.push(t);
                                proof { assert(conditions_view(conds@) =~= conditions_view(pre).push((t.0@, t.1@, t.2@))); }
                            },
                            None => {},
                        }
                        proof {
                            let e = condition_step(sv[i as int], indexed(rpath@ + "/if"@, i as int));
                            match e {
                                Ok(_) => {},
                                Err(x) => {
                                    assert(before.push(x) == old_issues + conditions_prefix(sv, rpath@, i as int).1.push(x));
                                },
                            }
                        }
                        i += 1;
                    }
                    let broken = issues.len() > start_len;
                    proof {
                        assert(issues_view(issues@).len() == issues@.len());
                        assert(old_issues.len() == start_len);
                    }
                    Part::Done(conds, broken)
                },
                _ => {
                    push_issue(issues, "VR008", joined(rpath, "/if"), text("if 必须是条件数组"),
                        "每个条件是 [左, 操作符, 右] 三元组，如 [\"self.Health.hp\", \"<=\", 0]");
                    proof { assert(old_issues.push(vr008_array(rpath@)) =~= old_issues + seq![vr008_array(rpath@)]); }
                    Part::Abort
                },
            }
        },
    }
}

fn names_action_kind_exec(m: &Vec<(String, Json)>) -> (r: bool)
    ensures
        r == names_action_kind(entries_view(m@)),
{
    crate::json::entries_lookup(m, "set").is_some() || crate::json::entries_lookup(m, "add").is_some()
        || crate::json::entries_lookup(m, "spawn").is_some() || crate::json::entries_lookup(m, "despawn").is_some()
        || crate::json::entries_lookup(m, "emit").is_some() || crate::json::entries_lookup(m, "call").is_some()
}

/// The `do` part of one rule.
fn check_do(doc: &Json, rpath: &String, issues: &mut Vec<Issue>) -> (r: (Vec<Json>, bool))
    ensures
        issues_view(final(issues)@) == issues_view(old(issues)@) + do_part(doc@, rpath@).1,
        r.1 == do_part(doc@, rpath@).2,
        values_view(r.0@) == do_part(doc@, rpath@).0,
{
    let ghost old_issues = issues_view(issues@);
    let arr = match doc.get("do") {
        Some(v) => v.as_array(),
        None => None,
    };
    match arr {
        Some(arr) => {
            if arr.len() > 0 {
                let ghost sv = crate::json::seq_view(arr@);
                proof { crate::json::lemma_seq_view(arr@); }
                let mut acts: Vec<Json> = Vec::new();
                let start_len = issues.len();
                let mut i: usize = 0;
                proof {
                    assert(values_view(acts@) =~= Seq::<JsonV>::empty());
                    assert(old_issues + Seq::<IssueV>::empty() =~= old_issues);
                }
                while i < arr.len()
                    invariant
                        i <= arr@.len(),
                        sv == crate::json::seq_view(arr@),
                        sv.len() == arr@.len(),
                        forall|k: int| 0 <= k < arr@.len() ==> #[trigger] sv[k] == crate::json::json_view(arr@[k]),
                        values_view(acts@) == actions_prefix(sv, rpath@, i as int).0,
                        issues_view(issues@) == old_issues + actions_prefix(sv, rpath@, i as int).1,
                        old_issues.len() == start_len,
                    decreases arr@.len() - i,
                {
                    let apath = indexed_path(rpath, "/do", i);
                    let ghost before = issues_view(issues@);
                    let ghost pre = acts@;
                    match &arr[i] {
                        Json::Object(m) => {
                            if names_action_kind_exec(m) {
                                let a = arr[i].deep_clone();
                                acts.push(a);
                                proof { assert(values_view(acts@) =~= values_view(pre).push(sv[i as int])); }
                            } else {
                                push_issue(issues, "VR010", apath, text("动作不属于任何已知类型"),
                                    "动作类型: [set, add, spawn, despawn, emit, call]，按对象的键识别");
                                proof { assert(before.push(vr010_kind(indexed(rpath@ + "/do"@, i as int))) == old_issues + actions_prefix(sv, rpath@, i + 1).1); }
                            }
                        },
                        _ => {
                            push_issue(issues, "VR010", apath, text("动作必须是对象"),
                                "例: {\"set\": \"self.Health.hp\", \"to\": 100}");
                            proof { assert(before.push(vr010_object(indexed(rpath@ + "/do"@, i as int))) == old_issues + actions_prefix(sv, rpath@, i + 1).1); }
                        },
                    }
                    i += 1;
                }
                let broken = issues.len() > start_len;
                proof {
                    assert(issues_view(issues@).len() == issues@.len());
                }
                (acts, broken)
            } else {
                push_issue(issues, "VR011", joined(rpath, "/do"), text("规则缺少非空 do 数组"),
                    "没有动作的规则什么也不会发生；至少写一个动作");
                proof {
                    assert(old_issues.push(vr011(rpath@)) =~= old_issues + seq![vr011(rpath@)]);
                    assert(values_view(Seq::<Json>::empty()) =~= Seq::<JsonV>::empty());
                }
                (Vec::new(), true)
            }
        },
        None => {
            push_issue(issues, "VR011", joined(rpath, "/do"), text("规则缺少非空 do 数组"),
                "没有动作的规则什么也不会发生；至少写一个动作");
            proof {
                assert(old_issues.push(vr011(rpath@)) =~= old_issues + seq![vr011(rpath@)]);
                assert(values_view(Seq::<Json>::empty()) =~= Seq::<JsonV>::empty());
            }
            (Vec::new(), true)
        },
    }
}

/// The view of an optional rule.
pub open spec fn opt_rule_view(r: Option<Rule>) -> Option<RuleV> {
    match r {
        Some(x) => Some(x@),
        None => None,
    }
}

/// Validate one rule document at `rpath`, appending its issues (see [`rule_outcome`]).
fn parse_rule(doc: &Json, rpath: &String, issues: &mut Vec<Issue>) -> (r: Option<Rule>)
    ensures
        opt_rule_view(r) == rule_outcome(doc@, rpath@).0,
        issues_view(final(issues)@) == issues_view(old(issues)@) + rule_outcome(doc@, rpath@).1,
{
    let ghost i0 = issues_view(issues@);
    let b1 = check_id(doc, rpath, issues);
    let ghost i1 = issues_view(issues@);
    let on = check_on(doc, rpath, issues);
    let ghost i2 = issues_view(issues@);
    match on {
        Part::Abort => {
            proof { assert(i2 == i0 + (id_part(doc@, rpath@).0 + (i2.subrange(i1.len() as int, i2.len() as int)))); }
            None
        },
        Part::Done(trigger, b2) => {
            let (each, b3) = check_each(doc, rpath, issues);
            let ghost i3 = issues_view(issues@);
            match check_if(doc, rpath, issues) {
                Part::Abort => None,
                Part::Done(conditions, b4) => {
                    let (actions, b5) = check_do(doc, rpath, issues);
                    if b1 || b2 || b3 || b4 || b5 || trigger.is_none() {
                        None
                    } else {
                        let id = match doc.get("id") {
                            Some(v) => match v.as_str() { Some(t) => text(t), None => String::new() },
                            None => String::new(),
                        };
                        match trigger {
                            Some(t) => Some(Rule { id, trigger: t, each, conditions, actions }),
                            None => None,
                        }
                    }
                },
            }
        },
    }
}

impl RuleSet {
    /// Validate a rule file `{"rules": [...]}` named `file`. Every structural problem of every
    /// rule is reported at once; the rule set is returned only when there is none.
    pub fn parse(doc: &Json, file: &str) -> (r: Result<RuleSet, ValidationReport>)
        ensures
            match r {
                Ok(set) => parse_outcome(doc@, file@) == Ok::<Seq<RuleV>, Seq<IssueV>>(rules_view(set.rules@)),
                Err(rep) => parse_outcome(doc@, file@) == Err::<Seq<RuleV>, Seq<IssueV>>(issues_view(rep.errors@)),
            },
    {
        let mut issues: Vec<Issue> = Vec::new();
        let fname = text(file);
        let arr = match doc.get("rules") {
            Some(v) => v.as_array(),
            None => None,
        };
        match arr {
            None => {
                push_issue(&mut issues, "VR001", joined(&fname, "#/rules"), text("规则文件缺少 rules 数组"),
                    "顶层结构: {\"rules\": [ {\"id\":..., \"on\":..., \"do\":[...]} ]}");
                proof { assert(issues_view(issues@) =~= seq![vr001(file@)]); }
                Err(ValidationReport { errors: issues })
            },
            Some(docs) => {
                let ghost sv = crate::json::seq_view(docs@);
                proof { crate::json::lemma_seq_view(docs@); }
                let mut rules: Vec<Rule> = Vec::new();
                let mut seen: Vec<String> = Vec::new();
                let mut i: usize = 0;
                proof {
                    assert(issues_view(issues@) =~= Seq::<IssueV>::empty());
                    assert(rules_view(rules@) =~= Seq::<RuleV>::empty());
                    assert(strings_view(seen@) =~= Seq::<Seq<char>>::empty());
                }
                while i < docs.len()
                    invariant
                        i <= docs@.len(),
                        fname@ == file@,
                        sv == crate::json::seq_view(docs@),
                        sv.len() == docs@.len(),
                        forall|k: int| 0 <= k < docs@.len() ==> #[trigger] sv[k] == crate::json::json_view(docs@[k]),
                        rules_view(rules@) == rules_prefix(sv, file@, i as int).0,
                        issues_view(issues@) == rules_prefix(sv, file@, i as int).1,
                        strings_view(seen@) == rules_prefix(sv, file@, i as int).2,
                    decreases docs@.len() - i,
                {
                    let rpath = indexed_path(&fname, "#/rules", i);
                    let doc_i = &docs[i];
                    let ghost before = issues_view(issues@);
                    let id = match doc_i.get("id") {
                        Some(v) => v.as_str(),
                        None => None,
                    };
                    match id {
                        Some(idt) => {
                            if crate::rules::strings_contain(&seen, idt) {
                                let mut msg = text("规则 id ");
                                let q = debug_quote(idt);
                                push_str(&mut msg, q.as_str());
                                push_str(&mut msg, " 重复");
                                push_issue(&mut issues, "VR002", joined(&rpath, "/id"), msg,
                                    "规则 id 全局唯一，错误信息和调试都靠它定位");
                            }
                            let ghost pre_seen = seen@;
                            seen.push(text(idt));
                            proof { assert(strings_view(seen@) =~= strings_view(pre_seen).push(idt@)); }
                        },
                        None => {},
                    }
                    let ghost mid = issues_view(issues@);
                    let r = parse_rule(doc_i, &rpath, &mut issues);
                    match r {
                        Some(rule) => {
                            let ghost pre_rules = rules@;
                            rules.push(rule);
                            proof { assert(rules_view(rules@) =~= rules_view(pre_rules).push(rule@)); }
                        },
                        None => {},
                    }
                    i += 1;
                }
                proof {
                    assert(docs@.len() as int == sv.len());
                }
                if issues.len() == 0 {
                    proof { assert(issues_view(issues@).len() == 0); }
                    Ok(RuleSet { rules })
                } else {
                    Err(ValidationReport { errors: issues })
                }
            },
        }
    }
}

} // verus!
