//! The script boundary: what the engine decides around the embedded JavaScript interpreter.
//! Its error taxonomy (stable codes, fix hints), its resource limits and the instruction
//! budget the interrupt handler counts down, the classification of interpreter exceptions,
//! the system registry it reads back, the random-stream handoff, the float revival of
//! returned JSON, and the decoding of the operation stream a script returns.
//!
//! Running the interpreter itself is the host's part: it hands the interpreter's outputs
//! (exception texts, returned JSON) to the functions here and acts on what they decide.
use vstd::prelude::*;
use crate::json::{entries_get, entries_lookup, entries_view, get_spec, get_str_spec, json_view, seq_view, Json, JsonNumber, JsonV};
use crate::pcg::{Pcg32, PcgState};
use crate::rules::{object_entries, strings_contain, strings_view, Event, EventV};
use crate::text::{
    ascii_lower_seq, chars_ascii_lower, chars_contain, chars_of, contains_seq, debug_quote,
    debug_quoted, decimal, int_error_message, int_error_text, lemma_parse_decimal, parse_uint,
    parse_uint_spec, push_decimal, push_str,
};

verus! {

/// A script failure. Each kind has a stable code (see [`ScriptError::code`]).
#[derive(Debug, PartialEq, Eq)]
pub enum ScriptError {
    /// SC001: the script used up its instruction budget and was interrupted.
    Timeout { location: String, budget: u64 },
    /// SC002: the script went over the interpreter's heap limit.
    OutOfMemory { location: String, limit: usize },
    /// SC003: the script went over the interpreter's stack limit (runaway recursion).
    StackOverflow { location: String, limit: usize },
    /// SC004: the script tampered with the prelude's internals and broke its op-stream contract.
    PreludeViolated { location: String, message: String },
    /// SC010: loading or evaluating a script failed.
    Load { file: String, message: String },
    /// SC011: an exception was thrown while a system or function ran.
    Runtime { location: String, message: String },
    /// SC012: a component was written that the system did not declare in `writes`.
    UndeclaredWrite { system: String, entity: String, component: String },
    /// SC013: a produced operation is invalid.
    Op { location: String, message: String },
}

/// The stable code of an error kind.
pub open spec fn code_spec(e: ScriptError) -> Seq<char> {
    match e {
        ScriptError::Timeout { .. } => "SC001"@,
        ScriptError::OutOfMemory { .. } => "SC002"@,
        ScriptError::StackOverflow { .. } => "SC003"@,
        ScriptError::PreludeViolated { .. } => "SC004"@,
        ScriptError::Load { .. } => "SC010"@,
        ScriptError::Runtime { .. } => "SC011"@,
        ScriptError::UndeclaredWrite { .. } => "SC012"@,
        ScriptError::Op { .. } => "SC013"@,
    }
}

/// How to fix an error.
pub open spec fn hint_spec(e: ScriptError) -> Seq<char> {
    match e {
        ScriptError::Timeout { budget, .. } =>
            "脚本在 "@ + decimal(budget as nat) + " 条指令预算内没有结束（多半是死循环或失控递归）。把循环改成有界迭代；确需更长预算时用 ScriptEngine::with_limits 调大 instruction_budget"@,
        ScriptError::OutOfMemory { limit, .. } =>
            "脚本内存超过上限 "@ + decimal(limit as nat) + " 字节（多半是无限 push 数组或构造超大字符串）。限制每 tick 的分配量；确需更多内存时用 ScriptEngine::with_limits 调大 memory_limit"@,
        ScriptError::StackOverflow { limit, .. } =>
            "脚本调用栈超过上限 "@ + decimal(limit as nat) + " 字节（无限递归）。给递归加终止条件；确需更深栈时用 ScriptEngine::with_limits 调大 max_stack_size"@,
        ScriptError::PreludeViolated { .. } =>
            "脚本覆盖了 prelude 内部函数（globalThis.__runSystem/__callFn/__runCatchUp/__list）或伪造了 ops。不要碰双下划线开头的全局量；生成/销毁实体和发事件请走 ctx.spawn/ctx.despawn/ctx.emit"@,
        ScriptError::Load { .. } => "修脚本语法或注册参数后重新加载"@,
        ScriptError::Runtime { .. } => "按异常消息修脚本；不确定时把脚本缩到最小复现再逐步加回"@,
        ScriptError::UndeclaredWrite { component, .. } =>
            "把 "@ + debug_quoted(component@) + " 加进该系统的 writes，或者别改它——读写声明是引擎理解逻辑影响面的依据，不是摆设"@,
        ScriptError::Op { .. } => "ops 必须走 ctx.emit/ctx.spawn/ctx.despawn/ctx.setField 生成，字段齐全且类型正确"@,
    }
}

/// What happened, before the code and the hint.
pub open spec fn summary_spec(e: ScriptError) -> Seq<char> {
    match e {
        ScriptError::Timeout { location, budget } =>
            "脚本 "@ + location@ + " 超出指令预算（"@ + decimal(budget as nat) + " 条）被强制中断"@,
        ScriptError::OutOfMemory { location, limit } =>
            "脚本 "@ + location@ + " 内存超限（上限 "@ + decimal(limit as nat) + " 字节）"@,
        ScriptError::StackOverflow { location, limit } =>
            "脚本 "@ + location@ + " 调用栈超限（上限 "@ + decimal(limit as nat) + " 字节）"@,
        ScriptError::PreludeViolated { location, message } =>
            "脚本 "@ + location@ + " 破坏了 prelude 约定: "@ + message@,
        ScriptError::Load { file, message } => "脚本 "@ + file@ + " 加载失败: "@ + message@,
        ScriptError::Runtime { location, message } => "脚本 "@ + location@ + " 运行报错: "@ + message@,
        ScriptError::UndeclaredWrite { system, entity, component } =>
            "系统 "@ + debug_quoted(system@) + " 修改了实体 "@ + entity@ + " 的组件 "@ + debug_quoted(component@) + "，但 writes 里没有声明它"@,
        ScriptError::Op { location, message } => "脚本 "@ + location@ + " 的操作不合法: "@ + message@,
    }
}

/// The full message: what happened, then ` [code]（hint）`.
pub open spec fn message_spec(e: ScriptError) -> Seq<char> {
    summary_spec(e) + " ["@ + code_spec(e) + "]（"@ + hint_spec(e) + "）"@
}

impl ScriptError {
    /// The stable code of this error kind (part of the API; the message text is not).
    pub fn code(&self) -> (c: &'static str)
        ensures
            c@ == code_spec(*self),
    {
        match self {
            ScriptError::Timeout { .. } => "SC001",
            ScriptError::OutOfMemory { .. } => "SC002",
            ScriptError::StackOverflow { .. } => "SC003",
            ScriptError::PreludeViolated { .. } => "SC004",
            ScriptError::Load { .. } => "SC010",
            ScriptError::Runtime { .. } => "SC011",
            ScriptError::UndeclaredWrite { .. } => "SC012",
            ScriptError::Op { .. } => "SC013",
        }
    }

    /// How to fix it.
    pub fn hint(&self) -> (h: String)
        ensures
            h@ == hint_spec(*self),
    {
        match self {
            ScriptError::Timeout { budget, .. } => {
                let mut h = String::from_str("脚本在 ");
                push_decimal(&mut h, *budget);
                push_str(&mut h, " 条指令预算内没有结束（多半是死循环或失控递归）。把循环改成有界迭代；确需更长预算时用 ScriptEngine::with_limits 调大 instruction_budget");
                h
            },
            ScriptError::OutOfMemory { limit, .. } => {
                let mut h = String::from_str("脚本内存超过上限 ");
                push_decimal(&mut h, *limit as u64);
                push_str(&mut h, " 字节（多半是无限 push 数组或构造超大字符串）。限制每 tick 的分配量；确需更多内存时用 ScriptEngine::with_limits 调大 memory_limit");
                h
            },
            ScriptError::StackOverflow { limit, .. } => {
                let mut h = String::from_str("脚本调用栈超过上限 ");
                push_decimal(&mut h, *limit as u64);
                push_str(&mut h, " 字节（无限递归）。给递归加终止条件；确需更深栈时用 ScriptEngine::with_limits 调大 max_stack_size");
                h
            },
            ScriptError::PreludeViolated { .. } => String::from_str(
                "脚本覆盖了 prelude 内部函数（globalThis.__runSystem/__callFn/__runCatchUp/__list）或伪造了 ops。不要碰双下划线开头的全局量；生成/销毁实体和发事件请走 ctx.spawn/ctx.despawn/ctx.emit",
            ),
            ScriptError::Load { .. } => String::from_str("修脚本语法或注册参数后重新加载"),
            ScriptError::Runtime { .. } => String::from_str("按异常消息修脚本；不确定时把脚本缩到最小复现再逐步加回"),
            ScriptError::UndeclaredWrite { component, .. } => {
                let mut h = String::from_str("把 ");
                let q = debug_quote(component.as_str());
                push_str(&mut h, q.as_str());
                push_str(&mut h, " 加进该系统的 writes，或者别改它——读写声明是引擎理解逻辑影响面的依据，不是摆设");
                h
            },
            ScriptError::Op { .. } => String::from_str("ops 必须走 ctx.emit/ctx.spawn/ctx.despawn/ctx.setField 生成，字段齐全且类型正确"),
        }
    }

    fn summary(&self) -> (s: String)
        ensures
            s@ == summary_spec(*self),
    {
        match self {
            ScriptError::Timeout { location, budget } => {
                let mut s = String::from_str("脚本 ");
                push_str(&mut s, location.as_str());
                push_str(&mut s, " 超出指令预算（");
                push_decimal(&mut s, *budget);
                push_str(&mut s, " 条）被强制中断");
                s
            },
            ScriptError::OutOfMemory { location, limit } => {
                let mut s = String::from_str("脚本 ");
                push_str(&mut s, location.as_str());
                push_str(&mut s, " 内存超限（上限 ");
                push_decimal(&mut s, *limit as u64);
                push_str(&mut s, " 字节）");
                s
            },
            ScriptError::StackOverflow { location, limit } => {
                let mut s = String::from_str("脚本 ");
                push_str(&mut s, location.as_str());
                push_str(&mut s, " 调用栈超限（上限 ");
                push_decimal(&mut s, *limit as u64);
                push_str(&mut s, " 字节）");
                s
            },
            ScriptError::PreludeViolated { location, message } => {
                let mut s = String::from_str("脚本 ");
                push_str(&mut s, location.as_str());
                push_str(&mut s, " 破坏了 prelude 约定: ");
                push_str(&mut s, message.as_str());
                s
            },
            ScriptError::Load { file, message } => {
                let mut s = String::from_str("脚本 ");
                push_str(&mut s, file.as_str());
                push_str(&mut s, " 加载失败: ");
                push_str(&mut s, message.as_str());
                s
            },
            ScriptError::Runtime { location, message } => {
                let mut s = String::from_str("脚本 ");
                push_str(&mut s, location.as_str());
                push_str(&mut s, " 运行报错: ");
                push_str(&mut s, message.as_str());
                s
            },
            ScriptError::UndeclaredWrite { system, entity, component } => {
                let mut s = String::from_str("系统 ");
                let q = debug_quote(system.as_str());
                push_str(&mut s, q.as_str());
                push_str(&mut s, " 修改了实体 ");
                push_str(&mut s, entity.as_str());
                push_str(&mut s, " 的组件 ");
                let c = debug_quote(component.as_str());
                push_str(&mut s, c.as_str());
                push_str(&mut s, "，但 writes 里没有声明它");
                s
            },
            ScriptError::Op { location, message } => {
                let mut s = String::from_str("脚本 ");
                push_str(&mut s, location.as_str());
                push_str(&mut s, " 的操作不合法: ");
                push_str(&mut s, message.as_str());
                s
            },
        }
    }

    /// The full message: what happened, then the code and the fix hint.
    pub fn message(&self) -> (m: String)
        ensures
            m@ == message_spec(*self),
    {
        let mut m = self.summary();
        push_str(&mut m, " [");
        push_str(&mut m, self.code());
        push_str(&mut m, "]（");
        let h = self.hint();
        push_str(&mut m, h.as_str());
        push_str(&mut m, "）");
        m
    }
}

/// Hard resource limits of the interpreter.
#[derive(Debug, PartialEq, Eq)]
pub struct ScriptLimits {
    /// Heap limit in bytes (0 = unlimited).
    pub memory_limit: usize,
    /// Stack limit in bytes (0 = no check).
    pub max_stack_size: usize,
    /// Interrupt-handler ticks allowed per engine entry call.
    pub instruction_budget: u64,
}

impl Default for ScriptLimits {
    /// 64 MiB of heap, 1 MiB of stack, ten million interrupt ticks.
    fn default() -> (l: ScriptLimits)
        ensures
            l.memory_limit == 64 * 1024 * 1024,
            l.max_stack_size == 1024 * 1024,
            l.instruction_budget == 10_000_000,
    {
        ScriptLimits { memory_limit: 64 * 1024 * 1024, max_stack_size: 1024 * 1024, instruction_budget: 10_000_000 }
    }
}

/// The count-down the interpreter's interrupt handler runs on, and whether it fired (the
/// interpreter itself only reports a generic interruption).
#[derive(Debug)]
pub struct InstructionBudget {
    pub remaining: u64,
    pub interrupted: bool,
}

/// One interrupt-handler call on `(remaining, interrupted)`: a fired budget keeps aborting; a
/// used-up count fires (the count wraps, as the atomic decrement does) and aborts; otherwise the
/// count goes down by one and the script goes on. Gives `(remaining, interrupted, abort)`.
pub open spec fn budget_tick(remaining: u64, interrupted: bool) -> (u64, bool, bool) {
    if interrupted {
        (remaining, true, true)
    } else if remaining == 0 {
        (u64::MAX, true, true)
    } else {
        ((remaining - 1) as u64, false, false)
    }
}

/// The budget after `n` interrupt-handler calls.
pub open spec fn budget_after(remaining: u64, interrupted: bool, n: nat) -> (u64, bool)
    decreases n,
{
    if n == 0 {
        (remaining, interrupted)
    } else {
        let (r, i) = budget_after(remaining, interrupted, (n - 1) as nat);
        let t = budget_tick(r, i);
        (t.0, t.1)
    }
}

/// A budget re-armed to `b` lets exactly `b` interrupt-handler calls pass: after `n <= b` of
/// them it has not fired and `b - n` remain; the next call after `b` aborts, and once fired
/// every later call aborts too.
pub proof fn lemma_budget_allows_exactly(b: u64, n: nat)
    requires
        n <= b,
    ensures
        budget_after(b, false, n) == ((b - n) as u64, false),
        n == b ==> budget_tick(budget_after(b, false, n).0, budget_after(b, false, n).1).2,
        forall|r: u64| #[trigger] budget_tick(r, true).2,
    decreases n,
{
    if n > 0 {
        lemma_budget_allows_exactly(b, (n - 1) as nat);
    }
}

impl InstructionBudget {
    /// A budget that is used up and has not fired.
    pub fn new() -> (b: InstructionBudget)
        ensures
            b.remaining == 0,
            !b.interrupted,
    {
        InstructionBudget { remaining: 0, interrupted: false }
    }

    /// Re-arm before an engine entry call.
    pub fn reset(&mut self, budget: u64)
        ensures
            final(self).remaining == budget,
            !final(self).interrupted,
    {
        self.remaining = budget;
        self.interrupted = false;
    }

    /// One interrupt-handler call (see [`budget_tick`]): `true` aborts the script.
    pub fn tick(&mut self) -> (abort: bool)
        ensures
            (final(self).remaining, final(self).interrupted, abort) == budget_tick(old(self).remaining, old(self).interrupted),
    {
        if self.interrupted {
            return true;
        }
        let prev = self.remaining;
        self.remaining = prev.wrapping_sub(1);
        if prev == 0 {
            self.interrupted = true;
            return true;
        }
        false
    }

    /// Whether the budget fired since the last reset.
    pub fn was_interrupted(&self) -> (r: bool)
        ensures
            r == self.interrupted,
    {
        self.interrupted
    }
}

/// Whether an exception text reports the heap limit.
pub open spec fn reports_oom(message: Seq<char>) -> bool {
    contains_seq(message, "out of memory"@)
}

/// Whether an exception text reports the stack limit (in any letter case).
pub open spec fn reports_stack(message: Seq<char>) -> bool {
    contains_seq(ascii_lower_seq(message), "stack overflow"@)
        || contains_seq(ascii_lower_seq(message), "call stack size exceeded"@)
}

/// Classify an interpreter exception: a fired budget is a timeout; a text that reports the heap
/// limit is out-of-memory; one that reports the stack limit (any letter case) is a stack
/// overflow; anything else is a load error (while loading) or a runtime error, with the text.
pub fn classify_js_error(interrupted: bool, limits: &ScriptLimits, location: &str, message: String, is_load: bool) -> (e: ScriptError)
    ensures
        interrupted ==> (e matches ScriptError::Timeout { location: l, budget } && l@ == location@
            && budget == limits.instruction_budget),
        !interrupted && reports_oom(message@) ==> (e matches ScriptError::OutOfMemory { location: l, limit }
            && l@ == location@ && limit == limits.memory_limit),
        !interrupted && !reports_oom(message@) && reports_stack(message@) ==> (e matches ScriptError::StackOverflow {
            location: l, limit } && l@ == location@ && limit == limits.max_stack_size),
        !interrupted && !reports_oom(message@) && !reports_stack(message@) && is_load ==> (e matches ScriptError::Load {
            file, message: m } && file@ == location@ && m@ == message@),
        !interrupted && !reports_oom(message@) && !reports_stack(message@) && !is_load ==> (e matches ScriptError::Runtime {
            location: l, message: m } && l@ == location@ && m@ == message@),
{
    if interrupted {
        return ScriptError::Timeout { location: String::from_str(location), budget: limits.instruction_budget };
    }
    let cs = chars_of(message.as_str());
    if chars_contain(&cs, &chars_of("out of memory")) {
        return ScriptError::OutOfMemory { location: String::from_str(location), limit: limits.memory_limit };
    }
    let lower = chars_ascii_lower(&cs);
    if chars_contain(&lower, &chars_of("stack overflow")) || chars_contain(&lower, &chars_of("call stack size exceeded")) {
        return ScriptError::StackOverflow { location: String::from_str(location), limit: limits.max_stack_size };
    }
    if is_load {
        ScriptError::Load { file: String::from_str(location), message }
    } else {
        ScriptError::Runtime { location: String::from_str(location), message }
    }
}

// ---- the random-stream handoff ----

/// The stream state as handed to a script: both words as decimal texts (a JSON number cannot
/// hold every `u64`), keys in order.
pub open spec fn rng_json(r: PcgState) -> JsonV {
    JsonV::Object(seq![("inc"@, JsonV::Str(decimal(r.inc as nat))), ("state"@, JsonV::Str(decimal(r.state as nat)))])
}

/// A `u64` written as a decimal text under `key`.
pub open spec fn u64_text_at(v: JsonV, key: Seq<char>) -> Option<u64> {
    match get_str_spec(v, key) {
        Some(t) => match parse_uint_spec(t, 10) {
            Ok(n) => Some(n),
            Err(_) => None,
        },
        None => None,
    }
}

/// The stream state a script hands back, or what is wrong with it.
pub open spec fn rng_read(v: Option<JsonV>) -> Result<PcgState, Seq<char>> {
    match v {
        None => Err("返回缺少 rng 状态"@),
        Some(x) => match u64_text_at(x, "state"@) {
            None => Err("rng.state 不是合法 u64 字符串"@),
            Some(state) => match u64_text_at(x, "inc"@) {
                None => Err("rng.inc 不是合法 u64 字符串"@),
                Some(inc) => Ok(PcgState { state, inc }),
            },
        },
    }
}

fn text_entry(key: &str, n: u64) -> (e: (String, Json))
    ensures
        e.0@ == key@,
        e.1@ == JsonV::Str(decimal(n as nat)),
{
    (String::from_str(key), Json::Str(crate::text::u64_decimal(n)))
}

/// The stream state as handed to a script (see [`rng_json`]).
pub fn rng_to_json(rng: &Pcg32) -> (j: Json)
    ensures
        j@ == rng_json(rng@),
{
    let mut m: Vec<(String, Json)> = Vec::new();
    m.push(text_entry("inc", rng.increment()));
    m.push(text_entry("state", rng.state()));
    proof {
        crate::json::lemma_entries_view(m@);
        assert(crate::json::entries_view(m@) =~= rng_json(rng@)->Object_0);
    }
    Json::Object(m)
}

fn u64_text(v: &Json, key: &str) -> (r: Option<u64>)
    ensures
        r == u64_text_at(v@, key@),
{
    match v.get(key) {
        Some(x) => match x.as_str() {
            Some(t) => match parse_uint(t, 10) {
                Ok(n) => Some(n),
                Err(_) => None,
            },
            None => None,
        },
        None => None,
    }
}

fn op_error(location: &str, message: &str) -> (e: ScriptError)
    ensures
        e matches ScriptError::Op { location: l, message: m } && l@ == location@ && m@ == message@,
{
    ScriptError::Op { location: String::from_str(location), message: String::from_str(message) }
}

/// The stream state a script hands back (see [`rng_read`]); a bad one is an operation error
/// at `location`.
pub fn rng_from_json(v: Option<&Json>, location: &str) -> (r: Result<Pcg32, ScriptError>)
    ensures
        match rng_read(match v { Some(x) => Some(x@), None => None }) {
            Ok(st) => r matches Ok(p) && p@ == st,
            Err(m) => r matches Err(ScriptError::Op { location: l, message }) && l@ == location@ && message@ == m,
        },
{
    match v {
        None => Err(op_error(location, "返回缺少 rng 状态")),
        Some(x) => match u64_text(x, "state") {
            None => Err(op_error(location, "rng.state 不是合法 u64 字符串")),
            Some(state) => match u64_text(x, "inc") {
                None => Err(op_error(location, "rng.inc 不是合法 u64 字符串")),
                Some(inc) => Ok(Pcg32::from_parts(state, inc)),
            },
        },
    }
}

/// The stream handed to a script carries its state word under `state` and its increment under
/// `inc`, each as decimal text.
pub proof fn lemma_rng_handoff_fields(r: PcgState)
    ensures
        get_spec(rng_json(r), "state"@) == Some(JsonV::Str(decimal(r.state as nat))),
        get_spec(rng_json(r), "inc"@) == Some(JsonV::Str(decimal(r.inc as nat))),
{
    reveal_strlit("inc");
    reveal_strlit("state");
    let m = rng_json(r)->Object_0;
    assert("inc"@.len() == 3);
    assert("state"@.len() == 5);
    assert(m[0].0 != "state"@);
    assert forall|j: int| 0 <= j < 1 implies #[trigger] m[j].0 != "state"@ by {
        assert(j == 0);
    }
    crate::json::lemma_entries_get_at(m, 1, "state"@);
    crate::json::lemma_entries_get_at(m, 0, "inc"@);
}

/// The stream a script hands back is read by field name: an object whose `state` and `inc` are
/// the decimal texts of `a` and `b` gives a stream with state word `a` and increment `b`.
pub proof fn lemma_rng_read_fields(x: JsonV, a: u64, b: u64)
    requires
        get_spec(x, "state"@) == Some(JsonV::Str(decimal(a as nat))),
        get_spec(x, "inc"@) == Some(JsonV::Str(decimal(b as nat))),
    ensures
        rng_read(Some(x)) == Ok::<PcgState, Seq<char>>(PcgState { state: a, inc: b }),
{
    lemma_parse_decimal(a);
    lemma_parse_decimal(b);
}

/// Handing the stream to a script and reading back what it returns unchanged gives the same
/// stream state.
pub proof fn lemma_rng_handoff_roundtrip(r: PcgState)
    ensures
        rng_read(Some(rng_json(r))) == Ok::<PcgState, Seq<char>>(r),
{
    reveal_strlit("inc");
    reveal_strlit("state");
    let m = rng_json(r)->Object_0;
    assert("inc"@.len() == 3);
    assert("state"@.len() == 5);
    assert(m[0].0 != "state"@);
    assert forall|j: int| 0 <= j < 1 implies #[trigger] m[j].0 != "state"@ by {
        assert(j == 0);
    }
    crate::json::lemma_entries_get_at(m, 1, "state"@);
    assert forall|j: int| 0 <= j < 0 implies #[trigger] m[j].0 != "inc"@ by {}
    crate::json::lemma_entries_get_at(m, 0, "inc"@);
    lemma_parse_decimal(r.state);
    lemma_parse_decimal(r.inc);
}

// ---- the system registry ----

/// A registered system: its name, the components it reads (its entity filter), the components
/// it may write, and whether it has a catch-up function.
#[derive(Debug, PartialEq, Eq)]
pub struct SystemDecl {
    pub name: String,
    pub query: Vec<String>,
    pub writes: Vec<String>,
    pub has_catch_up: bool,
}

/// The content of a system declaration.
pub struct SystemDeclV {
    pub name: Seq<char>,
    pub query: Seq<Seq<char>>,
    pub writes: Seq<Seq<char>>,
    pub has_catch_up: bool,
}

impl View for SystemDecl {
    type V = SystemDeclV;

    open spec fn view(&self) -> SystemDeclV {
        SystemDeclV { name: self.name@, query: strings_view(self.query@), writes: strings_view(self.writes@), has_catch_up: self.has_catch_up }
    }
}

/// The texts among `items`, in order (other values are skipped).
pub open spec fn texts_among(items: Seq<JsonV>) -> Seq<Seq<char>>
    decreases items.len(),
{
    if items.len() == 0 {
        Seq::empty()
    } else {
        texts_among(items.drop_last()) + match items.last() {
            JsonV::Str(t) => seq![t],
            _ => Seq::empty(),
        }
    }
}

/// The texts of an array value (nothing for anything else).
pub open spec fn text_list(v: Option<JsonV>) -> Seq<Seq<char>> {
    match v {
        Some(JsonV::Array(a)) => texts_among(a),
        _ => Seq::empty(),
    }
}

/// A system as the registry lists it; none without a text `name`.
pub open spec fn decl_of(s: JsonV) -> Option<SystemDeclV> {
    match get_str_spec(s, "name"@) {
        None => None,
        Some(name) => Some(SystemDeclV {
            name,
            query: text_list(get_spec(s, "query"@)),
            writes: text_list(get_spec(s, "writes"@)),
            has_catch_up: match get_spec(s, "catch_up"@) {
                Some(JsonV::Bool(b)) => b,
                _ => false,
            },
        }),
    }
}

/// Whether every listed system has a name.
pub open spec fn all_decls_named(systems: Seq<JsonV>) -> bool {
    forall|i: int| 0 <= i < systems.len() ==> (#[trigger] decl_of(systems[i])) is Some
}

/// The registry read back: the systems (in registration order) and the callable function
/// names, or what is wrong with it.
pub open spec fn listing_spec(v: JsonV) -> Result<(Seq<SystemDeclV>, Seq<Seq<char>>), Seq<char>> {
    match get_spec(v, "systems"@) {
        Some(JsonV::Array(systems)) => if all_decls_named(systems) {
            Ok((systems.map_values(|x: JsonV| decl_of(x)->0), text_list(get_spec(v, "fns"@))))
        } else {
            Err("prelude __list 输出的 system 缺少 name 字段"@)
        },
        _ => Err("prelude __list 输出缺少 systems 数组（globalThis.__list 可能被脚本覆盖）"@),
    }
}

/// The registry as read back from the interpreter.
#[derive(Debug, PartialEq, Eq)]
pub struct Listing {
    pub systems: Vec<SystemDecl>,
    pub fns: Vec<String>,
}

/// The texts of an array value, in order (non-texts skipped; nothing for a non-array).
pub fn text_items(v: Option<&Json>) -> (r: Vec<String>)
    ensures
        strings_view(r@) == text_list(match v { Some(x) => Some(x@), None => None }),
{
    let mut r: Vec<String> = Vec::new();
    match v {
        Some(Json::Array(a)) => {
            proof { crate::json::lemma_seq_view(a@); }
            let ghost av = seq_view(a@);
            let mut i: usize = 0;
            while i < a.len()
                invariant
                    i <= a@.len(),
                    av == seq_view(a@),
                    av.len() == a@.len(),
                    forall|k: int| 0 <= k < a@.len() ==> #[trigger] av[k] == json_view(a@[k]),
                    strings_view(r@) == texts_among(av.subrange(0, i as int)),
                decreases a@.len() - i,
            {
                let ghost pre = r@;
                assert(av.subrange(0, i + 1).drop_last() =~= av.subrange(0, i as int));
                match &a[i] {
                    Json::Str(t) => {
                        r.push(t.clone());
                        assert(strings_view(r@) =~= strings_view(pre) + seq![t@]);
                    },
                    _ => {
                        assert(strings_view(r@) =~= strings_view(pre) + Seq::<Seq<char>>::empty());
                    },
                }
                i += 1;
            }
            assert(av.subrange(0, a@.len() as int) =~= av);
        },
        _ => {
            assert(strings_view(r@) =~= Seq::<Seq<char>>::empty());
        },
    }
    r
}

fn load_error(message: &str) -> (e: ScriptError)
    ensures
        e matches ScriptError::Load { file, message: m } && file@ == "<注册表>"@ && m@ == message@,
{
    ScriptError::Load { file: String::from_str("<注册表>"), message: String::from_str(message) }
}

/// Read back the registry the prelude lists (see [`listing_spec`]); a malformed one is a load
/// error of `<注册表>`.
pub fn parse_listing(v: &Json) -> (r: Result<Listing, ScriptError>)
    ensures
        match listing_spec(v@) {
            Ok((systems, fns)) => r matches Ok(l) && l.systems@.map_values(|d: SystemDecl| d@) == systems
                && strings_view(l.fns@) == fns,
            Err(m) => r matches Err(ScriptError::Load { file, message }) && file@ == "<注册表>"@ && message@ == m,
        },
{
    let systems = match v.get("systems") {
        Some(x) => match x.as_array() {
            Some(a) => a,
            None => return Err(load_error("prelude __list 输出缺少 systems 数组（globalThis.__list 可能被脚本覆盖）")),
        },
        None => return Err(load_error("prelude __list 输出缺少 systems 数组（globalThis.__list 可能被脚本覆盖）")),
    };
    proof { crate::json::lemma_seq_view(systems@); }
    let ghost sv = seq_view(systems@);
    let mut decls: Vec<SystemDecl> = Vec::new();
    let mut i: usize = 0;
    while i < systems.len()
        invariant
            i <= systems@.len(),
            sv == seq_view(systems@),
            sv.len() == systems@.len(),
            forall|k: int| 0 <= k < systems@.len() ==> #[trigger] sv[k] == json_view(systems@[k]),
            get_spec(v@, "systems"@) == Some(JsonV::Array(sv)),
            forall|k: int| 0 <= k < i ==> (#[trigger] decl_of(sv[k])) is Some,
            decls@.map_values(|d: SystemDecl| d@) == sv.subrange(0, i as int).map_values(|x: JsonV| decl_of(x)->0),
        decreases systems@.len() - i,
    {
        let s = &systems[i];
        let name = match s.get("name") {
            Some(n) => n.as_str(),
            None => None,
        };
        match name {
            None => {
                proof { assert(!all_decls_named(sv)) by { assert(decl_of(sv[i as int]) is None); } }
                return Err(load_error("prelude __list 输出的 system 缺少 name 字段"));
            },
            Some(name) => {
                let has_catch_up = match s.get("catch_up") {
                    Some(c) => match c.as_bool() {
                        Some(b) => b,
                        None => false,
                    },
                    None => false,
                };
                let d = SystemDecl {
                    name: String::from_str(name),
                    query: text_items(s.get("query")),
                    writes: text_items(s.get("writes")),
                    has_catch_up,
                };
                let ghost pre = decls@;
                proof {
                    assert(d@ == decl_of(sv[i as int])->0) by {
                        match get_spec(sv[i as int], "catch_up"@) {
                            Some(JsonV::Bool(b)) => {},
                            _ => {},
                        }
                    }
                }
                decls.push(d);
                proof {
                    assert(sv.subrange(0, i + 1) =~= sv.subrange(0, i as int).push(sv[i as int]));
                    assert(decls@.map_values(|x: SystemDecl| x@) =~= pre.map_values(|x: SystemDecl| x@).push(d@));
                }
            },
        }
        i += 1;
    }
    proof { assert(sv.subrange(0, systems@.len() as int) =~= sv); }
    let fns = text_items(v.get("fns"));
    Ok(Listing { systems: decls, fns })
}

// ---- float revival ----

/// Whether an IEEE-754 bit pattern is a finite double (its exponent is not all ones).
pub open spec fn finite_bits(bits: u64) -> bool {
    (bits >> 52u64) & 0x7ffu64 != 0x7ffu64
}

/// What reviving the float marker `{"$f64": hex}` gives.
pub open spec fn revive_marker(hex: Seq<char>) -> Result<JsonV, Seq<char>> {
    match parse_uint_spec(hex, 16) {
        Err(e) => Err("$f64 位串 "@ + debug_quoted(hex) + " 不合法: "@ + int_error_text(e)),
        Ok(bits) => if finite_bits(bits) {
            Ok(JsonV::Number(JsonNumber::Float(bits)))
        } else {
            Err("$f64 位串 "@ + debug_quoted(hex) + " 不是有限浮点数"@)
        },
    }
}

/// The marker text of a one-entry object `{"$f64": text}`.
pub open spec fn marker_of(m: Seq<(Seq<char>, JsonV)>) -> Option<Seq<char>> {
    if m.len() == 1 && m[0].0 == "$f64"@ {
        match m[0].1 {
            JsonV::Str(h) => Some(h),
            _ => None,
        }
    } else {
        None
    }
}

/// A returned value with every float marker replaced by the float its bits spell (an object
/// holding exactly the entry `"$f64"` with a text), or the first marker that is malformed.
pub open spec fn revived(v: JsonV) -> Result<JsonV, Seq<char>>
    decreases v,
{
    match v {
        JsonV::Object(m) => match marker_of(m) {
            Some(h) => revive_marker(h),
            None => match revived_entries(m) {
                Ok(r) => Ok(JsonV::Object(r)),
                Err(e) => Err(e),
            },
        },
        JsonV::Array(a) => match revived_items(a) {
            Ok(r) => Ok(JsonV::Array(r)),
            Err(e) => Err(e),
        },
        _ => Ok(v),
    }
}

pub open spec fn revived_items(a: Seq<JsonV>) -> Result<Seq<JsonV>, Seq<char>>
    decreases a,
{
    if a.len() == 0 {
        Ok(Seq::empty())
    } else {
        match revived_items(a.drop_last()) {
            Err(e) => Err(e),
            Ok(r) => match revived(a.last()) {
                Err(e) => Err(e),
                Ok(x) => Ok(r.push(x)),
            },
        }
    }
}

pub open spec fn revived_entries(m: Seq<(Seq<char>, JsonV)>) -> Result<Seq<(Seq<char>, JsonV)>, Seq<char>>
    decreases m,
{
    if m.len() == 0 {
        Ok(Seq::empty())
    } else {
        match revived_entries(m.drop_last()) {
            Err(e) => Err(e),
            Ok(r) => match revived(m.last().1) {
                Err(e) => Err(e),
                Ok(x) => Ok(r.push((m.last().0, x))),
            },
        }
    }
}

proof fn lemma_items_err_prefix(a: Seq<JsonV>, k: int)
    requires
        0 <= k <= a.len(),
        revived_items(a.subrange(0, k)) is Err,
    ensures
        revived_items(a) == revived_items(a.subrange(0, k)),
    decreases a.len(),
{
    if k < a.len() {
        assert(a.drop_last().subrange(0, k) =~= a.subrange(0, k));
        lemma_items_err_prefix(a.drop_last(), k);
    } else {
        assert(a.subrange(0, k) =~= a);
    }
}

proof fn lemma_entries_err_prefix(m: Seq<(Seq<char>, JsonV)>, k: int)
    requires
        0 <= k <= m.len(),
        revived_entries(m.subrange(0, k)) is Err,
    ensures
        revived_entries(m) == revived_entries(m.subrange(0, k)),
    decreases m.len(),
{
    if k < m.len() {
        assert(m.drop_last().subrange(0, k) =~= m.subrange(0, k));
        lemma_entries_err_prefix(m.drop_last(), k);
    } else {
        assert(m.subrange(0, k) =~= m);
    }
}

fn revive_marker_exec(hex: &str, location: &str) -> (r: Result<Json, ScriptError>)
    ensures
        match revive_marker(hex@) {
            Ok(x) => r matches Ok(j) && j@ == x,
            Err(m) => r matches Err(ScriptError::Op { location: l, message }) && l@ == location@ && message@ == m,
        },
{
    match parse_uint(hex, 16) {
        Err(e) => {
            let mut m = String::from_str("$f64 位串 ");
            let q = debug_quote(hex);
            push_str(&mut m, q.as_str());
            push_str(&mut m, " 不合法: ");
            push_str(&mut m, int_error_message(e));
            Err(ScriptError::Op { location: String::from_str(location), message: m })
        },
        Ok(bits) => {
            if (bits >> 52u64) & 0x7ffu64 != 0x7ffu64 {
                Ok(Json::Number(JsonNumber::Float(bits)))
            } else {
                let mut m = String::from_str("$f64 位串 ");
                let q = debug_quote(hex);
                push_str(&mut m, q.as_str());
                push_str(&mut m, " 不是有限浮点数");
                Err(ScriptError::Op { location: String::from_str(location), message: m })
            }
        },
    }
}

/// Revive the float markers of a value a script returned (see [`revived`]); a malformed marker
/// is an operation error at `location`.
pub fn revive_f64(v: &Json, location: &str) -> (r: Result<Json, ScriptError>)
    ensures
        match revived(v@) {
            Ok(x) => r matches Ok(j) && j@ == x,
            Err(m) => r matches Err(ScriptError::Op { location: l, message }) && l@ == location@ && message@ == m,
        },
    decreases v,
{
    match v {
        Json::Object(m) => {
            proof { crate::json::lemma_entries_view(m@); }
            let ghost mv = crate::json::entries_view(m@);
            if m.len() == 1 && crate::text::str_eq(m[0].0.as_str(), "$f64") {
                match &m[0].1 {
                    Json::Str(h) => {
                        proof { assert(marker_of(mv) == Some(h@)); }
                        return revive_marker_exec(h.as_str(), location);
                    },
                    _ => {},
                }
            }
            proof {
                assert(marker_of(mv) is None);
                assert(decreases_to!(*v => *m));
            }
            let mut out: Vec<(String, Json)> = Vec::new();
            let mut i: usize = 0;
            while i < m.len()
                invariant
                    decreases_to!(*v => *m),
                    v@ == JsonV::Object(mv),
                    marker_of(mv) is None,
                    i <= m@.len(),
                    mv == crate::json::entries_view(m@),
                    mv.len() == m@.len(),
                    forall|k: int| 0 <= k < m@.len() ==> #[trigger] mv[k] == (m@[k].0@, json_view(m@[k].1)),
                    revived_entries(mv.subrange(0, i as int)) == Ok::<Seq<(Seq<char>, JsonV)>, Seq<char>>(crate::json::entries_view(out@)),
                decreases m@.len() - i,
            {
                proof {
                    vstd::std_specs::vec::axiom_vec_index_decreases(*m, i as int);
                    assert(decreases_to!(m@[i as int] => m@[i as int].1));
                    assert(mv.subrange(0, i + 1).drop_last() =~= mv.subrange(0, i as int));
                    assert(mv.subrange(0, i + 1).last() == mv[i as int]);
                }
                let x = revive_f64(&m[i].1, location);
                match x {
                    Err(e) => {
                        proof {
                            let sub = mv.subrange(0, i + 1);
                            assert(sub.drop_last() =~= mv.subrange(0, i as int));
                            assert(sub.last() == mv[i as int]);
                            assert(revived(mv[i as int].1) is Err);
                            assert(revived_entries(sub) is Err);
                            lemma_entries_err_prefix(mv, i + 1);
                            assert(revived_entries(mv) is Err);
                            assert(marker_of(mv) is None);
                            assert(v@ == JsonV::Object(mv));
                            assert(revived_entries(mv)->Err_0 == revived(mv[i as int].1)->Err_0);
                            assert(revived(v@) == revived(mv[i as int].1));
                        }
                        return Err(e);
                    },
                    Ok(x) => {
                        let ghost pre = out@;
                        out.push((m[i].0.clone(), x));
                        proof {
                            crate::json::lemma_entries_view(pre);
                            crate::json::lemma_entries_view(out@);
                            assert(crate::json::entries_view(out@) =~= crate::json::entries_view(pre).push((m@[i as int].0@, x@)));
                        }
                    },
                }
                i += 1;
            }
            proof { assert(mv.subrange(0, m@.len() as int) =~= mv); }
            Ok(Json::Object(out))
        },
        Json::Array(a) => {
            proof {
                crate::json::lemma_seq_view(a@);
                assert(decreases_to!(*v => *a));
            }
            let ghost av = seq_view(a@);
            let mut out: Vec<Json> = Vec::new();
            let mut i: usize = 0;
            while i < a.len()
                invariant
                    decreases_to!(*v => *a),
                    v@ == JsonV::Array(av),
                    i <= a@.len(),
                    av == seq_view(a@),
                    av.len() == a@.len(),
                    forall|k: int| 0 <= k < a@.len() ==> #[trigger] av[k] == json_view(a@[k]),
                    revived_items(av.subrange(0, i as int)) == Ok::<Seq<JsonV>, Seq<char>>(seq_view(out@)),
                decreases a@.len() - i,
            {
                proof {
                    vstd::std_specs::vec::axiom_vec_index_decreases(*a, i as int);
                    assert(av.subrange(0, i + 1).drop_last() =~= av.subrange(0, i as int));
                    assert(av.subrange(0, i + 1).last() == av[i as int]);
                }
                let x = revive_f64(&a[i], location);
                match x {
                    Err(e) => {
                        proof {
                            let sub = av.subrange(0, i + 1);
                            assert(sub.drop_last() =~= av.subrange(0, i as int));
                            assert(sub.last() == av[i as int]);
                            assert(revived_items(sub) is Err);
                            lemma_items_err_prefix(av, i + 1);
                            assert(v@ == JsonV::Array(av));
                            assert(revived_items(av)->Err_0 == revived(av[i as int])->Err_0);
                            assert(revived(v@) == revived(av[i as int]));
                        }
                        return Err(e);
                    },
                    Ok(x) => {
                        let ghost pre = out@;
                        out.push(x);
                        proof {
                            crate::json::lemma_seq_view(pre);
                            crate::json::lemma_seq_view(out@);
                            assert(seq_view(out@) =~= seq_view(pre).push(x@));
                        }
                    },
                }
                i += 1;
            }
            proof { assert(av.subrange(0, a@.len() as int) =~= av); }
            Ok(Json::Array(out))
        },
        _ => Ok(v.deep_clone()),
    }
}

// ---- the operation stream ----

/// One operation a script asks for.
#[derive(Debug, PartialEq, Eq)]
pub enum ScriptOp {
    /// Emit an event.
    Emit(Event),
    /// Spawn an entity (named, when a name is given) with these components.
    Spawn { name: Option<String>, components: Vec<(String, Json)> },
    /// Despawn the entity with this handle.
    Despawn { handle: String },
    /// Set a field of the entity `target` (a handle or a name, without the `@`).
    SetField { target: String, path: String, value: Json },
}

/// The content of an operation.
pub enum ScriptOpV {
    Emit(EventV),
    Spawn { name: Option<Seq<char>>, components: Seq<(Seq<char>, JsonV)> },
    Despawn { handle: Seq<char> },
    SetField { target: Seq<char>, path: Seq<char>, value: JsonV },
}

impl View for ScriptOp {
    type V = ScriptOpV;

    open spec fn view(&self) -> ScriptOpV {
        match self {
            ScriptOp::Emit(e) => ScriptOpV::Emit(e@),
            ScriptOp::Spawn { name, components } => ScriptOpV::Spawn {
                name: match name { Some(n) => Some(n@), None => None },
                components: crate::json::entries_view(components@),
            },
            ScriptOp::Despawn { handle } => ScriptOpV::Despawn { handle: handle@ },
            ScriptOp::SetField { target, path, value } => ScriptOpV::SetField { target: target@, path: path@, value: value@ },
        }
    }
}

/// Why an operation is refused: a field the prelude guarantees is missing (the prelude was
/// tampered with), or the operation itself is invalid.
pub enum OpFault {
    Prelude(Seq<char>),
    Invalid(Seq<char>),
}

/// The message for a missing prelude-guaranteed field.
pub open spec fn missing_field_message(field: Seq<char>) -> Seq<char> {
    "op 缺少 prelude 保证的字段 "@ + debug_quoted(field) + "（prelude 内部函数可能被覆盖）"@
}

/// How `{:?}` prints an optional text.
pub open spec fn debug_option(t: Option<Seq<char>>) -> Seq<char> {
    match t {
        None => "None"@,
        Some(x) => "Some("@ + debug_quoted(x) + ")"@,
    }
}

/// `t` without one leading `@`.
pub open spec fn strip_at(t: Seq<char>) -> Seq<char> {
    if t.len() > 0 && t[0] == '@' { t.drop_first() } else { t }
}

/// What an operation asks for, or why it is refused.
pub open spec fn op_decoded(op: JsonV) -> Result<ScriptOpV, OpFault> {
    let kind = get_str_spec(op, "op"@);
    if kind == Some("emit"@) {
        match get_str_spec(op, "name"@) {
            None => Err(OpFault::Prelude(missing_field_message("name"@))),
            Some(name) => Ok(ScriptOpV::Emit(EventV {
                name,
                data: match get_spec(op, "data"@) {
                    Some(d) => object_entries(d),
                    None => Seq::empty(),
                },
            })),
        }
    } else if kind == Some("spawn"@) {
        match get_spec(op, "components"@) {
            Some(JsonV::Object(c)) => Ok(ScriptOpV::Spawn { name: get_str_spec(op, "name"@), components: c }),
            _ => Err(OpFault::Invalid("spawn 的 components 必须是对象"@)),
        }
    } else if kind == Some("despawn"@) {
        match get_str_spec(op, "id"@) {
            None => Err(OpFault::Prelude(missing_field_message("id"@))),
            Some(handle) => Ok(ScriptOpV::Despawn { handle }),
        }
    } else if kind == Some("setField"@) {
        match get_str_spec(op, "ref"@) {
            None => Err(OpFault::Prelude(missing_field_message("ref"@))),
            Some(r) => match get_str_spec(op, "path"@) {
                None => Err(OpFault::Prelude(missing_field_message("path"@))),
                Some(path) => Ok(ScriptOpV::SetField {
                    target: strip_at(r),
                    path,
                    value: match get_spec(op, "value"@) {
                        Some(x) => x,
                        None => JsonV::Null,
                    },
                }),
            },
        }
    } else {
        Err(OpFault::Invalid("未知操作 "@ + debug_option(kind)))
    }
}

/// What a decoded operation holds, read off the operation object's own fields:
/// - `emit` with a text `name` emits an event of that name, whose data is the `data` object
///   (empty when `data` is missing or not an object);
/// - `spawn` with a `components` object spawns those components, named by the text `name`
///   when there is one and unnamed otherwise;
/// - `despawn` with a text `id` despawns that handle;
/// - `setField` with texts `ref` and `path` writes `value` (null when missing) to that path of
///   the entity `ref` names (a leading `@` marks a name and is dropped).
pub proof fn lemma_decoded_op_fields(op: JsonV)
    ensures
        get_spec(op, "op"@) == Some(JsonV::Str("emit"@)) ==> (get_spec(op, "name"@) matches Some(JsonV::Str(n))
            ==> (op_decoded(op) matches Ok(ScriptOpV::Emit(e)) && e.name == n
                && e.data == match get_spec(op, "data"@) {
                    Some(JsonV::Object(d)) => d,
                    _ => Seq::<(Seq<char>, JsonV)>::empty(),
                })),
        get_spec(op, "op"@) == Some(JsonV::Str("spawn"@)) ==> (get_spec(op, "components"@) matches Some(JsonV::Object(c))
            ==> (op_decoded(op) matches Ok(ScriptOpV::Spawn { name, components }) && components == c
                && name == match get_spec(op, "name"@) {
                    Some(JsonV::Str(n)) => Some(n),
                    _ => None::<Seq<char>>,
                })),
        get_spec(op, "op"@) == Some(JsonV::Str("despawn"@)) ==> (get_spec(op, "id"@) matches Some(JsonV::Str(h))
            ==> (op_decoded(op) matches Ok(ScriptOpV::Despawn { handle }) && handle == h)),
        get_spec(op, "op"@) == Some(JsonV::Str("setField"@)) ==> (get_spec(op, "ref"@) matches Some(JsonV::Str(r))
            ==> (get_spec(op, "path"@) matches Some(JsonV::Str(pa))
            ==> (op_decoded(op) matches Ok(ScriptOpV::SetField { target, path, value }) && path == pa
                && target == (if r.len() > 0 && r[0] == '@' { r.subrange(1, r.len() as int) } else { r })
                && value == match get_spec(op, "value"@) {
                    Some(v) => v,
                    None => JsonV::Null,
                }))),
{
    reveal_strlit("emit");
    reveal_strlit("spawn");
    reveal_strlit("despawn");
    reveal_strlit("setField");
    assert("emit"@.len() == 4 && "spawn"@.len() == 5 && "despawn"@.len() == 7 && "setField"@.len() == 8);
    assert("spawn"@ != "emit"@ && "despawn"@ != "emit"@ && "despawn"@ != "spawn"@);
    assert("setField"@ != "emit"@ && "setField"@ != "spawn"@ && "setField"@ != "despawn"@);
}

fn missing_field(location: &str, field: &str) -> (e: ScriptError)
    ensures
        e matches ScriptError::PreludeViolated { location: l, message } && l@ == location@
            && message@ == missing_field_message(field@),
{
    let mut m = String::from_str("op 缺少 prelude 保证的字段 ");
    let q = debug_quote(field);
    push_str(&mut m, q.as_str());
    push_str(&mut m, "（prelude 内部函数可能被覆盖）");
    ScriptError::PreludeViolated { location: String::from_str(location), message: m }
}

fn text_at<'a>(v: &'a Json, key: &str) -> (r: Option<&'a str>)
    ensures
        match r {
            Some(t) => get_str_spec(v@, key@) == Some(t@),
            None => get_str_spec(v@, key@) is None,
        },
{
    match v.get(key) {
        Some(x) => x.as_str(),
        None => None,
    }
}

/// Decode one operation of the stream a script returned (see [`op_decoded`]); a refusal is a
/// prelude violation or an operation error at `location`.
pub fn decode_op(op: &Json, location: &str) -> (r: Result<ScriptOp, ScriptError>)
    ensures
        match op_decoded(op@) {
            Ok(x) => r matches Ok(o) && o@ == x,
            Err(OpFault::Prelude(m)) => r matches Err(ScriptError::PreludeViolated { location: l, message })
                && l@ == location@ && message@ == m,
            Err(OpFault::Invalid(m)) => r matches Err(ScriptError::Op { location: l, message })
                && l@ == location@ && message@ == m,
        },
{
    let kind = text_at(op, "op");
    let is = |k: &str| -> (b: bool)
        ensures
            b == (kind matches Some(t) && t@ == k@),
    {
        match kind {
            Some(t) => crate::text::str_eq(t, k),
            None => false,
        }
    };
    if is("emit") {
        match text_at(op, "name") {
            None => Err(missing_field(location, "name")),
            Some(name) => {
                let data = match op.get("data") {
                    Some(d) => d.deep_clone(),
                    None => Json::Null,
                };
                Ok(ScriptOp::Emit(Event::new(name, data)))
            },
        }
    } else if is("spawn") {
        match op.get("components") {
            Some(Json::Object(c)) => {
                let name = match text_at(op, "name") {
                    Some(n) => Some(String::from_str(n)),
                    None => None,
                };
                Ok(ScriptOp::Spawn { name, components: crate::json::clone_entries(c) })
            },
            _ => Err(op_error(location, "spawn 的 components 必须是对象")),
        }
    } else if is("despawn") {
        match text_at(op, "id") {
            None => Err(missing_field(location, "id")),
            Some(h) => Ok(ScriptOp::Despawn { handle: String::from_str(h) }),
        }
    } else if is("setField") {
        match text_at(op, "ref") {
            None => Err(missing_field(location, "ref")),
            Some(r) => match text_at(op, "path") {
                None => Err(missing_field(location, "path")),
                Some(path) => {
                    let cs = chars_of(r);
                    let target = if cs.len() > 0 && cs[0] == '@' {
                        let mut t: Vec<char> = Vec::new();
                        let mut k: usize = 1;
                        while k < cs.len()
                            invariant
                                1 <= k <= cs@.len(),
                                t@ == cs@.subrange(1, k as int),
                            decreases cs@.len() - k,
                        {
                            t.push(cs[k]);
                            k += 1;
                        }
                        proof { assert(cs@.subrange(1, cs@.len() as int) =~= cs@.drop_first()); }
                        crate::text::string_of(&t)
                    } else {
                        String::from_str(r)
                    };
                    let value = match op.get("value") {
                        Some(x) => x.deep_clone(),
                        None => Json::Null,
                    };
                    Ok(ScriptOp::SetField { target, path: String::from_str(path), value })
                },
            },
        }
    } else {
        let mut m = String::from_str("未知操作 ");
        match kind {
            None => push_str(&mut m, "None"),
            Some(t) => {
                push_str(&mut m, "Some(");
                let q = debug_quote(t);
                push_str(&mut m, q.as_str());
                push_str(&mut m, ")");
            },
        }
        proof {
            let k = get_str_spec(op@, "op"@);
            assert(k != Some("emit"@) && k != Some("spawn"@) && k != Some("despawn"@) && k != Some("setField"@));
        }
        Err(ScriptError::Op { location: String::from_str(location), message: m })
    }
}

// ---- what a system returns ----

/// Where a system runs, as errors name it: `系统 "name"`.
pub fn system_location(name: &str) -> (l: String)
    ensures
        l@ == "系统 "@ + debug_quoted(name@),
{
    let mut l = String::from_str("系统 ");
    let q = debug_quote(name);
    push_str(&mut l, q.as_str());
    l
}

/// Where a system's catch-up function runs: `系统 "name" 的 catch_up`.
pub fn catch_up_location(name: &str) -> (l: String)
    ensures
        l@ == "系统 "@ + debug_quoted(name@) + " 的 catch_up"@,
{
    let mut l = system_location(name);
    push_str(&mut l, " 的 catch_up");
    l
}

/// Where a script function called by a rule runs: `函数 "name"`.
pub fn function_location(name: &str) -> (l: String)
    ensures
        l@ == "函数 "@ + debug_quoted(name@),
{
    let mut l = String::from_str("函数 ");
    let q = debug_quote(name);
    push_str(&mut l, q.as_str());
    l
}

/// A returned text that is not JSON: an operation error carrying the parser's explanation.
pub fn bad_return_json(location: &str, detail: &str) -> (e: ScriptError)
    ensures
        e matches ScriptError::Op { location: l, message } && l@ == location@ && message@ == "返回值不是合法 JSON: "@ + detail@,
{
    let mut m = String::from_str("返回值不是合法 JSON: ");
    push_str(&mut m, detail);
    ScriptError::Op { location: String::from_str(location), message: m }
}

/// The `entities` array a system hands back.
pub fn returned_entities<'a>(result: &'a Json, location: &str) -> (r: Result<&'a Vec<Json>, ScriptError>)
    ensures
        match get_spec(result@, "entities"@) {
            Some(JsonV::Array(a)) => r matches Ok(v) && seq_view(v@) == a,
            _ => r matches Err(ScriptError::Op { location: l, message }) && l@ == location@
                && message@ == "返回缺少 entities 数组（不要整体替换 entities 参数）"@,
        },
{
    match result.get("entities") {
        Some(v) => match v.as_array() {
            Some(a) => Ok(a),
            None => Err(op_error(location, "返回缺少 entities 数组（不要整体替换 entities 参数）")),
        },
        None => Err(op_error(location, "返回缺少 entities 数组（不要整体替换 entities 参数）")),
    }
}

/// A system must hand back exactly as many entities as it was given.
pub fn check_entity_count(location: &str, sent: usize, returned: usize) -> (r: Result<(), ScriptError>)
    ensures
        sent == returned ==> r is Ok,
        sent != returned ==> (r matches Err(ScriptError::Op { location: l, message }) && l@ == location@
            && message@ == "entities 数组长度从 "@ + decimal(sent as nat) + " 变成了 "@ + decimal(returned as nat)
                + "。不要增删数组元素；生成/销毁实体用 ctx.spawn / ctx.despawn"@),
{
    if sent == returned {
        return Ok(());
    }
    let mut m = String::from_str("entities 数组长度从 ");
    push_decimal(&mut m, sent as u64);
    push_str(&mut m, " 变成了 ");
    push_decimal(&mut m, returned as u64);
    push_str(&mut m, "。不要增删数组元素；生成/销毁实体用 ctx.spawn / ctx.despawn");
    Err(ScriptError::Op { location: String::from_str(location), message: m })
}

/// The error for a returned entity that is no longer an object.
pub fn entity_not_object(location: &str, index: usize) -> (e: ScriptError)
    ensures
        e matches ScriptError::Op { location: l, message } && l@ == location@
            && message@ == "entities["@ + decimal(index as nat) + "] 被改成了非对象"@,
{
    let mut m = String::from_str("entities[");
    push_decimal(&mut m, index as u64);
    push_str(&mut m, "] 被改成了非对象");
    ScriptError::Op { location: String::from_str(location), message: m }
}

fn undeclared(decl: &SystemDecl, entity: &str, component: &str) -> (e: ScriptError)
    ensures
        e matches ScriptError::UndeclaredWrite { system, entity: en, component: c } && system@ == decl.name@
            && en@ == entity@ && c@ == component@,
{
    ScriptError::UndeclaredWrite { system: decl.name.clone(), entity: String::from_str(entity), component: String::from_str(component) }
}

/// The keys of a returned entity: besides `id`, only the components the system reads may
/// appear; the first other key is an undeclared write.
pub fn check_returned_keys(decl: &SystemDecl, entity: &str, keys: &Vec<String>) -> (r: Result<(), ScriptError>)
    ensures
        r is Ok <==> (forall|i: int| 0 <= i < keys@.len() ==> keys@[i]@ == "id"@ || decl@.query.contains(#[trigger] keys@[i]@)),
        r is Err ==> (exists|i: int| 0 <= i < keys@.len() && keys@[i]@ != "id"@ && !decl@.query.contains(#[trigger] keys@[i]@)
            && (forall|j: int| 0 <= j < i ==> keys@[j]@ == "id"@ || decl@.query.contains(#[trigger] keys@[j]@))
            && (r matches Err(ScriptError::UndeclaredWrite { system, entity: en, component })
                && system@ == decl.name@ && en@ == entity@ && component@ == keys@[i]@)),
{
    let mut i: usize = 0;
    while i < keys.len()
        invariant
            i <= keys@.len(),
            forall|j: int| 0 <= j < i ==> keys@[j]@ == "id"@ || decl@.query.contains(#[trigger] keys@[j]@),
        decreases keys@.len() - i,
    {
        if !crate::text::str_eq(keys[i].as_str(), "id") && !strings_contain(&decl.query, keys[i].as_str()) {
            let e = undeclared(decl, entity, keys[i].as_str());
            proof { assert(keys@[i as int]@ != "id"@ && !decl@.query.contains(keys@[i as int]@)); }
            return Err(e);
        }
        i += 1;
    }
    Ok(())
}

/// A changed component must be one the system declared in `writes`.
pub fn check_write(decl: &SystemDecl, entity: &str, component: &str) -> (r: Result<(), ScriptError>)
    ensures
        decl@.writes.contains(component@) ==> r is Ok,
        !decl@.writes.contains(component@) ==> (r matches Err(ScriptError::UndeclaredWrite { system, entity: en, component: c })
            && system@ == decl.name@ && en@ == entity@ && c@ == component@),
{
    if strings_contain(&decl.writes, component) {
        Ok(())
    } else {
        Err(undeclared(decl, entity, component))
    }
}


// ---- a system's returned entities, as one batch ----

/// One component value a system wrote back: entity position, component, new value.
#[derive(Debug, PartialEq, Eq)]
pub struct PendingWrite {
    pub entity: usize,
    pub component: String,
    pub value: Json,
}

/// The content of a pending write.
pub struct PendingWriteV {
    pub entity: nat,
    pub component: Seq<char>,
    pub value: JsonV,
}

impl View for PendingWrite {
    type V = PendingWriteV;

    open spec fn view(&self) -> PendingWriteV {
        PendingWriteV { entity: self.entity as nat, component: self.component@, value: self.value@ }
    }
}

pub open spec fn writes_view(s: Seq<PendingWrite>) -> Seq<PendingWriteV> {
    s.map_values(|w: PendingWrite| w@)
}

/// Why a returned batch is refused.
pub enum BatchFault {
    /// The array's length changed.
    Count { sent: nat, returned: nat },
    /// The entity at this position is no longer an object.
    NotObject { index: nat },
    /// The entity wrote a component it may not write.
    Undeclared { entity: Seq<char>, component: Seq<char> },
}

/// The keys of object entries, in order.
pub open spec fn entry_keys(m: Seq<(Seq<char>, JsonV)>) -> Seq<Seq<char>> {
    m.map_values(|e: (Seq<char>, JsonV)| e.0)
}

/// Whether a returned key is allowed: `id`, or a component the system reads.
pub open spec fn key_allowed(decl: SystemDeclV, key: Seq<char>) -> bool {
    key == "id"@ || decl.query.contains(key)
}

/// The first key from position `k` on that is not allowed.
pub open spec fn first_bad_key_from(decl: SystemDeclV, keys: Seq<Seq<char>>, k: int) -> Option<Seq<char>>
    decreases keys.len() - k,
{
    if k < 0 || k >= keys.len() {
        None
    } else if !key_allowed(decl, keys[k]) {
        Some(keys[k])
    } else {
        first_bad_key_from(decl, keys, k + 1)
    }
}

/// Put `front` before the writes of `r` (an error stays an error).
pub open spec fn prepend<E>(front: Seq<PendingWriteV>, r: Result<Seq<PendingWriteV>, E>) -> Result<Seq<PendingWriteV>, E> {
    match r {
        Ok(ws) => Ok(front + ws),
        Err(e) => Err(e),
    }
}

/// The writes of entity `i` (returned object `ret`) from the `j`-th read component on: each
/// changed component must be declared in `writes`; a missing one is written as null.
pub open spec fn component_writes_from(decl: SystemDeclV, ret: Seq<(Seq<char>, JsonV)>, changed: Seq<bool>, i: nat, j: int)
    -> Result<Seq<PendingWriteV>, Seq<char>>
    decreases decl.query.len() - j,
{
    if j < 0 || j >= decl.query.len() {
        Ok(Seq::empty())
    } else if !changed[j] {
        component_writes_from(decl, ret, changed, i, j + 1)
    } else if !decl.writes.contains(decl.query[j]) {
        Err(decl.query[j])
    } else {
        let value = match entries_get(ret, decl.query[j]) {
            Some(v) => v,
            None => JsonV::Null,
        };
        prepend(seq![PendingWriteV { entity: i, component: decl.query[j], value }],
            component_writes_from(decl, ret, changed, i, j + 1))
    }
}

/// The outcome for entity `i`.
pub open spec fn entity_outcome(decl: SystemDeclV, id: Seq<char>, ret: JsonV, changed: Seq<bool>, i: nat)
    -> Result<Seq<PendingWriteV>, BatchFault>
{
    match ret {
        JsonV::Object(m) => match first_bad_key_from(decl, entry_keys(m), 0) {
            Some(key) => Err(BatchFault::Undeclared { entity: id, component: key }),
            None => match component_writes_from(decl, m, changed, i, 0) {
                Ok(ws) => Ok(ws),
                Err(c) => Err(BatchFault::Undeclared { entity: id, component: c }),
            },
        },
        _ => Err(BatchFault::NotObject { index: i }),
    }
}

/// The outcome for the entities from position `k` on.
pub open spec fn batch_from(decl: SystemDeclV, ids: Seq<Seq<char>>, returned: Seq<JsonV>, changed: Seq<Seq<bool>>, k: int)
    -> Result<Seq<PendingWriteV>, BatchFault>
    decreases returned.len() - k,
{
    if k < 0 || k >= returned.len() {
        Ok(Seq::empty())
    } else {
        match entity_outcome(decl, ids[k], returned[k], changed[k], k as nat) {
            Err(f) => Err(f),
            Ok(ws) => prepend(ws, batch_from(decl, ids, returned, changed, k + 1)),
        }
    }
}

/// The outcome of a whole returned batch: its length must be unchanged, then the entities are
/// checked in order and the first fault refuses the whole batch.
pub open spec fn batch_outcome(decl: SystemDeclV, ids: Seq<Seq<char>>, returned: Seq<JsonV>, changed: Seq<Seq<bool>>)
    -> Result<Seq<PendingWriteV>, BatchFault>
{
    if returned.len() != ids.len() {
        Err(BatchFault::Count { sent: ids.len(), returned: returned.len() })
    } else {
        batch_from(decl, ids, returned, changed, 0)
    }
}

/// The script error that reports a batch fault.
pub open spec fn batch_error(decl: SystemDeclV, location: Seq<char>, f: BatchFault, e: ScriptError) -> bool {
    match f {
        BatchFault::Count { sent, returned } => e matches ScriptError::Op { location: l, message }
            && l@ == location && message@ == "entities 数组长度从 "@ + decimal(sent) + " 变成了 "@ + decimal(returned)
                + "。不要增删数组元素；生成/销毁实体用 ctx.spawn / ctx.despawn"@,
        BatchFault::NotObject { index } => e matches ScriptError::Op { location: l, message }
            && l@ == location && message@ == "entities["@ + decimal(index) + "] 被改成了非对象"@,
        BatchFault::Undeclared { entity, component } => e matches ScriptError::UndeclaredWrite { system, entity: en, component: c }
            && system@ == decl.name && en@ == entity && c@ == component,
    }
}

proof fn lemma_prepend_assoc<E>(a: Seq<PendingWriteV>, b: Seq<PendingWriteV>, r: Result<Seq<PendingWriteV>, E>)
    ensures
        prepend(a, prepend(b, r)) == prepend(a + b, r),
{
    match r {
        Ok(ws) => { assert((a + b) + ws =~= a + (b + ws)); },
        Err(_) => {},
    }
}

fn first_bad_key<'a>(decl: &SystemDecl, m: &'a Vec<(String, Json)>) -> (r: Option<&'a str>)
    ensures
        match first_bad_key_from(decl@, entry_keys(entries_view(m@)), 0) {
            Some(k) => r matches Some(x) && x@ == k,
            None => r is None,
        },
{
    let ghost keys = entry_keys(entries_view(m@));
    proof { crate::json::lemma_entries_view(m@); }
    let mut k: usize = 0;
    while k < m.len()
        invariant
            k <= m@.len(),
            keys == entry_keys(entries_view(m@)),
            keys.len() == m@.len(),
            forall|t: int| 0 <= t < m@.len() ==> #[trigger] keys[t] == m@[t].0@,
            first_bad_key_from(decl@, keys, 0) == first_bad_key_from(decl@, keys, k as int),
        decreases m@.len() - k,
    {
        let key = m[k].0.as_str();
        assert(keys[k as int] == key@);
        if !crate::text::str_eq(key, "id") && !strings_contain(&decl.query, key) {
            assert(!key_allowed(decl@, keys[k as int]));
            return Some(key);
        }
        assert(key_allowed(decl@, keys[k as int]));
        k += 1;
    }
    None
}

fn component_writes(decl: &SystemDecl, m: &Vec<(String, Json)>, changed: &Vec<bool>, i: usize, out: &mut Vec<PendingWrite>)
    -> (r: Result<(), String>)
    requires
        changed@.len() == decl.query@.len(),
    ensures
        match component_writes_from(decl@, entries_view(m@), changed@, i as nat, 0) {
            Ok(ws) => r is Ok && writes_view(final(out)@) == writes_view(old(out)@) + ws,
            Err(c) => r matches Err(x) && x@ == c,
        },
{
    let ghost acc0 = writes_view(out@);
    let ghost mv = entries_view(m@);
    let mut j: usize = 0;
    while j < decl.query.len()
        invariant
            j <= decl.query@.len(),
            changed@.len() == decl.query@.len(),
            acc0 == writes_view(old(out)@),
            mv == entries_view(m@),
            writes_view(out@).len() >= acc0.len(),
            writes_view(out@).subrange(0, acc0.len() as int) == acc0,
            component_writes_from(decl@, mv, changed@, i as nat, 0)
                == prepend(writes_view(out@).subrange(acc0.len() as int, writes_view(out@).len() as int),
                    component_writes_from(decl@, mv, changed@, i as nat, j as int)),
        decreases decl.query@.len() - j,
    {
        let comp = decl.query[j].as_str();
        assert(decl@.query[j as int] == comp@);
        if changed[j] {
            if !strings_contain(&decl.writes, comp) {
                return Err(String::from_str(comp));
            }
            let value = match entries_lookup(m, comp) {
                Some(v) => v.deep_clone(),
                None => Json::Null,
            };
            let ghost before = writes_view(out@);
            let ghost w = PendingWriteV { entity: i as nat, component: comp@, value: value@ };
            out.push(PendingWrite { entity: i, component: String::from_str(comp), value });
            proof {
                lemma_prepend_assoc(before.subrange(acc0.len() as int, before.len() as int), seq![w],
                    component_writes_from(decl@, mv, changed@, i as nat, j + 1));
                assert(writes_view(out@) =~= before.push(out@.last()@));
                assert(writes_view(out@).subrange(0, acc0.len() as int) =~= before.subrange(0, acc0.len() as int));
                assert(writes_view(out@).subrange(acc0.len() as int, writes_view(out@).len() as int)
                    =~= before.subrange(acc0.len() as int, before.len() as int) + seq![out@.last()@]);
            }
        }
        j += 1;
    }
    proof {
        assert(writes_view(out@) =~= acc0 + writes_view(out@).subrange(acc0.len() as int, writes_view(out@).len() as int));
    }
    Ok(())
}

/// Check a system's returned entities as one batch, before anything is written: the array
/// keeps its length, each entity stays an object that carries only `id` and the components
/// the system reads, and every component that changed (`changed[i][j]`: entity `i`'s `j`-th
/// read component, as the host compared it) is one the system declared in `writes`. The
/// writes come back in entity order, then read order (a component left out is written as
/// null); the first fault refuses the whole batch, so a refused batch writes nothing. `ids`
/// are the entities' handles as text.
pub fn validate_system_result(decl: &SystemDecl, location: &str, ids: &Vec<String>, returned: &Vec<Json>, changed: &Vec<Vec<bool>>)
    -> (r: Result<Vec<PendingWrite>, ScriptError>)
    requires
        changed@.len() == ids@.len(),
        forall|i: int| 0 <= i < changed@.len() ==> (#[trigger] changed@[i])@.len() == decl.query@.len(),
    ensures
        match batch_outcome(decl@, strings_view(ids@), seq_view(returned@), changed@.map_values(|c: Vec<bool>| c@)) {
            Ok(ws) => r matches Ok(v) && writes_view(v@) == ws,
            Err(f) => r matches Err(e) && batch_error(decl@, location@, f, e),
        },
{
    let ghost idv = strings_view(ids@);
    let ghost rv = seq_view(returned@);
    let ghost cv = changed@.map_values(|c: Vec<bool>| c@);
    proof { crate::json::lemma_seq_view(returned@); }
    if returned.len() != ids.len() {
        let e = match check_entity_count(location, ids.len(), returned.len()) {
            Err(e) => e,
            Ok(()) => op_error(location, ""),
        };
        return Err(e);
    }
    let mut out: Vec<PendingWrite> = Vec::new();
    let mut k: usize = 0;
    while k < returned.len()
        invariant
            k <= returned@.len(),
            returned@.len() == ids@.len(),
            changed@.len() == ids@.len(),
            forall|i: int| 0 <= i < changed@.len() ==> (#[trigger] changed@[i])@.len() == decl.query@.len(),
            rv == seq_view(returned@),
            rv.len() == returned@.len(),
            forall|t: int| 0 <= t < returned@.len() ==> #[trigger] rv[t] == returned@[t]@,
            idv == strings_view(ids@),
            cv == changed@.map_values(|c: Vec<bool>| c@),
            batch_from(decl@, idv, rv, cv, 0) == prepend(writes_view(out@), batch_from(decl@, idv, rv, cv, k as int)),
        decreases returned@.len() - k,
    {
        assert(rv[k as int] == returned@[k as int]@);
        assert(cv[k as int] == changed@[k as int]@);
        assert(idv[k as int] == ids@[k as int]@);
        match &returned[k] {
            Json::Object(m) => {
                match first_bad_key(decl, m) {
                    Some(key) => {
                        return Err(ScriptError::UndeclaredWrite {
                            system: decl.name.clone(),
                            entity: ids[k].clone(),
                            component: String::from_str(key),
                        });
                    },
                    None => {},
                }
                let ghost before = writes_view(out@);
                match component_writes(decl, m, &changed[k], k, &mut out) {
                    Err(c) => {
                        return Err(ScriptError::UndeclaredWrite {
                            system: decl.name.clone(),
                            entity: ids[k].clone(),
                            component: c,
                        });
                    },
                    Ok(()) => {
                        proof {
                            let ws = component_writes_from(decl@, entries_view(m@), changed@[k as int]@, k as nat, 0)->Ok_0;
                            lemma_prepend_assoc(before, ws, batch_from(decl@, idv, rv, cv, k + 1));
                        }
                    },
                }
            },
            _ => {
                return Err(entity_not_object(location, k));
            },
        }
        k += 1;
    }
    proof { assert(writes_view(out@) + Seq::<PendingWriteV>::empty() =~= writes_view(out@)); }
    Ok(out)
}

} // verus!
