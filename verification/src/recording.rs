//! Recordings: everything a deterministic run needs to be replayed — seed, inputs, external
//! replies (both stamped with the tick they entered on) and periodic state-hash checkpoints.
use vstd::prelude::*;
use crate::json::{Json, JsonV};

verus! {

/// A recorded input.
#[derive(Debug, PartialEq, Eq)]
pub struct InputRecord {
    pub tick: u64,
    pub action: String,
    /// "pressed" | "released"
    pub phase: String,
}

/// A recorded external reply (asynchronously arriving content such as a language-model
/// answer): the second and last channel through which outside content enters a run.
#[derive(Debug, PartialEq, Eq)]
pub struct ReplyRecord {
    pub tick: u64,
    /// Event name (by convention "llm-reply" / "llm-error").
    pub name: String,
    /// Event data (a JSON object).
    pub data: Json,
}

/// The content of a recorded input.
pub struct InputRecordV {
    pub tick: u64,
    pub action: Seq<char>,
    pub phase: Seq<char>,
}

/// The content of a recorded reply.
pub struct ReplyRecordV {
    pub tick: u64,
    pub name: Seq<char>,
    pub data: JsonV,
}

impl View for InputRecord {
    type V = InputRecordV;

    open spec fn view(&self) -> InputRecordV {
        InputRecordV { tick: self.tick, action: self.action@, phase: self.phase@ }
    }
}

impl View for ReplyRecord {
    type V = ReplyRecordV;

    open spec fn view(&self) -> ReplyRecordV {
        ReplyRecordV { tick: self.tick, name: self.name@, data: self.data@ }
    }
}

/// A complete recording of a run: seed + inputs + external replies + checkpoints.
#[derive(Debug, PartialEq, Eq)]
pub struct Recording {
    pub seed: u64,
    /// Inputs, in ascending tick order.
    pub inputs: Vec<InputRecord>,
    /// External replies, in ascending tick order; replay re-injects them at their tick.
    pub replies: Vec<ReplyRecord>,
    /// Periodic `(tick, state hash)` checkpoints, compared one by one during replay.
    pub checkpoints: Vec<(u64, u64)>,
    /// Number of ticks the recording covers.
    pub ticks: u64,
    /// World state hash at the end.
    pub final_hash: u64,
}

/// The content of a recording.
pub struct RecordingV {
    pub seed: u64,
    pub inputs: Seq<InputRecordV>,
    pub replies: Seq<ReplyRecordV>,
    pub checkpoints: Seq<(u64, u64)>,
    pub ticks: u64,
    pub final_hash: u64,
}

pub open spec fn inputs_view(s: Seq<InputRecord>) -> Seq<InputRecordV> {
    s.map_values(|r: InputRecord| r@)
}

pub open spec fn replies_view(s: Seq<ReplyRecord>) -> Seq<ReplyRecordV> {
    s.map_values(|r: ReplyRecord| r@)
}

impl View for Recording {
    type V = RecordingV;

    open spec fn view(&self) -> RecordingV {
        RecordingV {
            seed: self.seed,
            inputs: inputs_view(self.inputs@),
            replies: replies_view(self.replies@),
            checkpoints: self.checkpoints@,
            ticks: self.ticks,
            final_hash: self.final_hash,
        }
    }
}

/// The recorded inputs of tick `tick`, in recording order.
pub open spec fn inputs_at_spec(inputs: Seq<InputRecordV>, tick: u64) -> Seq<InputRecordV> {
    inputs.filter(|r: InputRecordV| r.tick == tick)
}

/// The recorded replies of tick `tick`, in recording order.
pub open spec fn replies_at_spec(replies: Seq<ReplyRecordV>, tick: u64) -> Seq<ReplyRecordV> {
    replies.filter(|r: ReplyRecordV| r.tick == tick)
}

impl Recording {
    /// An empty recording (seed 0, nothing recorded).
    pub fn empty() -> (r: Recording)
        ensures
            r@ == (RecordingV {
                seed: 0,
                inputs: Seq::empty(),
                replies: Seq::empty(),
                checkpoints: Seq::empty(),
                ticks: 0,
                final_hash: 0,
            }),
    {
        let r = Recording {
            seed: 0,
            inputs: Vec::new(),
            replies: Vec::new(),
            checkpoints: Vec::new(),
            ticks: 0,
            final_hash: 0,
        };
        proof {
            assert(inputs_view(r.inputs@) =~= Seq::<InputRecordV>::empty());
            assert(replies_view(r.replies@) =~= Seq::<ReplyRecordV>::empty());
        }
        r
    }

    /// All inputs of a given tick, in recording order.
    pub fn inputs_at(&self, tick: u64) -> (r: Vec<&InputRecord>)
        ensures
            r@.map_values(|x: &InputRecord| x@) == inputs_at_spec(self@.inputs, tick),
    {
        let ghost all = self@.inputs;
        let mut out: Vec<&InputRecord> = Vec::new();
        let mut i: usize = 0;
        while i < self.inputs.len()
            invariant
                i <= self.inputs@.len(),
                all == inputs_view(self.inputs@),
                out@.map_values(|x: &InputRecord| x@) == inputs_at_spec(all.subrange(0, i as int), tick),
            decreases self.inputs@.len() - i,
        {
            let ghost pre = out@;
            proof {
                assert(all.subrange(0, i + 1).drop_last() =~= all.subrange(0, i as int));
                assert(all.subrange(0, i + 1).last() == self.inputs@[i as int]@);
                reveal_with_fuel(Seq::filter, 1);
            }
            if self.inputs[i].tick == tick {
                out.push(&self.inputs[i]);
                proof {
                    assert(out@.map_values(|x: &InputRecord| x@) =~= pre.map_values(|x: &InputRecord| x@).push(self.inputs@[i as int]@));
                }
            }
            i += 1;
        }
        proof {
            assert(all.subrange(0, self.inputs@.len() as int) =~= all);
        }
        out
    }

    /// All external replies of a given tick, in recording order.
    pub fn replies_at(&self, tick: u64) -> (r: Vec<&ReplyRecord>)
        ensures
            r@.map_values(|x: &ReplyRecord| x@) == replies_at_spec(self@.replies, tick),
    {
        let ghost all = self@.replies;
        let mut out: Vec<&ReplyRecord> = Vec::new();
        let mut i: usize = 0;
        while i < self.replies.len()
            invariant
                i <= self.replies@.len(),
                all == replies_view(self.replies@),
                out@.map_values(|x: &ReplyRecord| x@) == replies_at_spec(all.subrange(0, i as int), tick),
            decreases self.replies@.len() - i,
        {
            let ghost pre = out@;
            proof {
                assert(all.subrange(0, i + 1).drop_last() =~= all.subrange(0, i as int));
                assert(all.subrange(0, i + 1).last() == self.replies@[i as int]@);
                reveal_with_fuel(Seq::filter, 1);
            }
            if self.replies[i].tick == tick {
                out.push(&self.replies[i]);
                proof {
                    assert(out@.map_values(|x: &ReplyRecord| x@) =~= pre.map_values(|x: &ReplyRecord| x@).push(self.replies@[i as int]@));
                }
            }
            i += 1;
        }
        proof {
            assert(all.subrange(0, self.replies@.len() as int) =~= all);
        }
        out
    }
}

/// Recording a tick's inputs after earlier ticks' inputs leaves every earlier tick's lookup
/// unchanged, and the new tick's lookup yields exactly the new inputs: replay re-injects each
/// input at the tick it was recorded on.
pub proof fn lemma_record_then_lookup(old: Seq<InputRecordV>, fresh: Seq<InputRecordV>, tick: u64, t: u64)
    requires
        forall|i: int| 0 <= i < old.len() ==> (#[trigger] old[i]).tick < tick,
        forall|i: int| 0 <= i < fresh.len() ==> (#[trigger] fresh[i]).tick == tick,
    ensures
        inputs_at_spec(old + fresh, tick) == fresh,
        t != tick ==> inputs_at_spec(old + fresh, t) == inputs_at_spec(old, t),
{
    let p = |r: InputRecordV| r.tick == tick;
    let q = |r: InputRecordV| r.tick == t;
    Seq::filter_distributes_over_add(old, fresh, p);
    Seq::filter_distributes_over_add(old, fresh, q);
    lemma_filter_none(old, tick);
    lemma_filter_all(fresh, tick);
    if t != tick {
        lemma_filter_none(fresh, t);
        assert(inputs_at_spec(old, t) + Seq::<InputRecordV>::empty() =~= inputs_at_spec(old, t));
    }
    assert(Seq::<InputRecordV>::empty() + fresh =~= fresh);
}

proof fn lemma_filter_none(s: Seq<InputRecordV>, tick: u64)
    requires
        forall|i: int| 0 <= i < s.len() ==> (#[trigger] s[i]).tick != tick,
    ensures
        inputs_at_spec(s, tick) == Seq::<InputRecordV>::empty(),
    decreases s.len(),
{
    reveal_with_fuel(Seq::filter, 1);
    if s.len() > 0 {
        lemma_filter_none(s.drop_last(), tick);
    }
    assert(inputs_at_spec(s, tick) =~= Seq::<InputRecordV>::empty());
}

proof fn lemma_filter_all(s: Seq<InputRecordV>, tick: u64)
    requires
        forall|i: int| 0 <= i < s.len() ==> (#[trigger] s[i]).tick == tick,
    ensures
        inputs_at_spec(s, tick) == s,
    decreases s.len(),
{
    reveal_with_fuel(Seq::filter, 1);
    if s.len() > 0 {
        lemma_filter_all(s.drop_last(), tick);
        assert(s.drop_last().push(s.last()) =~= s);
    } else {
        assert(inputs_at_spec(s, tick) =~= s);
    }
}

/// Recording a tick's replies after earlier ticks' replies makes that tick's lookup yield
/// exactly the new replies.
pub proof fn lemma_reply_then_lookup(old: Seq<ReplyRecordV>, fresh: Seq<ReplyRecordV>, tick: u64)
    requires
        forall|i: int| 0 <= i < old.len() ==> (#[trigger] old[i]).tick < tick,
        forall|i: int| 0 <= i < fresh.len() ==> (#[trigger] fresh[i]).tick == tick,
    ensures
        replies_at_spec(old + fresh, tick) == fresh,
{
    let p = |r: ReplyRecordV| r.tick == tick;
    Seq::filter_distributes_over_add(old, fresh, p);
    lemma_reply_filter_none(old, tick);
    lemma_reply_filter_all(fresh, tick);
    assert(Seq::<ReplyRecordV>::empty() + fresh =~= fresh);
}

proof fn lemma_reply_filter_none(s: Seq<ReplyRecordV>, tick: u64)
    requires
        forall|i: int| 0 <= i < s.len() ==> (#[trigger] s[i]).tick != tick,
    ensures
        replies_at_spec(s, tick) == Seq::<ReplyRecordV>::empty(),
    decreases s.len(),
{
    reveal_with_fuel(Seq::filter, 1);
    if s.len() > 0 {
        lemma_reply_filter_none(s.drop_last(), tick);
    }
}

proof fn lemma_reply_filter_all(s: Seq<ReplyRecordV>, tick: u64)
    requires
        forall|i: int| 0 <= i < s.len() ==> (#[trigger] s[i]).tick == tick,
    ensures
        replies_at_spec(s, tick) == s,
    decreases s.len(),
{
    reveal_with_fuel(Seq::filter, 1);
    if s.len() > 0 {
        lemma_reply_filter_all(s.drop_last(), tick);
        assert(s.drop_last().push(s.last()) =~= s);
    }
}

/// The inputs recorded on a tick.
pub open spec fn recorded_inputs(tick: u64, pending: Seq<(Seq<char>, Seq<char>)>) -> Seq<InputRecordV> {
    pending.map_values(|p: (Seq<char>, Seq<char>)| InputRecordV { tick, action: p.0, phase: p.1 })
}

/// The replies recorded on a tick.
pub open spec fn recorded_replies(tick: u64, pending: Seq<(Seq<char>, JsonV)>) -> Seq<ReplyRecordV> {
    pending.map_values(|p: (Seq<char>, JsonV)| ReplyRecordV { tick, name: p.0, data: p.1 })
}

/// What a tick records is what a replay re-injects on that tick: after earlier ticks' records,
/// the inputs recorded on `tick` are found again at `tick`, as the same `(action, phase)` pairs
/// in the same order.
pub proof fn lemma_recorded_inputs_replay(old: Seq<InputRecordV>, tick: u64, inputs: Seq<(Seq<char>, Seq<char>)>)
    requires
        forall|i: int| 0 <= i < old.len() ==> (#[trigger] old[i]).tick < tick,
    ensures
        inputs_at_spec(old + recorded_inputs(tick, inputs), tick).map_values(|r: InputRecordV| (r.action, r.phase)) == inputs,
{
    let fresh = recorded_inputs(tick, inputs);
    assert forall|i: int| 0 <= i < fresh.len() implies (#[trigger] fresh[i]).tick == tick by {}
    lemma_record_then_lookup(old, fresh, tick, tick);
    let back = fresh.map_values(|r: InputRecordV| (r.action, r.phase));
    assert forall|i: int| 0 <= i < inputs.len() implies #[trigger] back[i] == inputs[i] by {
        assert(fresh[i] == InputRecordV { tick, action: inputs[i].0, phase: inputs[i].1 });
    }
    assert(back =~= inputs);
}

/// Likewise for replies: the replies recorded on `tick` are found again at `tick`, as the same
/// `(name, data)` pairs in the same order.
pub proof fn lemma_recorded_replies_replay(old: Seq<ReplyRecordV>, tick: u64, replies: Seq<(Seq<char>, JsonV)>)
    requires
        forall|i: int| 0 <= i < old.len() ==> (#[trigger] old[i]).tick < tick,
    ensures
        replies_at_spec(old + recorded_replies(tick, replies), tick).map_values(|r: ReplyRecordV| (r.name, r.data)) == replies,
{
    let fresh = recorded_replies(tick, replies);
    assert forall|i: int| 0 <= i < fresh.len() implies (#[trigger] fresh[i]).tick == tick by {}
    lemma_reply_then_lookup(old, fresh, tick);
    let back = fresh.map_values(|r: ReplyRecordV| (r.name, r.data));
    assert forall|i: int| 0 <= i < replies.len() implies #[trigger] back[i] == replies[i] by {
        assert(fresh[i] == ReplyRecordV { tick, name: replies[i].0, data: replies[i].1 });
    }
    assert(back =~= replies);
}

} // verus!
