//! The deterministic simulation's bookkeeping: the fixed tick clock, the seeded random stream,
//! the two recorded input channels (inputs and external replies) plus host events, recording
//! and checkpointing, snapshot/restore of that state, and replay verification.
//!
//! Same seed + same input sequence = the same run, tick by tick. What enters a tick, and in
//! which order, is decided here; the world systems that consume the events run around it.
use vstd::prelude::*;
use crate::json::{clone_entries, lemma_entries_get_at, entries_view, get_spec, get_str_spec, json_view, seq_view, str_spec, u64_spec, Json, JsonNumber, JsonV};
use crate::pcg::{seeded, Pcg32, PcgState, MAIN_INCREMENT};
use crate::recording::{
    inputs_view, recorded_inputs, recorded_replies, replies_view, InputRecord, InputRecordV, Recording, RecordingV, ReplyRecord,
    ReplyRecordV,
};
use crate::rules::{object_entries, Event, EventV};
use crate::text::{decimal, hex, push_decimal, push_hex, push_str};

verus! {

/// Simulation frequency (fixed timestep).
pub const TICKS_PER_SECOND: u64 = 60;

/// Interval, in ticks, between recorded state-hash checkpoints.
pub const CHECKPOINT_INTERVAL: u64 = 60;

/// What can go wrong while stepping or replaying.
#[derive(Debug, PartialEq, Eq)]
pub enum SimError {
    /// Game logic (rules/scripts) reported an error.
    Logic { tick: u64, message: String },
    /// A built-in system read illegal component data.
    BadComponent { tick: u64, entity: String, component: String, reason: String },
    /// Replay diverged: the state hash does not match the recording.
    ReplayDiverged { tick: u64, expected: u64, actual: u64 },
}

/// The message of a simulation failure.
pub open spec fn sim_error_message(e: SimError) -> Seq<char> {
    match e {
        SimError::Logic { tick, message } => "tick "@ + decimal(tick as nat) + ": 游戏逻辑报错: "@ + message@,
        SimError::BadComponent { tick, entity, component, reason } =>
            "tick "@ + decimal(tick as nat) + ": 实体 "@ + entity@ + " 的组件 "@ + component@ + " 数据不合法: "@ + reason@
                + "。提示：内建系统要求 Position/Velocity 是 {x,y} 数字、Collider 是 {w,h} 数字"@,
        SimError::ReplayDiverged { tick, expected, actual } =>
            "重放在 tick "@ + decimal(tick as nat) + " 跑偏：期望哈希 0x"@ + hex(expected as nat) + "，实际 0x"@
                + hex(actual as nat) + "。提示：检查这段时间内的逻辑是否引入了非确定性（墙钟时间、外部状态、未声明的随机）"@,
    }
}

impl SimError {
    /// The human-readable message.
    pub fn message(&self) -> (m: String)
        ensures
            m@ == sim_error_message(*self),
    {
        match self {
            SimError::Logic { tick, message } => {
                let mut m = String::from_str("tick ");
                push_decimal(&mut m, *tick);
                push_str(&mut m, ": 游戏逻辑报错: ");
                push_str(&mut m, message.as_str());
                m
            },
            SimError::BadComponent { tick, entity, component, reason } => {
                let mut m = String::from_str("tick ");
                push_decimal(&mut m, *tick);
                push_str(&mut m, ": 实体 ");
                push_str(&mut m, entity.as_str());
                push_str(&mut m, " 的组件 ");
                push_str(&mut m, component.as_str());
                push_str(&mut m, " 数据不合法: ");
                push_str(&mut m, reason.as_str());
                push_str(&mut m, "。提示：内建系统要求 Position/Velocity 是 {x,y} 数字、Collider 是 {w,h} 数字");
                m
            },
            SimError::ReplayDiverged { tick, expected, actual } => {
                let mut m = String::from_str("重放在 tick ");
                push_decimal(&mut m, *tick);
                push_str(&mut m, " 跑偏：期望哈希 0x");
                push_hex(&mut m, *expected);
                push_str(&mut m, "，实际 0x");
                push_hex(&mut m, *actual);
                push_str(&mut m, "。提示：检查这段时间内的逻辑是否引入了非确定性（墙钟时间、外部状态、未声明的随机）");
                m
            },
        }
    }
}

/// The simulator's own state (the world it steps is kept beside it).
#[derive(Debug)]
pub struct Sim {
    pub rng: Pcg32,
    pub tick: u64,
    seed: u64,
    pending_inputs: Vec<(String, String)>,
    /// Injected but unconsumed external replies; recorded like inputs.
    pending_replies: Vec<(String, Json)>,
    /// Events queued by host calls between steps (not recorded: replaying the same host
    /// program repeats the same calls).
    pending_events: Vec<Event>,
    recorder: Option<Recording>,
}

/// The content of the simulator state.
pub struct SimV {
    pub rng: PcgState,
    pub tick: u64,
    pub seed: u64,
    pub pending_inputs: Seq<(Seq<char>, Seq<char>)>,
    pub pending_replies: Seq<(Seq<char>, JsonV)>,
    pub pending_events: Seq<EventV>,
    pub recorder: Option<RecordingV>,
}

pub open spec fn pairs_view(s: Seq<(String, String)>) -> Seq<(Seq<char>, Seq<char>)> {
    s.map_values(|p: (String, String)| (p.0@, p.1@))
}

pub open spec fn replies_pending_view(s: Seq<(String, Json)>) -> Seq<(Seq<char>, JsonV)> {
    s.map_values(|p: (String, Json)| (p.0@, p.1@))
}

pub open spec fn events_view(s: Seq<Event>) -> Seq<EventV> {
    s.map_values(|e: Event| e@)
}

impl View for Sim {
    type V = SimV;

    closed spec fn view(&self) -> SimV {
        SimV {
            rng: self.rng@,
            tick: self.tick,
            seed: self.seed,
            pending_inputs: pairs_view(self.pending_inputs@),
            pending_replies: replies_pending_view(self.pending_replies@),
            pending_events: events_view(self.pending_events@),
            recorder: match self.recorder {
                Some(r) => Some(r@),
                None => None,
            },
        }
    }
}

/// The `input` event for an action and phase: data `{"action": .., "phase": ..}`.
pub open spec fn input_event(action: Seq<char>, phase: Seq<char>) -> EventV {
    EventV {
        name: "input"@,
        data: seq![("action"@, JsonV::Str(action)), ("phase"@, JsonV::Str(phase))],
    }
}

/// The events a tick starts with: `start` on tick 0, then the pending inputs as `input`
/// events, then the pending replies as same-named events, then the queued host events.
pub open spec fn step_events(s: SimV) -> Seq<EventV> {
    (if s.tick == 0 { seq![EventV { name: "start"@, data: Seq::empty() }] } else { Seq::empty() })
        + s.pending_inputs.map_values(|p: (Seq<char>, Seq<char>)| input_event(p.0, p.1))
        + s.pending_replies.map_values(|p: (Seq<char>, JsonV)| EventV { name: p.0, data: object_entries(p.1) })
        + s.pending_events
}

impl Sim {
    /// A fresh simulator at tick 0 with the stream seeded by `seed`.
    pub fn new(seed: u64) -> (s: Sim)
        ensures
            s@ == (SimV {
                rng: seeded(seed, MAIN_INCREMENT),
                tick: 0,
                seed,
                pending_inputs: Seq::empty(),
                pending_replies: Seq::empty(),
                pending_events: Seq::empty(),
                recorder: None,
            }),
    {
        let s = Sim {
            rng: Pcg32::new(seed),
            tick: 0,
            seed,
            pending_inputs: Vec::new(),
            pending_replies: Vec::new(),
            pending_events: Vec::new(),
            recorder: None,
        };
        proof {
            assert(pairs_view(s.pending_inputs@) =~= Seq::<(Seq<char>, Seq<char>)>::empty());
            assert(replies_pending_view(s.pending_replies@) =~= Seq::<(Seq<char>, JsonV)>::empty());
            assert(events_view(s.pending_events@) =~= Seq::<EventV>::empty());
        }
        s
    }

    /// The seed of this run (set at construction, replaced by a restore).
    pub fn seed(&self) -> (s: u64)
        ensures
            s == self@.seed,
    {
        self.seed
    }

    /// Inject an input; it takes effect on the next step. `phase`: "pressed" | "released".
    pub fn inject_input(&mut self, action: &str, phase: &str)
        ensures
            final(self)@ == (SimV {
                pending_inputs: old(self)@.pending_inputs.push((action@, phase@)),
                ..old(self)@
            }),
    {
        let ghost pre = self.pending_inputs@;
        self.pending_inputs.push((String::from_str(action), String::from_str(phase)));
        proof {
            assert(pairs_view(self.pending_inputs@) =~= pairs_view(pre).push((action@, phase@)));
        }
    }

    /// Inject an external reply; on the next step it becomes an event named `name` with
    /// `data`, and it is recorded like an input.
    pub fn inject_reply(&mut self, name: &str, data: Json)
        ensures
            final(self)@ == (SimV {
                pending_replies: old(self)@.pending_replies.push((name@, data@)),
                ..old(self)@
            }),
    {
        let ghost pre = self.pending_replies@;
        let ghost d = data@;
        self.pending_replies.push((String::from_str(name), data));
        proof {
            assert(replies_pending_view(self.pending_replies@) =~= replies_pending_view(pre).push((name@, d)));
        }
    }

    /// Queue the `region-thaw` event of region `id` (data `{"id": id}`) for the next step.
    pub fn thaw_region(&mut self, id: &str)
        ensures
            final(self)@ == (SimV {
                pending_events: old(self)@.pending_events.push(EventV {
                    name: "region-thaw"@,
                    data: seq![("id"@, JsonV::Str(id@))],
                }),
                ..old(self)@
            }),
    {
        let mut data: Vec<(String, Json)> = Vec::new();
        data.push((String::from_str("id"), Json::Str(String::from_str(id))));
        let e = Event { name: String::from_str("region-thaw"), data };
        let ghost pre = self.pending_events@;
        proof {
            crate::json::lemma_entries_view(e.data@);
            assert(entries_view(e.data@) =~= seq![("id"@, JsonV::Str(id@))]);
        }
        self.pending_events.push(e);
        proof {
            assert(events_view(self.pending_events@) =~= events_view(pre).push(e@));
        }
    }

    /// Replay's injection for the current tick: every input the recording holds for this tick,
    /// then every reply, in recording order (so the tick consumes them as the recorded run did).
    pub fn inject_recorded(&mut self, rec: &Recording)
        ensures
            final(self)@ == (SimV {
                pending_inputs: old(self)@.pending_inputs + crate::recording::inputs_at_spec(rec@.inputs, old(self)@.tick)
                    .map_values(|r: InputRecordV| (r.action, r.phase)),
                pending_replies: old(self)@.pending_replies + crate::recording::replies_at_spec(rec@.replies, old(self)@.tick)
                    .map_values(|r: ReplyRecordV| (r.name, r.data)),
                ..old(self)@
            }),
    {
        let ghost s0 = self@;
        let ins = rec.inputs_at(self.tick);
        let ghost iv = ins@.map_values(|x: &InputRecord| x@);
        let mut i: usize = 0;
        while i < ins.len()
            invariant
                i <= ins@.len(),
                iv == ins@.map_values(|x: &InputRecord| x@),
                self@ == (SimV {
                    pending_inputs: s0.pending_inputs + iv.subrange(0, i as int).map_values(|r: InputRecordV| (r.action, r.phase)),
                    ..s0
                }),
            decreases ins@.len() - i,
        {
            self.inject_input(ins[i].action.as_str(), ins[i].phase.as_str());
            proof {
                assert(iv.subrange(0, i + 1).map_values(|r: InputRecordV| (r.action, r.phase)) =~=
                    iv.subrange(0, i as int).map_values(|r: InputRecordV| (r.action, r.phase)).push((iv[i as int].action, iv[i as int].phase)));
                assert(s0.pending_inputs + iv.subrange(0, i + 1).map_values(|r: InputRecordV| (r.action, r.phase)) =~=
                    (s0.pending_inputs + iv.subrange(0, i as int).map_values(|r: InputRecordV| (r.action, r.phase))).push((iv[i as int].action, iv[i as int].phase)));
            }
            i += 1;
        }
        proof { assert(iv.subrange(0, ins@.len() as int) =~= iv); }
        let ghost s1 = self@;
        let rps = rec.replies_at(self.tick);
        let ghost rv = rps@.map_values(|x: &ReplyRecord| x@);
        let mut j: usize = 0;
        while j < rps.len()
            invariant
                j <= rps@.len(),
                rv == rps@.map_values(|x: &ReplyRecord| x@),
                self@ == (SimV {
                    pending_replies: s1.pending_replies + rv.subrange(0, j as int).map_values(|r: ReplyRecordV| (r.name, r.data)),
                    ..s1
                }),
            decreases rps@.len() - j,
        {
            self.inject_reply(rps[j].name.as_str(), rps[j].data.deep_clone());
            proof {
                assert(s1.pending_replies + rv.subrange(0, j + 1).map_values(|r: ReplyRecordV| (r.name, r.data)) =~=
                    (s1.pending_replies + rv.subrange(0, j as int).map_values(|r: ReplyRecordV| (r.name, r.data))).push((rv[j as int].name, rv[j as int].data)));
            }
            j += 1;
        }
        proof { assert(rv.subrange(0, rps@.len() as int) =~= rv); }
    }

    /// Start recording from the current state (`state_hash`: the world's hash now).
    pub fn start_recording(&mut self, state_hash: u64)
        ensures
            final(self)@ == (SimV {
                recorder: Some(RecordingV {
                    seed: old(self)@.seed,
                    inputs: Seq::empty(),
                    replies: Seq::empty(),
                    checkpoints: seq![(old(self)@.tick, state_hash)],
                    ticks: 0,
                    final_hash: 0,
                }),
                ..old(self)@
            }),
    {
        let mut rec = Recording::empty();
        rec.seed = self.seed;
        rec.checkpoints.push((self.tick, state_hash));
        proof {
            assert(rec.checkpoints@ =~= seq![(self.tick, state_hash)]);
        }
        self.recorder = Some(rec);
    }

    /// Whether a recording is in progress.
    pub fn is_recording(&self) -> (r: bool)
        ensures
            r == (self@.recorder is Some),
    {
        self.recorder.is_some()
    }

    /// Stop recording: the recording covers the ticks so far and ends on `final_hash`.
    pub fn stop_recording(&mut self, final_hash: u64) -> (r: Option<Recording>)
        ensures
            final(self)@ == (SimV { recorder: None, ..old(self)@ }),
            match old(self)@.recorder {
                None => r is None,
                Some(rec) => r matches Some(x) && x@ == (RecordingV { ticks: old(self)@.tick, final_hash, ..rec }),
            },
    {
        let taken = self.recorder.take();
        match taken {
            None => None,
            Some(mut rec) => {
                rec.ticks = self.tick;
                rec.final_hash = final_hash;
                Some(rec)
            },
        }
    }

    /// Begin a tick: drain what was injected or queued into the tick's events (see
    /// [`step_events`]), recording inputs and replies with the current tick.
    pub fn begin_step(&mut self) -> (events: Vec<Event>)
        ensures
            events_view(events@) == step_events(old(self)@),
            final(self)@ == (SimV {
                pending_inputs: Seq::empty(),
                pending_replies: Seq::empty(),
                pending_events: Seq::empty(),
                recorder: match old(self)@.recorder {
                    None => None,
                    Some(rec) => Some(RecordingV {
                        inputs: rec.inputs + recorded_inputs(old(self)@.tick, old(self)@.pending_inputs),
                        replies: rec.replies + recorded_replies(old(self)@.tick, old(self)@.pending_replies),
                        ..rec
                    }),
                },
                ..old(self)@
            }),
    {
        let ghost s0 = self@;
        let mut events: Vec<Event> = Vec::new();
        if self.tick == 0 {
            events.push(Event { name: String::from_str("start"), data: Vec::new() });
            proof { assert(entries_view(Seq::<(String, Json)>::empty()) =~= Seq::<(Seq<char>, JsonV)>::empty()); }
        }
        let ghost e0 = events_view(events@);
        proof {
            assert(e0 =~= (if s0.tick == 0 { seq![EventV { name: "start"@, data: Seq::empty() }] } else { Seq::<EventV>::empty() }));
        }
        let mut inputs: Vec<(String, String)> = Vec::new();
        std::mem::swap(&mut inputs, &mut self.pending_inputs);
        let mut replies: Vec<(String, Json)> = Vec::new();
        std::mem::swap(&mut replies, &mut self.pending_replies);
        let mut host: Vec<Event> = Vec::new();
        std::mem::swap(&mut host, &mut self.pending_events);
        let mut recorder = self.recorder.take();
        let ghost rec0 = recorder;
        // 1. inputs
        let mut i: usize = 0;
        while i < inputs.len()
            invariant
                i <= inputs@.len(),
                pairs_view(inputs@) == s0.pending_inputs,
                events_view(events@) == e0 + pairs_view(inputs@).subrange(0, i as int).map_values(
                    |p: (Seq<char>, Seq<char>)| input_event(p.0, p.1)),
                match rec0 {
                    None => recorder is None,
                    Some(r) => recorder matches Some(x) && x@ == (RecordingV {
                        inputs: r@.inputs + recorded_inputs(s0.tick, pairs_view(inputs@).subrange(0, i as int)),
                        ..r@
                    }),
                },
                s0.tick == self.tick,
            decreases inputs@.len() - i,
        {
            let ghost ev_pre = events@;
            let (action, phase) = (&inputs[i].0, &inputs[i].1);
            match &mut recorder {
                Some(rec) => {
                    let ghost pre = rec.inputs@;
                    rec.inputs.push(InputRecord { tick: self.tick, action: action.clone(), phase: phase.clone() });
                    proof { assert(inputs_view(rec.inputs@) =~= inputs_view(pre).push(InputRecordV { tick: self.tick, action: action@, phase: phase@ })); }
                },
                None => {},
            }
            let mut data: Vec<(String, Json)> = Vec::new();
            data.push((String::from_str("action"), Json::Str(action.clone())));
            data.push((String::from_str("phase"), Json::Str(phase.clone())));
            let e = Event { name: String::from_str("input"), data };
            proof {
                crate::json::lemma_entries_view(e.data@);
                assert(entries_view(e.data@) =~= input_event(action@, phase@).data);
            }
            events.push(e);
            proof {
                assert(events_view(events@) =~= events_view(ev_pre).push(input_event(action@, phase@)));
                assert(pairs_view(inputs@).subrange(0, i + 1) =~= pairs_view(inputs@).subrange(0, i as int).push((action@, phase@)));
                assert(recorded_inputs(s0.tick, pairs_view(inputs@).subrange(0, i + 1)) =~=
                    recorded_inputs(s0.tick, pairs_view(inputs@).subrange(0, i as int)).push(InputRecordV { tick: s0.tick, action: action@, phase: phase@ }));
            }
            i += 1;
        }
        let ghost e1 = events_view(events@);
        proof {
            assert(pairs_view(inputs@).subrange(0, inputs@.len() as int) =~= pairs_view(inputs@));
        }
        let ghost rec1 = recorder;
        // 1.5 external replies
        let mut j: usize = 0;
        while j < replies.len()
            invariant
                j <= replies@.len(),
                replies_pending_view(replies@) == s0.pending_replies,
                events_view(events@) == e1 + replies_pending_view(replies@).subrange(0, j as int).map_values(
                    |p: (Seq<char>, JsonV)| EventV { name: p.0, data: object_entries(p.1) }),
                match rec1 {
                    None => recorder is None,
                    Some(r) => recorder matches Some(x) && x@ == (RecordingV {
                        replies: r@.replies + recorded_replies(s0.tick, replies_pending_view(replies@).subrange(0, j as int)),
                        ..r@
                    }),
                },
                s0.tick == self.tick,
            decreases replies@.len() - j,
        {
            let ghost ev_pre = events@;
            let name = &replies[j].0;
            let data = &replies[j].1;
            match &mut recorder {
                Some(rec) => {
                    let ghost pre = rec.replies@;
                    rec.replies.push(ReplyRecord { tick: self.tick, name: name.clone(), data: data.deep_clone() });
                    proof { assert(replies_view(rec.replies@) =~= replies_view(pre).push(ReplyRecordV { tick: self.tick, name: name@, data: data@ })); }
                },
                None => {},
            }
            let e = Event::new(name.as_str(), data.deep_clone());
            events.push(e);
            proof {
                assert(events_view(events@) =~= events_view(ev_pre).push(EventV { name: name@, data: object_entries(data@) }));
                assert(replies_pending_view(replies@).subrange(0, j + 1) =~= replies_pending_view(replies@).subrange(0, j as int).push((name@, data@)));
                assert(recorded_replies(s0.tick, replies_pending_view(replies@).subrange(0, j + 1)) =~=
                    recorded_replies(s0.tick, replies_pending_view(replies@).subrange(0, j as int)).push(ReplyRecordV { tick: s0.tick, name: name@, data: data@ }));
            }
            j += 1;
        }
        proof {
            assert(replies_pending_view(replies@).subrange(0, replies@.len() as int) =~= replies_pending_view(replies@));
        }
        let ghost e2 = events_view(events@);
        // 1.6 host events
        let mut k: usize = 0;
        while k < host.len()
            invariant
                k <= host@.len(),
                events_view(host@) == s0.pending_events,
                events_view(events@) == e2 + events_view(host@).subrange(0, k as int),
            decreases host@.len() - k,
        {
            let ghost ev_pre = events@;
            let e = host[k].copy();
            events.push(e);
            proof {
                assert(events_view(events@) =~= events_view(ev_pre).push(host@[k as int]@));
                assert(events_view(host@).subrange(0, k + 1) =~= events_view(host@).subrange(0, k as int).push(host@[k as int]@));
            }
            k += 1;
        }
        proof {
            assert(events_view(host@).subrange(0, host@.len() as int) =~= events_view(host@));
            assert(events_view(events@) =~= step_events(s0));
            assert(pairs_view(self.pending_inputs@) =~= Seq::<(Seq<char>, Seq<char>)>::empty());
            assert(replies_pending_view(self.pending_replies@) =~= Seq::<(Seq<char>, JsonV)>::empty());
            assert(events_view(self.pending_events@) =~= Seq::<EventV>::empty());
        }
        self.recorder = recorder;
        events
    }

    /// End a tick: time advances by one. Returns whether a checkpoint is due now (a recording
    /// is in progress and the new tick is a multiple of [`CHECKPOINT_INTERVAL`]).
    pub fn end_step(&mut self) -> (due: bool)
        requires
            old(self)@.tick < u64::MAX,
        ensures
            final(self)@ == (SimV { tick: (old(self)@.tick + 1) as u64, ..old(self)@ }),
            due == (old(self)@.recorder is Some && (old(self)@.tick + 1) % (CHECKPOINT_INTERVAL as int) == 0),
    {
        self.tick = self.tick + 1;
        self.recorder.is_some() && self.tick % CHECKPOINT_INTERVAL == 0
    }

    /// Record a `(tick, state_hash)` checkpoint in the recording in progress (if any).
    pub fn record_checkpoint(&mut self, state_hash: u64)
        ensures
            final(self)@ == (SimV {
                recorder: match old(self)@.recorder {
                    None => None,
                    Some(rec) => Some(RecordingV { checkpoints: rec.checkpoints.push((old(self)@.tick, state_hash)), ..rec }),
                },
                ..old(self)@
            }),
    {
        match &mut self.recorder {
            Some(rec) => {
                rec.checkpoints.push((self.tick, state_hash));
            },
            None => {},
        }
    }
}

/// Replay start check: a recording that has checkpoints must start where the run stands.
pub fn check_replay_start(rec: &Recording, tick: u64, state_hash: u64) -> (r: Result<(), SimError>)
    ensures
        rec@.checkpoints.len() > 0 && (rec@.checkpoints[0].0 != tick || rec@.checkpoints[0].1 != state_hash)
            ==> (r matches Err(SimError::ReplayDiverged { tick: t, expected, actual })
                && t == tick && expected == rec@.checkpoints[0].1 && actual == state_hash),
        !(rec@.checkpoints.len() > 0 && (rec@.checkpoints[0].0 != tick || rec@.checkpoints[0].1 != state_hash))
            ==> r is Ok,
{
    if rec.checkpoints.len() > 0 {
        let (t0, h0) = rec.checkpoints[0];
        if tick != t0 || state_hash != h0 {
            return Err(SimError::ReplayDiverged { tick, expected: h0, actual: state_hash });
        }
    }
    Ok(())
}

/// Replay checkpoint check after a step: `cursor` indexes the next unchecked checkpoint (the
/// first one is the start). When that checkpoint is for `tick`, it is consumed and the state
/// hash must match it.
pub fn check_replay_checkpoint(rec: &Recording, cursor: &mut usize, tick: u64, state_hash: u64) -> (r: Result<(), SimError>)
    requires
        *old(cursor) >= 1,
    ensures
        ({
            let c = *old(cursor) as int;
            let cps = rec@.checkpoints;
            if c < cps.len() && cps[c].0 == tick {
                *final(cursor) == c + 1 && if cps[c].1 == state_hash {
                    r is Ok
                } else {
                    r matches Err(SimError::ReplayDiverged { tick: t, expected, actual }) && t == tick
                        && expected == cps[c].1 && actual == state_hash
                }
            } else {
                *final(cursor) == c && r is Ok
            }
        }),
{
    if *cursor < rec.checkpoints.len() {
        let (t, expected) = rec.checkpoints[*cursor];
        if tick == t {
            *cursor = *cursor + 1;
            if state_hash != expected {
                return Err(SimError::ReplayDiverged { tick: t, expected, actual: state_hash });
            }
        }
    }
    Ok(())
}

/// Replay end check: the final state hash must be the recording's.
pub fn check_replay_end(rec: &Recording, tick: u64, state_hash: u64) -> (r: Result<(), SimError>)
    ensures
        state_hash == rec@.final_hash ==> r is Ok,
        state_hash != rec@.final_hash ==> (r matches Err(SimError::ReplayDiverged { tick: t, expected, actual })
            && t == tick && expected == rec@.final_hash && actual == state_hash),
{
    if state_hash != rec.final_hash {
        return Err(SimError::ReplayDiverged { tick, expected: rec.final_hash, actual: state_hash });
    }
    Ok(())
}

/// Particle lifetime: a particle with `ttl` ticks left either dies this tick (`None`) or
/// lives on with one tick less.
pub fn next_particle_ttl(ttl: i64) -> (r: Option<i64>)
    requires
        ttl > i64::MIN,
    ensures
        ttl - 1 <= 0 ==> r is None,
        ttl - 1 > 0 ==> r == Some((ttl - 1) as i64),
{
    if ttl - 1 <= 0 {
        None
    } else {
        Some(ttl - 1)
    }
}

/// Dormant accounting of a region: a dormant or frozen region counts one more dormant tick
/// (a missing count counts as 0); other states are left alone (`None`).
pub fn next_dormant_ticks(state: &str, dormant_ticks: Option<i64>) -> (r: Option<i64>)
    requires
        dormant_ticks matches Some(d) ==> d < i64::MAX,
    ensures
        (state@ == "dormant"@ || state@ == "frozen"@) ==> r == Some((match dormant_ticks { Some(d) => d, None => 0 } + 1) as i64),
        !(state@ == "dormant"@ || state@ == "frozen"@) ==> r is None,
{
    if crate::text::str_eq(state, "dormant") || crate::text::str_eq(state, "frozen") {
        let d = match dormant_ticks {
            Some(d) => d,
            None => 0,
        };
        Some(d + 1)
    } else {
        None
    }
}

// ---- snapshot / restore ----

/// A non-negative JSON integer.
pub open spec fn unum(n: u64) -> JsonV {
    JsonV::Number(JsonNumber::PosInt(n))
}

/// The stream state as stored in a snapshot: `{"inc": .., "state": ..}`.
pub open spec fn rng_json(r: PcgState) -> JsonV {
    JsonV::Object(seq![("inc"@, unum(r.inc)), ("state"@, unum(r.state))])
}

/// A queued event as stored in a snapshot: `{"data": {..}, "name": ..}`.
pub open spec fn event_json(e: EventV) -> JsonV {
    JsonV::Object(seq![("data"@, JsonV::Object(e.data)), ("name"@, JsonV::Str(e.name))])
}

/// A pending input as stored in a snapshot: `[action, phase]`.
pub open spec fn input_json(p: (Seq<char>, Seq<char>)) -> JsonV {
    JsonV::Array(seq![JsonV::Str(p.0), JsonV::Str(p.1)])
}

/// A pending reply as stored in a snapshot: `[name, data]`.
pub open spec fn reply_json(p: (Seq<char>, JsonV)) -> JsonV {
    JsonV::Array(seq![JsonV::Str(p.0), p.1])
}

/// The full snapshot: clock, seed, stream, the three pending queues, plus the world's and the
/// logic layer's own snapshots (keys in order).
pub open spec fn snapshot_spec(s: SimV, world: JsonV, logic: JsonV) -> JsonV {
    JsonV::Object(seq![
        ("logic"@, logic),
        ("pending_events"@, JsonV::Array(s.pending_events.map_values(|e: EventV| event_json(e)))),
        ("pending_inputs"@, JsonV::Array(s.pending_inputs.map_values(|p: (Seq<char>, Seq<char>)| input_json(p)))),
        ("pending_replies"@, JsonV::Array(s.pending_replies.map_values(|p: (Seq<char>, JsonV)| reply_json(p)))),
        ("rng"@, rng_json(s.rng)),
        ("seed"@, unum(s.seed)),
        ("tick"@, unum(s.tick)),
        ("world"@, world),
    ])
}

fn unum_exec(n: u64) -> (j: Json)
    ensures
        j@ == unum(n),
{
    Json::Number(JsonNumber::PosInt(n))
}

fn entry(key: &str, v: Json) -> (e: (String, Json))
    ensures
        e.0@ == key@,
        e.1@ == v@,
{
    (String::from_str(key), v)
}

impl Sim {
    /// Snapshot of the whole simulator, given the world's and the logic layer's snapshots.
    pub fn snapshot(&self, world: Json, logic: Json) -> (j: Json)
        ensures
            j@ == snapshot_spec(self@, world@, logic@),
    {
        let ghost sv = self@;
        // pending events
        let mut evs: Vec<Json> = Vec::new();
        let mut i: usize = 0;
        while i < self.pending_events.len()
            invariant
                i <= self.pending_events@.len(),
                sv == self@,
                evs@.len() == i,
                forall|k: int| 0 <= k < i ==> json_view(#[trigger] evs@[k]) == event_json(self.pending_events@[k]@),
            decreases self.pending_events@.len() - i,
        {
            let e = &self.pending_events[i];
            let mut m: Vec<(String, Json)> = Vec::new();
            m.push(entry("data", Json::Object(clone_entries(&e.data))));
            m.push(entry("name", Json::Str(e.name.clone())));
            proof {
                crate::json::lemma_entries_view(m@);
                assert(entries_view(m@) =~= seq![("data"@, JsonV::Object(e@.data)), ("name"@, JsonV::Str(e@.name))]);
            }
            evs.push(Json::Object(m));
            i += 1;
        }
        // pending inputs
        let mut ins: Vec<Json> = Vec::new();
        let mut j: usize = 0;
        while j < self.pending_inputs.len()
            invariant
                j <= self.pending_inputs@.len(),
                ins@.len() == j,
                forall|k: int| 0 <= k < j ==> json_view(#[trigger] ins@[k]) == input_json((self.pending_inputs@[k].0@, self.pending_inputs@[k].1@)),
            decreases self.pending_inputs@.len() - j,
        {
            let mut a: Vec<Json> = Vec::new();
            a.push(Json::Str(self.pending_inputs[j].0.clone()));
            a.push(Json::Str(self.pending_inputs[j].1.clone()));
            proof {
                crate::json::lemma_seq_view(a@);
                assert(seq_view(a@) =~= seq![JsonV::Str(self.pending_inputs@[j as int].0@), JsonV::Str(self.pending_inputs@[j as int].1@)]);
            }
            ins.push(Json::Array(a));
            j += 1;
        }
        // pending replies
        let mut rps: Vec<Json> = Vec::new();
        let mut k: usize = 0;
        while k < self.pending_replies.len()
            invariant
                k <= self.pending_replies@.len(),
                rps@.len() == k,
                forall|q: int| 0 <= q < k ==> json_view(#[trigger] rps@[q]) == reply_json((self.pending_replies@[q].0@, self.pending_replies@[q].1@)),
            decreases self.pending_replies@.len() - k,
        {
            let mut a: Vec<Json> = Vec::new();
            a.push(Json::Str(self.pending_replies[k].0.clone()));
            a.push(self.pending_replies[k].1.deep_clone());
            proof {
                crate::json::lemma_seq_view(a@);
                assert(seq_view(a@) =~= seq![JsonV::Str(self.pending_replies@[k as int].0@), self.pending_replies@[k as int].1@]);
            }
            rps.push(Json::Array(a));
            k += 1;
        }
        let mut rng: Vec<(String, Json)> = Vec::new();
        rng.push(entry("inc", unum_exec(self.rng.increment())));
        rng.push(entry("state", unum_exec(self.rng.state())));
        let ghost world_v = world@;
        let ghost logic_v = logic@;
        let mut top: Vec<(String, Json)> = Vec::new();
        top.push(entry("logic", logic));
        top.push(entry("pending_events", Json::Array(evs)));
        top.push(entry("pending_inputs", Json::Array(ins)));
        top.push(entry("pending_replies", Json::Array(rps)));
        top.push(entry("rng", Json::Object(rng)));
        top.push(entry("seed", unum_exec(self.seed)));
        top.push(entry("tick", unum_exec(self.tick)));
        top.push(entry("world", world));
        proof {
            crate::json::lemma_entries_view(rng@);
            assert(entries_view(rng@) =~= seq![("inc"@, unum(sv.rng.inc)), ("state"@, unum(sv.rng.state))]);
            crate::json::lemma_seq_view(evs@);
            crate::json::lemma_seq_view(ins@);
            crate::json::lemma_seq_view(rps@);
            assert(seq_view(evs@) =~= sv.pending_events.map_values(|e: EventV| event_json(e)));
            assert(seq_view(ins@) =~= sv.pending_inputs.map_values(|p: (Seq<char>, Seq<char>)| input_json(p)));
            assert(seq_view(rps@) =~= sv.pending_replies.map_values(|p: (Seq<char>, JsonV)| reply_json(p)));
            crate::json::lemma_entries_view(top@);
            assert(entries_view(top@) =~= seq![
                ("logic"@, logic_v),
                ("pending_events"@, JsonV::Array(sv.pending_events.map_values(|e: EventV| event_json(e)))),
                ("pending_inputs"@, JsonV::Array(sv.pending_inputs.map_values(|p: (Seq<char>, Seq<char>)| input_json(p)))),
                ("pending_replies"@, JsonV::Array(sv.pending_replies.map_values(|p: (Seq<char>, JsonV)| reply_json(p)))),
                ("rng"@, rng_json(sv.rng)),
                ("seed"@, unum(sv.seed)),
                ("tick"@, unum(sv.tick)),
                ("world"@, world_v),
            ]);
        }
        Json::Object(top)
    }
}

/// The stream state read back from a snapshot: `{"state": u64, "inc": u64}` (other keys
/// ignored) or `[state, inc]`.
pub open spec fn rng_from_spec(r: JsonV) -> Option<PcgState> {
    match r {
        JsonV::Object(_) => match (u64_of(get_spec(r, "state"@)), u64_of(get_spec(r, "inc"@))) {
            (Some(state), Some(inc)) => Some(PcgState { state, inc }),
            _ => None,
        },
        JsonV::Array(a) =>
            if a.len() == 2 && u64_spec(a[0]) is Some && u64_spec(a[1]) is Some {
                Some(PcgState { state: u64_spec(a[0])->0, inc: u64_spec(a[1])->0 })
            } else {
                None
            },
        _ => None,
    }
}

pub open spec fn u64_of(v: Option<JsonV>) -> Option<u64> {
    match v {
        Some(x) => u64_spec(x),
        None => None,
    }
}

/// The head of a snapshot: tick, seed and stream (and a world snapshot must be present).
pub open spec fn head_spec(snap: JsonV) -> Result<(u64, u64, PcgState), Seq<char>> {
    let tick = u64_of(get_spec(snap, "tick"@));
    let seed = u64_of(get_spec(snap, "seed"@));
    if tick is None {
        Err("快照缺 tick"@)
    } else if seed is None {
        Err("快照缺 seed"@)
    } else {
        match get_spec(snap, "rng"@) {
            None => Err("快照缺 rng"@),
            Some(r) => match rng_from_spec(r) {
                None => Err("rng 解析失败: 需要 {\"state\": u64, \"inc\": u64}"@),
                Some(st) => if get_spec(snap, "world"@) is None {
                    Err("快照缺 world"@)
                } else {
                    Ok((tick->0, seed->0, st))
                },
            },
        }
    }
}

/// Whether a value is `[text, text]`.
pub open spec fn is_input_pair(v: JsonV) -> bool {
    match v {
        JsonV::Array(a) => a.len() == 2 && a[0] is Str && a[1] is Str,
        _ => false,
    }
}

/// Whether a value is `[text, value]`.
pub open spec fn is_reply_pair(v: JsonV) -> bool {
    match v {
        JsonV::Array(a) => a.len() == 2 && a[0] is Str,
        _ => false,
    }
}

/// Whether a value has a text `name`.
pub open spec fn is_named(v: JsonV) -> bool {
    get_str_spec(v, "name"@) is Some
}

pub open spec fn pair_texts(v: JsonV) -> (Seq<char>, Seq<char>) {
    (str_spec(v->Array_0[0])->0, str_spec(v->Array_0[1])->0)
}

pub open spec fn pair_reply(v: JsonV) -> (Seq<char>, JsonV) {
    (str_spec(v->Array_0[0])->0, v->Array_0[1])
}

/// A queued event read back: its text `name`, its `data` object (no/other data: empty).
pub open spec fn event_from_spec(v: JsonV) -> EventV {
    EventV {
        name: get_str_spec(v, "name"@)->0,
        data: match get_spec(v, "data"@) {
            Some(d) => object_entries(d),
            None => Seq::empty(),
        },
    }
}

/// Whether a value is an array of `[text, text]` pairs.
pub open spec fn all_input_pairs(v: JsonV) -> bool {
    v is Array && forall|i: int| 0 <= i < v->Array_0.len() ==> is_input_pair(#[trigger] v->Array_0[i])
}

/// Whether a value is an array of `[text, value]` pairs.
pub open spec fn all_reply_pairs(v: JsonV) -> bool {
    v is Array && forall|i: int| 0 <= i < v->Array_0.len() ==> is_reply_pair(#[trigger] v->Array_0[i])
}

/// Whether every value has a text `name`.
pub open spec fn all_named(evs: Seq<JsonV>) -> bool {
    forall|i: int| 0 <= i < evs.len() ==> is_named(#[trigger] evs[i])
}

/// The queued host events of a snapshot (absent or not an array: none).
pub open spec fn queued_events(snap: JsonV) -> Seq<JsonV> {
    match get_spec(snap, "pending_events"@) {
        Some(JsonV::Array(a)) => a,
        _ => Seq::empty(),
    }
}

/// The pending queues of a snapshot (and a logic snapshot must be present).
pub open spec fn queues_spec(snap: JsonV) -> Result<(Seq<(Seq<char>, Seq<char>)>, Seq<(Seq<char>, JsonV)>, Seq<EventV>), Seq<char>> {
    match get_spec(snap, "pending_inputs"@) {
        None => Err("快照缺 pending_inputs"@),
        Some(pi) => if !all_input_pairs(pi) {
            Err("pending_inputs 解析失败: 每项须是 [动作, 阶段] 两个文本"@)
        } else {
            match get_spec(snap, "pending_replies"@) {
                None => Err("快照缺 pending_replies（旧版快照与当前版本不兼容，重新 sim/snapshot）"@),
                Some(pr) => if !all_reply_pairs(pr) {
                    Err("pending_replies 解析失败: 每项须是 [事件名, 数据]"@)
                } else if !all_named(queued_events(snap)) {
                    Err("pending_events 缺 name 字段"@)
                } else if get_spec(snap, "logic"@) is None {
                    Err("快照缺 logic 状态"@)
                } else {
                    Ok((
                        pi->Array_0.map_values(|v: JsonV| pair_texts(v)),
                        pr->Array_0.map_values(|v: JsonV| pair_reply(v)),
                        queued_events(snap).map_values(|v: JsonV| event_from_spec(v)),
                    ))
                }
            }
        }
    }
}

/// What a snapshot's head holds.
#[derive(Debug)]
pub struct SnapshotHead {
    pub tick: u64,
    pub seed: u64,
    pub rng: Pcg32,
}

/// What a snapshot's queues hold.
#[derive(Debug)]
pub struct SnapshotQueues {
    pub pending_inputs: Vec<(String, String)>,
    pub pending_replies: Vec<(String, Json)>,
    pub pending_events: Vec<Event>,
}

fn get_u64(snap: &Json, key: &str) -> (r: Option<u64>)
    ensures
        r == u64_of(get_spec(snap@, key@)),
{
    match snap.get(key) {
        Some(v) => v.as_u64(),
        None => None,
    }
}

fn rng_from(r: &Json) -> (out: Option<Pcg32>)
    ensures
        match out {
            Some(p) => rng_from_spec(r@) == Some(p@),
            None => rng_from_spec(r@) is None,
        },
{
    match r {
        Json::Object(_) => {
            let state = get_u64(r, "state");
            let inc = get_u64(r, "inc");
            match (state, inc) {
                (Some(state), Some(inc)) => Some(Pcg32::from_parts(state, inc)),
                _ => None,
            }
        },
        Json::Array(a) => {
            proof { crate::json::lemma_seq_view(a@); }
            if a.len() == 2 {
                match (a[0].as_u64(), a[1].as_u64()) {
                    (Some(state), Some(inc)) => Some(Pcg32::from_parts(state, inc)),
                    _ => None,
                }
            } else {
                None
            }
        },
        _ => None,
    }
}

fn err_text(s: &str) -> (r: Result<SnapshotHead, String>)
    ensures
        r matches Err(m) && m@ == s@,
{
    Err(String::from_str(s))
}

fn err_text_q(s: &str) -> (r: Result<SnapshotQueues, String>)
    ensures
        r matches Err(m) && m@ == s@,
{
    Err(String::from_str(s))
}

/// Read the head of a snapshot (see [`head_spec`]).
pub fn parse_snapshot_head(snap: &Json) -> (r: Result<SnapshotHead, String>)
    ensures
        match r {
            Ok(h) => head_spec(snap@) == Ok::<(u64, u64, PcgState), Seq<char>>((h.tick, h.seed, h.rng@)),
            Err(m) => head_spec(snap@) == Err::<(u64, u64, PcgState), Seq<char>>(m@),
        },
{
    let tick = get_u64(snap, "tick");
    let seed = get_u64(snap, "seed");
    match tick {
        None => err_text("快照缺 tick"),
        Some(tick) => match seed {
            None => err_text("快照缺 seed"),
            Some(seed) => match snap.get("rng") {
                None => err_text("快照缺 rng"),
                Some(r) => match rng_from(r) {
                    None => err_text("rng 解析失败: 需要 {\"state\": u64, \"inc\": u64}"),
                    Some(rng) => if snap.get("world").is_none() {
                        err_text("快照缺 world")
                    } else {
                        Ok(SnapshotHead { tick, seed, rng })
                    },
                },
            },
        },
    }
}

/// Read the pending queues of a snapshot (see [`queues_spec`]).
pub fn parse_snapshot_queues(snap: &Json) -> (r: Result<SnapshotQueues, String>)
    ensures
        match r {
            Ok(q) => queues_spec(snap@) == Ok::<(Seq<(Seq<char>, Seq<char>)>, Seq<(Seq<char>, JsonV)>, Seq<EventV>), Seq<char>>(
                (pairs_view(q.pending_inputs@), replies_pending_view(q.pending_replies@), events_view(q.pending_events@))),
            Err(m) => queues_spec(snap@) == Err::<(Seq<(Seq<char>, Seq<char>)>, Seq<(Seq<char>, JsonV)>, Seq<EventV>), Seq<char>>(m@),
        },
{
    // pending inputs
    let pi = match snap.get("pending_inputs") {
        None => return err_text_q("快照缺 pending_inputs"),
        Some(v) => v,
    };
    let ins_arr = match pi.as_array() {
        None => return err_text_q("pending_inputs 解析失败: 每项须是 [动作, 阶段] 两个文本"),
        Some(a) => a,
    };
    let ghost piv = seq_view(ins_arr@);
    proof { crate::json::lemma_seq_view(ins_arr@); }
    let mut ins: Vec<(String, String)> = Vec::new();
    let mut i: usize = 0;
    while i < ins_arr.len()
        invariant
            i <= ins_arr@.len(),
            piv == seq_view(ins_arr@),
            piv.len() == ins_arr@.len(),
            forall|k: int| 0 <= k < ins_arr@.len() ==> #[trigger] piv[k] == json_view(ins_arr@[k]),
            forall|k: int| 0 <= k < i ==> is_input_pair(#[trigger] piv[k]),
            get_spec(snap@, "pending_inputs"@) == Some(JsonV::Array(piv)),
            pairs_view(ins@) == piv.subrange(0, i as int).map_values(|v: JsonV| pair_texts(v)),
        decreases ins_arr@.len() - i,
    {
        let ghost pre = ins@;
        let ok = match &ins_arr[i] {
            Json::Array(p) => {
                proof { crate::json::lemma_seq_view(p@); }
                if p.len() == 2 {
                    match (p[0].as_str(), p[1].as_str()) {
                        (Some(a), Some(b)) => {
                            ins.push((String::from_str(a), String::from_str(b)));
                            true
                        },
                        _ => false,
                    }
                } else {
                    false
                }
            },
            _ => false,
        };
        if !ok {
            proof {
                assert(!is_input_pair(piv[i as int]));
                assert(!all_input_pairs(JsonV::Array(piv)));
            }
            return err_text_q("pending_inputs 解析失败: 每项须是 [动作, 阶段] 两个文本");
        }
        proof {
            assert(piv.subrange(0, i + 1) =~= piv.subrange(0, i as int).push(piv[i as int]));
            assert(pairs_view(ins@) =~= pairs_view(pre).push(pair_texts(piv[i as int])));
        }
        i += 1;
    }
    proof { assert(piv.subrange(0, ins_arr@.len() as int) =~= piv); }
    // pending replies
    let pr = match snap.get("pending_replies") {
        None => return err_text_q("快照缺 pending_replies（旧版快照与当前版本不兼容，重新 sim/snapshot）"),
        Some(v) => v,
    };
    let rep_arr = match pr.as_array() {
        None => return err_text_q("pending_replies 解析失败: 每项须是 [事件名, 数据]"),
        Some(a) => a,
    };
    let ghost prv = seq_view(rep_arr@);
    proof { crate::json::lemma_seq_view(rep_arr@); }
    let mut rps: Vec<(String, Json)> = Vec::new();
    let mut j: usize = 0;
    while j < rep_arr.len()
        invariant
            j <= rep_arr@.len(),
            prv == seq_view(rep_arr@),
            prv.len() == rep_arr@.len(),
            forall|k: int| 0 <= k < rep_arr@.len() ==> #[trigger] prv[k] == json_view(rep_arr@[k]),
            forall|k: int| 0 <= k < j ==> is_reply_pair(#[trigger] prv[k]),
            get_spec(snap@, "pending_inputs"@) == Some(JsonV::Array(piv)),
            forall|k: int| 0 <= k < piv.len() ==> is_input_pair(#[trigger] piv[k]),
            get_spec(snap@, "pending_replies"@) == Some(JsonV::Array(prv)),
            replies_pending_view(rps@) == prv.subrange(0, j as int).map_values(|v: JsonV| pair_reply(v)),
        decreases rep_arr@.len() - j,
    {
        let ghost pre = rps@;
        let ok = match &rep_arr[j] {
            Json::Array(p) => {
                proof { crate::json::lemma_seq_view(p@); }
                if p.len() == 2 {
                    match p[0].as_str() {
                        Some(a) => {
                            rps.push((String::from_str(a), p[1].deep_clone()));
                            true
                        },
                        None => false,
                    }
                } else {
                    false
                }
            },
            _ => false,
        };
        if !ok {
            proof {
                assert(!is_reply_pair(prv[j as int]));
                assert(!all_reply_pairs(JsonV::Array(prv)));
            }
            return err_text_q("pending_replies 解析失败: 每项须是 [事件名, 数据]");
        }
        proof {
            assert(prv.subrange(0, j + 1) =~= prv.subrange(0, j as int).push(prv[j as int]));
            assert(replies_pending_view(rps@) =~= replies_pending_view(pre).push(pair_reply(prv[j as int])));
        }
        j += 1;
    }
    proof { assert(prv.subrange(0, rep_arr@.len() as int) =~= prv); }
    // pending host events (absent in older snapshots: none queued)
    let empty: Vec<Json> = Vec::new();
    let ev_arr: &Vec<Json> = match snap.get("pending_events") {
        Some(v) => match v.as_array() {
            Some(a) => a,
            None => &empty,
        },
        None => &empty,
    };
    let ghost evv = seq_view(ev_arr@);
    proof {
        crate::json::lemma_seq_view(ev_arr@);
        assert(evv == queued_events(snap@));
    }
    let mut evs: Vec<Event> = Vec::new();
    let mut k: usize = 0;
    while k < ev_arr.len()
        invariant
            k <= ev_arr@.len(),
            evv == seq_view(ev_arr@),
            evv.len() == ev_arr@.len(),
            forall|q: int| 0 <= q < ev_arr@.len() ==> #[trigger] evv[q] == json_view(ev_arr@[q]),
            forall|q: int| 0 <= q < k ==> is_named(#[trigger] evv[q]),
            get_spec(snap@, "pending_inputs"@) == Some(JsonV::Array(piv)),
            forall|q: int| 0 <= q < piv.len() ==> is_input_pair(#[trigger] piv[q]),
            get_spec(snap@, "pending_replies"@) == Some(JsonV::Array(prv)),
            forall|q: int| 0 <= q < prv.len() ==> is_reply_pair(#[trigger] prv[q]),
            evv == queued_events(snap@),
            events_view(evs@) == evv.subrange(0, k as int).map_values(|v: JsonV| event_from_spec(v)),
        decreases ev_arr@.len() - k,
    {
        let ghost pre = evs@;
        let ev = &ev_arr[k];
        let name = match ev.get("name") {
            Some(n) => n.as_str(),
            None => None,
        };
        match name {
            None => {
                proof {
                    assert(!is_named(evv[k as int]));
                    assert(!all_named(evv));
                }
                return err_text_q("pending_events 缺 name 字段");
            },
            Some(name) => {
                let data = match ev.get("data") {
                    Some(d) => d.deep_clone(),
                    None => Json::Null,
                };
                let e = Event::new(name, data);
                evs.push(e);
                proof {
                    assert(evv.subrange(0, k + 1) =~= evv.subrange(0, k as int).push(evv[k as int]));
                    assert(events_view(evs@) =~= events_view(pre).push(event_from_spec(evv[k as int])));
                }
            },
        }
        k += 1;
    }
    proof { assert(evv.subrange(0, ev_arr@.len() as int) =~= evv); }
    if snap.get("logic").is_none() {
        return err_text_q("快照缺 logic 状态");
    }
    Ok(SnapshotQueues { pending_inputs: ins, pending_replies: rps, pending_events: evs })
}

impl Sim {
    /// Take over a snapshot's head and queues. A recording in progress is dropped: the
    /// timeline broke, so it could no longer be replayed.
    pub fn commit_restore(&mut self, head: SnapshotHead, queues: SnapshotQueues)
        ensures
            final(self)@ == (SimV {
                rng: head.rng@,
                tick: head.tick,
                seed: head.seed,
                pending_inputs: pairs_view(queues.pending_inputs@),
                pending_replies: replies_pending_view(queues.pending_replies@),
                pending_events: events_view(queues.pending_events@),
                recorder: None,
            }),
    {
        self.tick = head.tick;
        self.seed = head.seed;
        self.rng = head.rng;
        self.pending_inputs = queues.pending_inputs;
        self.pending_replies = queues.pending_replies;
        self.pending_events = queues.pending_events;
        self.recorder = None;
    }

    /// Restore the simulator's part of a snapshot (`tick`, `seed`, `rng` and the pending
    /// queues; the world and the logic state are the host's part). Everything is read before
    /// anything changes: a snapshot that does not read leaves the simulator exactly as it was
    /// and names the first problem (its head before its queues). A restore drops any recording
    /// in progress.
    pub fn restore(&mut self, snap: &Json) -> (r: Result<(), String>)
        ensures
            match head_spec(snap@) {
                Err(m) => r matches Err(e) && e@ == m && final(self)@ == old(self)@,
                Ok(h) => match queues_spec(snap@) {
                    Err(m) => r matches Err(e) && e@ == m && final(self)@ == old(self)@,
                    Ok(q) => r is Ok && final(self)@ == (SimV {
                        rng: h.2,
                        tick: h.0,
                        seed: h.1,
                        pending_inputs: q.0,
                        pending_replies: q.1,
                        pending_events: q.2,
                        recorder: None,
                    }),
                },
            },
    {
        let head = match parse_snapshot_head(snap) {
            Ok(h) => h,
            Err(m) => return Err(m),
        };
        let queues = match parse_snapshot_queues(snap) {
            Ok(q) => q,
            Err(m) => return Err(m),
        };
        self.commit_restore(head, queues);
        Ok(())
    }
}

/// What a snapshot holds, field by field: the clock under `tick`, the seed under `seed`, the
/// world's and the logic layer's snapshots under `world` and `logic`, and the random stream under
/// `rng` as an object whose `state` is the stream's state word and whose `inc` is its increment.
pub proof fn lemma_snapshot_fields(s: SimV, world: JsonV, logic: JsonV)
    ensures
        get_spec(snapshot_spec(s, world, logic), "tick"@) == Some(JsonV::Number(JsonNumber::PosInt(s.tick))),
        get_spec(snapshot_spec(s, world, logic), "seed"@) == Some(JsonV::Number(JsonNumber::PosInt(s.seed))),
        get_spec(snapshot_spec(s, world, logic), "world"@) == Some(world),
        get_spec(snapshot_spec(s, world, logic), "logic"@) == Some(logic),
        get_spec(snapshot_spec(s, world, logic), "rng"@) matches Some(r) && r is Object
            && get_spec(r, "state"@) == Some(JsonV::Number(JsonNumber::PosInt(s.rng.state)))
            && get_spec(r, "inc"@) == Some(JsonV::Number(JsonNumber::PosInt(s.rng.inc))),
{
    reveal_strlit("logic");
    reveal_strlit("pending_events");
    reveal_strlit("pending_inputs");
    reveal_strlit("pending_replies");
    reveal_strlit("rng");
    reveal_strlit("seed");
    reveal_strlit("tick");
    reveal_strlit("world");
    reveal_strlit("inc");
    reveal_strlit("state");
    let snap = snapshot_spec(s, world, logic);
    let m = snap->Object_0;
    assert(m.len() == 8);
    assert(m[0].0 == "logic"@);
    assert(m[1].0 == "pending_events"@);
    assert(m[2].0 == "pending_inputs"@);
    assert(m[3].0 == "pending_replies"@);
    assert(m[4].0 == "rng"@);
    assert(m[5].0 == "seed"@);
    assert(m[6].0 == "tick"@);
    assert(m[7].0 == "world"@);
    assert forall|j: int| 0 <= j < 6 implies #[trigger] m[j].0 != "tick"@ by {
        if j == 0 {} else if j == 1 {} else if j == 2 {} else if j == 3 {} else if j == 4 {} else {
            assert(m[5].0[0] != "tick"@[0]);
        }
    }
    lemma_entries_get_at(m, 6, "tick"@);
    assert forall|j: int| 0 <= j < 5 implies #[trigger] m[j].0 != "seed"@ by {
        if j == 0 {} else if j == 1 {} else if j == 2 {} else if j == 3 {} else {}
    }
    lemma_entries_get_at(m, 5, "seed"@);
    assert forall|j: int| 0 <= j < 7 implies #[trigger] m[j].0 != "world"@ by {
        if j == 0 {
            assert(m[0].0[0] != "world"@[0]);
        } else if j == 1 {} else if j == 2 {} else if j == 3 {} else if j == 4 {} else if j == 5 {} else {}
    }
    lemma_entries_get_at(m, 7, "world"@);
    lemma_entries_get_at(m, 0, "logic"@);
    assert forall|j: int| 0 <= j < 4 implies #[trigger] m[j].0 != "rng"@ by {
        if j == 0 {} else if j == 1 {} else if j == 2 {} else {}
    }
    lemma_entries_get_at(m, 4, "rng"@);
    let r = rng_json(s.rng);
    let rm = r->Object_0;
    lemma_entries_get_at(rm, 0, "inc"@);
    assert(rm[0].0 == "inc"@);
    assert forall|j: int| 0 <= j < 1 implies #[trigger] rm[j].0 != "state"@ by {}
    lemma_entries_get_at(rm, 1, "state"@);
}

/// A snapshot's queues, item by item: `pending_inputs` holds each pending input as
/// `[action, phase]`, `pending_replies` each pending reply as `[name, data]`, and
/// `pending_events` each queued host event as an object with its `name` and its `data` object,
/// all in queue order.
pub proof fn lemma_snapshot_queue_fields(s: SimV, world: JsonV, logic: JsonV)
    ensures
        get_spec(snapshot_spec(s, world, logic), "pending_inputs"@) matches Some(JsonV::Array(q))
            && q.len() == s.pending_inputs.len()
            && forall|i: int| 0 <= i < q.len() ==> #[trigger] q[i]
                == JsonV::Array(seq![JsonV::Str(s.pending_inputs[i].0), JsonV::Str(s.pending_inputs[i].1)]),
        get_spec(snapshot_spec(s, world, logic), "pending_replies"@) matches Some(JsonV::Array(q))
            && q.len() == s.pending_replies.len()
            && forall|i: int| 0 <= i < q.len() ==> #[trigger] q[i]
                == JsonV::Array(seq![JsonV::Str(s.pending_replies[i].0), s.pending_replies[i].1]),
        get_spec(snapshot_spec(s, world, logic), "pending_events"@) matches Some(JsonV::Array(q))
            && q.len() == s.pending_events.len()
            && forall|i: int| 0 <= i < q.len() ==> get_spec(#[trigger] q[i], "name"@) == Some(JsonV::Str(s.pending_events[i].name))
                && get_spec(q[i], "data"@) == Some(JsonV::Object(s.pending_events[i].data)),
{
    reveal_strlit("logic");
    reveal_strlit("pending_events");
    reveal_strlit("pending_inputs");
    reveal_strlit("pending_replies");
    reveal_strlit("name");
    reveal_strlit("data");
    let snap = snapshot_spec(s, world, logic);
    let m = snap->Object_0;
    assert(m[0].0 == "logic"@);
    assert(m[1].0 == "pending_events"@);
    assert(m[2].0 == "pending_inputs"@);
    assert(m[3].0 == "pending_replies"@);
    assert(m[0].0.len() != "pending_events"@.len());
    lemma_entries_get_at(m, 1, "pending_events"@);
    assert forall|j: int| 0 <= j < 2 implies #[trigger] m[j].0 != "pending_inputs"@ by {
        if j == 1 { assert(m[1].0[8] != "pending_inputs"@[8]); }
    }
    lemma_entries_get_at(m, 2, "pending_inputs"@);
    assert forall|j: int| 0 <= j < 3 implies #[trigger] m[j].0 != "pending_replies"@ by {
        if j == 1 { assert(m[1].0.len() != "pending_replies"@.len()); }
        if j == 2 { assert(m[2].0.len() != "pending_replies"@.len()); }
    }
    lemma_entries_get_at(m, 3, "pending_replies"@);
    let evs = s.pending_events.map_values(|e: EventV| event_json(e));
    assert forall|i: int| 0 <= i < evs.len() implies get_spec(#[trigger] evs[i], "name"@) == Some(JsonV::Str(s.pending_events[i].name))
        && get_spec(evs[i], "data"@) == Some(JsonV::Object(s.pending_events[i].data)) by {
        let em = evs[i]->Object_0;
        assert(em[0].0 == "data"@);
        assert(em[1].0 == "name"@);
        lemma_entries_get_at(em, 0, "data"@);
        assert forall|j: int| 0 <= j < 1 implies #[trigger] em[j].0 != "name"@ by {
            assert(em[0].0[0] != "name"@[0]);
        }
        lemma_entries_get_at(em, 1, "name"@);
    }
}

/// Restore reads the queues by field name and item by item: each `pending_inputs` item
/// `[action, phase]` becomes the pending input `(action, phase)`, each `pending_replies` item
/// `[name, data]` the pending reply `(name, data)`, and each `pending_events` object the queued
/// event with its `name` and its `data` object (empty when missing or not an object), in order.
pub proof fn lemma_restore_queue_fields(snap: JsonV)
    requires
        queues_spec(snap) is Ok,
    ensures
        ({
            let (ins, reps, evs) = queues_spec(snap)->Ok_0;
            &&& get_spec(snap, "pending_inputs"@) matches Some(JsonV::Array(q)) && q.len() == ins.len()
                && forall|i: int| 0 <= i < q.len() ==> #[trigger] q[i]
                    == JsonV::Array(seq![JsonV::Str(ins[i].0), JsonV::Str(ins[i].1)])
            &&& get_spec(snap, "pending_replies"@) matches Some(JsonV::Array(q)) && q.len() == reps.len()
                && forall|i: int| 0 <= i < q.len() ==> #[trigger] q[i]
                    == JsonV::Array(seq![JsonV::Str(reps[i].0), reps[i].1])
            &&& evs.len() == queued_events(snap).len()
            &&& forall|i: int| 0 <= i < evs.len() ==> get_spec(#[trigger] queued_events(snap)[i], "name"@) == Some(JsonV::Str(evs[i].name))
                && evs[i].data == match get_spec(queued_events(snap)[i], "data"@) {
                    Some(JsonV::Object(d)) => d,
                    _ => Seq::<(Seq<char>, JsonV)>::empty(),
                }
        }),
{
    let (ins, reps, evs) = queues_spec(snap)->Ok_0;
    let q = get_spec(snap, "pending_inputs"@)->0->Array_0;
    assert forall|i: int| 0 <= i < q.len() implies #[trigger] q[i]
        == JsonV::Array(seq![JsonV::Str(ins[i].0), JsonV::Str(ins[i].1)]) by {
        assert(is_input_pair(q[i]));
        assert(q[i]->Array_0 =~= seq![JsonV::Str(ins[i].0), JsonV::Str(ins[i].1)]);
    }
    let r = get_spec(snap, "pending_replies"@)->0->Array_0;
    assert forall|i: int| 0 <= i < r.len() implies #[trigger] r[i]
        == JsonV::Array(seq![JsonV::Str(reps[i].0), reps[i].1]) by {
        assert(is_reply_pair(r[i]));
        assert(r[i]->Array_0 =~= seq![JsonV::Str(reps[i].0), reps[i].1]);
    }
    assert forall|i: int| 0 <= i < evs.len() implies get_spec(#[trigger] queued_events(snap)[i], "name"@) == Some(JsonV::Str(evs[i].name)) by {
        assert(is_named(queued_events(snap)[i]));
    }
}

/// Restore reads a snapshot by field name: a snapshot whose `tick` and `seed` are unsigned
/// integers, whose `world` is present and whose `rng` is an object with unsigned integers under
/// `state` and `inc` restores that clock, that seed, and a stream with exactly that state word
/// and that increment.
pub proof fn lemma_restore_reads_fields(snap: JsonV, tick: u64, seed: u64, r: JsonV, state: u64, inc: u64)
    requires
        get_spec(snap, "tick"@) == Some(JsonV::Number(JsonNumber::PosInt(tick))),
        get_spec(snap, "seed"@) == Some(JsonV::Number(JsonNumber::PosInt(seed))),
        get_spec(snap, "world"@) is Some,
        get_spec(snap, "rng"@) == Some(r),
        r is Object,
        get_spec(r, "state"@) == Some(JsonV::Number(JsonNumber::PosInt(state))),
        get_spec(r, "inc"@) == Some(JsonV::Number(JsonNumber::PosInt(inc))),
    ensures
        head_spec(snap) == Ok::<(u64, u64, PcgState), Seq<char>>((tick, seed, PcgState { state, inc })),
{
}

/// Snapshot then restore is exact: reading back a snapshot gives the same clock, seed, stream
/// state and pending queues (whatever the world and logic snapshots are).
pub proof fn lemma_snapshot_roundtrip(s: SimV, world: JsonV, logic: JsonV)
    ensures
        head_spec(snapshot_spec(s, world, logic)) == Ok::<(u64, u64, PcgState), Seq<char>>((s.tick, s.seed, s.rng)),
        queues_spec(snapshot_spec(s, world, logic)) == Ok::<(Seq<(Seq<char>, Seq<char>)>, Seq<(Seq<char>, JsonV)>, Seq<EventV>), Seq<char>>(
            (s.pending_inputs, s.pending_replies, s.pending_events)),
{
    reveal_strlit("logic");
    reveal_strlit("pending_events");
    reveal_strlit("pending_inputs");
    reveal_strlit("pending_replies");
    reveal_strlit("rng");
    reveal_strlit("seed");
    reveal_strlit("tick");
    reveal_strlit("world");
    reveal_strlit("inc");
    reveal_strlit("state");
    reveal_strlit("data");
    reveal_strlit("name");
    let snap = snapshot_spec(s, world, logic);
    let m = snap->Object_0;
    assert("seed"@[0] != "tick"@[0]);
    assert("world"@[0] != "logic"@[0]);
    assert("pending_events"@[8] != "pending_inputs"@[8]);
    assert(m[0].0 != "tick"@);
    assert(m[1].0 != "tick"@);
    assert(m[2].0 != "tick"@);
    assert(m[3].0 != "tick"@);
    assert(m[4].0 != "tick"@);
    assert(m[5].0 != "tick"@);
    assert forall|j: int| 0 <= j < 6 implies #[trigger] m[j].0 != "tick"@ by {
        assert(j == 0 || j == 1 || j == 2 || j == 3 || j == 4 || j == 5);
    }
    lemma_entries_get_at(m, 6, "tick"@);
    assert(m[0].0 != "seed"@);
    assert(m[1].0 != "seed"@);
    assert(m[2].0 != "seed"@);
    assert(m[3].0 != "seed"@);
    assert(m[4].0 != "seed"@);
    assert forall|j: int| 0 <= j < 5 implies #[trigger] m[j].0 != "seed"@ by {
        assert(j == 0 || j == 1 || j == 2 || j == 3 || j == 4);
    }
    lemma_entries_get_at(m, 5, "seed"@);
    assert(m[0].0 != "rng"@);
    assert("rng"@.len() == 3);
    assert("pending_events"@.len() == 14);
    assert(m[1].0 != "rng"@);
    assert(m[2].0 != "rng"@);
    assert(m[3].0 != "rng"@);
    assert forall|j: int| 0 <= j < 4 implies #[trigger] m[j].0 != "rng"@ by {
        assert(j == 0 || j == 1 || j == 2 || j == 3);
    }
    lemma_entries_get_at(m, 4, "rng"@);
    assert(m[0].0 != "world"@);
    assert(m[1].0 != "world"@);
    assert(m[2].0 != "world"@);
    assert(m[3].0 != "world"@);
    assert(m[4].0 != "world"@);
    assert(m[5].0 != "world"@);
    assert(m[6].0 != "world"@);
    assert forall|j: int| 0 <= j < 7 implies #[trigger] m[j].0 != "world"@ by {
        assert(j == 0 || j == 1 || j == 2 || j == 3 || j == 4 || j == 5 || j == 6);
    }
    lemma_entries_get_at(m, 7, "world"@);
    assert(m[0].0 != "pending_replies"@);
    assert(m[1].0 != "pending_replies"@);
    assert(m[2].0 != "pending_replies"@);
    assert forall|j: int| 0 <= j < 3 implies #[trigger] m[j].0 != "pending_replies"@ by {
        assert(j == 0 || j == 1 || j == 2);
    }
    lemma_entries_get_at(m, 3, "pending_replies"@);
    assert(m[0].0 != "pending_inputs"@);
    assert(m[1].0 != "pending_inputs"@);
    assert forall|j: int| 0 <= j < 2 implies #[trigger] m[j].0 != "pending_inputs"@ by {
        assert(j == 0 || j == 1);
    }
    lemma_entries_get_at(m, 2, "pending_inputs"@);
    assert(m[0].0 != "pending_events"@);
    assert forall|j: int| 0 <= j < 1 implies #[trigger] m[j].0 != "pending_events"@ by {
        assert(j == 0);
    }
    lemma_entries_get_at(m, 1, "pending_events"@);
    assert forall|j: int| 0 <= j < 0 implies #[trigger] m[j].0 != "logic"@ by {}
    lemma_entries_get_at(m, 0, "logic"@);
    // the stream
    let rm = rng_json(s.rng)->Object_0;
    assert("inc"@.len() == 3);
    assert("state"@.len() == 5);
    assert(rm[0].0 != "state"@);
    assert forall|j: int| 0 <= j < 1 implies #[trigger] rm[j].0 != "state"@ by {
        assert(j == 0);
    }
    lemma_entries_get_at(rm, 1, "state"@);
    assert forall|j: int| 0 <= j < 0 implies #[trigger] rm[j].0 != "inc"@ by {}
    lemma_entries_get_at(rm, 0, "inc"@);
    assert(rng_from_spec(rng_json(s.rng)) == Some(s.rng));
    // the queues
    let pi = s.pending_inputs.map_values(|p: (Seq<char>, Seq<char>)| input_json(p));
    assert forall|i: int| 0 <= i < pi.len() implies is_input_pair(#[trigger] pi[i]) by {}
    assert(pi.map_values(|v: JsonV| pair_texts(v)) =~= s.pending_inputs);
    let pr = s.pending_replies.map_values(|p: (Seq<char>, JsonV)| reply_json(p));
    assert forall|i: int| 0 <= i < pr.len() implies is_reply_pair(#[trigger] pr[i]) by {}
    assert(pr.map_values(|v: JsonV| pair_reply(v)) =~= s.pending_replies);
    let pe = s.pending_events.map_values(|e: EventV| event_json(e));
    assert forall|i: int| 0 <= i < pe.len() implies is_named(#[trigger] pe[i]) && event_from_spec(pe[i]) == s.pending_events[i] by {
        let em = event_json(s.pending_events[i])->Object_0;
        assert("data"@[0] != "name"@[0]);
        assert(em[0].0 != "name"@);
        assert forall|j: int| 0 <= j < 1 implies #[trigger] em[j].0 != "name"@ by {
            assert(j == 0);
        }
        lemma_entries_get_at(em, 1, "name"@);
        assert forall|j: int| 0 <= j < 0 implies #[trigger] em[j].0 != "data"@ by {}
        lemma_entries_get_at(em, 0, "data"@);
    }
    assert(pe.map_values(|v: JsonV| event_from_spec(v)) =~= s.pending_events);
}

} // verus!
