//! Tweens: the easing-curve vocabulary and the integer bookkeeping of the tween system — which
//! tween governs a field when several target it, and where each tween stands on a given tick.
//! (The curve formulas themselves are floating point and live with the renderer-side code.)
use vstd::prelude::*;
use crate::text::{debug_quote, debug_quoted, decimal, join, join_strs, push_decimal, push_str, str_eq};
use crate::engine::{int_text, push_i64};
use crate::sim::SimError;

verus! {

/// Easing curve (a fixed set; part of the engine contract).
#[derive(Debug, Clone, Copy, PartialEq, Eq, Structural)]
pub enum Ease {
    /// Uniform speed.
    Linear,
    /// Cubic acceleration.
    In,
    /// Cubic deceleration.
    Out,
    /// Accelerate then decelerate.
    InOut,
    /// Decelerate with an overshoot at the end.
    OutBack,
}

/// The name of a curve, as written in data files and shown by `Ease::name`.
pub open spec fn ease_name(e: Ease) -> Seq<char> {
    match e {
        Ease::Linear => "linear"@,
        Ease::In => "ease-in"@,
        Ease::Out => "ease-out"@,
        Ease::InOut => "ease-in-out"@,
        Ease::OutBack => "ease-out-back"@,
    }
}

/// All curve names, in documentation order.
pub open spec fn ease_names_spec() -> Seq<Seq<char>> {
    seq!["linear"@, "ease-in"@, "ease-out"@, "ease-in-out"@, "ease-out-back"@]
}

/// The error text for an unknown curve name: the name as `{:?}` prints it, then every legal name.
pub open spec fn unknown_ease_message(name: Seq<char>) -> Seq<char> {
    "未知缓动曲线 "@ + debug_quoted(name) + "。可用曲线: ["@ + join(ease_names_spec(), ", "@) + "]"@
}

/// All curve names (used in error messages; order matches the documentation order).
pub fn ease_names() -> (v: Vec<&'static str>)
    ensures
        v@.map_values(|t: &str| t@) == ease_names_spec(),
{
    let v = vec!["linear", "ease-in", "ease-out", "ease-in-out", "ease-out-back"];
    assert(v@.map_values(|t: &str| t@) =~= ease_names_spec());
    v
}

impl Ease {
    /// Parse a curve by name; an unknown name is an error listing every available curve.
    pub fn parse(name: &str) -> (r: Result<Ease, String>)
        ensures
            forall|e: Ease| r == Ok::<Ease, String>(e) <==> name@ == ease_name(e),
            r is Err ==> r->Err_0@ == unknown_ease_message(name@),
            (r is Err) <==> (forall|e: Ease| name@ != ease_name(e)),
    {
        if str_eq(name, "linear") {
            proof { lemma_ease_names_distinct(); assert(name@ == ease_name(Ease::Linear)); }
            Ok(Ease::Linear)
        } else if str_eq(name, "ease-in") {
            proof { lemma_ease_names_distinct(); assert(name@ == ease_name(Ease::In)); }
            Ok(Ease::In)
        } else if str_eq(name, "ease-out") {
            proof { lemma_ease_names_distinct(); assert(name@ == ease_name(Ease::Out)); }
            Ok(Ease::Out)
        } else if str_eq(name, "ease-in-out") {
            proof { lemma_ease_names_distinct(); assert(name@ == ease_name(Ease::InOut)); }
            Ok(Ease::InOut)
        } else if str_eq(name, "ease-out-back") {
            proof { lemma_ease_names_distinct(); assert(name@ == ease_name(Ease::OutBack)); }
            Ok(Ease::OutBack)
        } else {
            let mut msg = String::new();
            push_str(&mut msg, "未知缓动曲线 ");
            let q = debug_quote(name);
            push_str(&mut msg, q.as_str());
            push_str(&mut msg, "。可用曲线: [");
            let names = ease_names();
            let joined = join_strs(&names, ", ");
            push_str(&mut msg, joined.as_str());
            push_str(&mut msg, "]");
            assert forall|e: Ease| name@ != ease_name(e) by {
                match e {
                    Ease::Linear => {},
                    Ease::In => {},
                    Ease::Out => {},
                    Ease::InOut => {},
                    Ease::OutBack => {},
                }
            }
            Err(msg)
        }
    }

    /// The curve's name, as written in data files.
    pub fn name(self) -> (s: &'static str)
        ensures
            s@ == ease_name(self),
    {
        match self {
            Ease::Linear => "linear",
            Ease::In => "ease-in",
            Ease::Out => "ease-out",
            Ease::InOut => "ease-in-out",
            Ease::OutBack => "ease-out-back",
        }
    }
}

/// The curve names are pairwise distinct, so `Ease::parse(e.name())` gives back exactly `e`.
pub proof fn lemma_ease_names_distinct()
    ensures
        forall|a: Ease, b: Ease| ease_name(a) == ease_name(b) ==> a == b,
{
    reveal_strlit("linear");
    reveal_strlit("ease-in");
    reveal_strlit("ease-out");
    reveal_strlit("ease-in-out");
    reveal_strlit("ease-out-back");
    assert forall|a: Ease, b: Ease| ease_name(a) == ease_name(b) implies a == b by {
        if a != b {
            match a {
                Ease::Linear => { assert(ease_name(a).len() != ease_name(b).len() || ease_name(a)[1] != ease_name(b)[1]); },
                Ease::In => { assert(ease_name(a).len() != ease_name(b).len()); },
                Ease::Out => { assert(ease_name(a).len() != ease_name(b).len()); },
                Ease::InOut => { assert(ease_name(a).len() != ease_name(b).len()); },
                Ease::OutBack => { assert(ease_name(a).len() != ease_name(b).len()); },
            }
        }
    }
}

/// What governs a target field: the tween targets entity slot `target`'s `field`; `start` is
/// the tick it started on, or negative when it has not started yet.
pub struct TweenKey {
    pub target: u32,
    pub field: String,
    pub start: i64,
}

/// Two tweens compete when they target the same slot and the same field.
pub open spec fn same_target(a: TweenKey, b: TweenKey) -> bool {
    a.target == b.target && a.field@ == b.field@
}

/// Recency of a tween's start: a tween that has not started yet counts as newest of all.
pub open spec fn recency(t: TweenKey) -> int {
    if t.start < 0 {
        i64::MAX as int
    } else {
        t.start as int
    }
}

/// Whether tween `i` is newer than tween `j`: later start, ties broken by later slot order.
pub open spec fn newer(ts: Seq<TweenKey>, i: int, j: int) -> bool {
    recency(ts[i]) > recency(ts[j]) || (recency(ts[i]) == recency(ts[j]) && i > j)
}

/// Whether tween `i` is displaced: some competing tween is newer than it.
pub open spec fn displaced(ts: Seq<TweenKey>, i: int) -> bool {
    exists|k: int| 0 <= k < ts.len() && k != i && same_target(ts[k], ts[i]) && newer(ts, k, i)
}

/// Same as [`displaced`], looking only at the first `n` tweens.
pub open spec fn displaced_within(ts: Seq<TweenKey>, i: int, n: int) -> bool {
    exists|k: int| 0 <= k < n && k != i && same_target(ts[k], ts[i]) && newer(ts, k, i)
}

fn same_target_exec(a: &TweenKey, b: &TweenKey) -> (r: bool)
    ensures
        r == same_target(*a, *b),
{
    a.target == b.target && str_eq(a.field.as_str(), b.field.as_str())
}

fn recency_exec(t: &TweenKey) -> (r: i64)
    ensures
        r as int == recency(*t),
{
    if t.start < 0 {
        i64::MAX
    } else {
        t.start
    }
}

/// Conflict resolution among tweens (in slot order): for every `(target, field)` only the
/// newest tween survives; the others are returned (each once) to be removed without a finish
/// event. Returns the displaced indices in the order they were displaced.
pub fn displaced_tweens(ts: &Vec<TweenKey>) -> (losers: Vec<usize>)
    ensures
        forall|i: int| 0 <= i < ts@.len() ==> (losers@.contains(i as usize) <==> displaced(ts@, i)),
        forall|k: int| 0 <= k < losers@.len() ==> losers@[k] < ts@.len(),
        losers@.no_duplicates(),
{
    // winners: for every target seen so far, the index of its newest tween
    let mut winners: Vec<usize> = Vec::new();
    let mut losers: Vec<usize> = Vec::new();
    let len = ts.len();
    let mut i: usize = 0;
    while i < ts.len()
        invariant
            len == ts@.len(),
            i <= ts@.len(),
            winners_ok(ts@, winners@, i as int),
            forall|j: int| 0 <= j < i ==> (losers@.contains(j as usize) <==> displaced_within(ts@, j, i as int)),
            forall|k: int| 0 <= k < losers@.len() ==> losers@[k] < i,
            losers@.no_duplicates(),
        decreases ts@.len() - i,
    {
        // find the current winner for ts[i]'s target
        let mut w: usize = 0;
        let mut found = false;
        while w < winners.len() && !found
            invariant
                w <= winners@.len(),
                i < ts@.len(),
                winners_ok(ts@, winners@, i as int),
                !found ==> forall|k: int| 0 <= k < w ==> !same_target(ts@[winners@[k] as int], ts@[i as int]),
                found ==> w < winners@.len() && same_target(ts@[winners@[w as int] as int], ts@[i as int]),
            decreases winners@.len() - w + (if found { 0int } else { 1int }),
        {
            if same_target_exec(&ts[winners[w]], &ts[i]) {
                found = true;
            } else {
                w += 1;
            }
        }
        let ghost old_winners = winners@;
        let ghost old_losers = losers@;
        let ghost n = i as int;
        if found {
            let old = winners[w];
            if recency_exec(&ts[i]) >= recency_exec(&ts[old]) {
                losers.push(old);
                winners.set(w, i);
                proof {
                    lemma_step_displace_winner(ts@, old_winners, old_losers, n, w as int);
                }
            } else {
                losers.push(i);
                proof {
                    lemma_step_newcomer_loses(ts@, old_winners, old_losers, n, w as int);
                }
            }
        } else {
            winners.push(i);
            proof {
                lemma_step_new_target(ts@, old_winners, old_losers, n);
            }
        }
        i += 1;
    }
    proof {
        assert forall|j: int| 0 <= j < ts@.len() implies (losers@.contains(j as usize) <==> #[trigger] displaced(ts@, j)) by {
            assert(losers@.contains(j as usize) <==> displaced_within(ts@, j, ts@.len() as int));
        }
    }
    losers
}

/// Invariant of the resolution scan over the first `n` tweens: `winners` holds, once per
/// target, exactly the tweens no competitor (so far) is newer than.
pub open spec fn winners_ok(ts: Seq<TweenKey>, winners: Seq<usize>, n: int) -> bool {
    &&& n <= ts.len()
    &&& forall|a: int| 0 <= a < winners.len() ==> winners[a] < n
    &&& forall|a: int| 0 <= a < winners.len() ==> !displaced_within(ts, winners[a] as int, n)
    &&& forall|a: int, b: int| 0 <= a < winners.len() && 0 <= b < winners.len() && a != b
            ==> !same_target(ts[winners[a] as int], ts[winners[b] as int])
    &&& forall|j: int| 0 <= j < n && !displaced_within(ts, j, n) ==> winners.contains(j as usize)
}

/// Every tween seen so far has a recorded winner of its target that is it or newer than it.
proof fn lemma_group_max(ts: Seq<TweenKey>, winners: Seq<usize>, k: int, n: int)
    requires
        winners_ok(ts, winners, n),
        ts.len() <= usize::MAX,
        0 <= k < n,
    ensures
        exists|a: int| 0 <= a < winners.len() && same_target(ts[winners[a] as int], ts[k])
            && (winners[a] as int == k || newer(ts, winners[a] as int, k)),
    decreases i64::MAX - recency(ts[k]), n - k,
{
    if !displaced_within(ts, k, n) {
        assert(winners.contains(k as usize));
        let a = choose|a: int| 0 <= a < winners.len() && winners[a] == k as usize;
        assert(same_target(ts[winners[a] as int], ts[k]));
    } else {
        let m = choose|m: int| 0 <= m < n && m != k && same_target(ts[m], ts[k]) && newer(ts, m, k);
        lemma_group_max(ts, winners, m, n);
        let a = choose|a: int| 0 <= a < winners.len() && same_target(ts[winners[a] as int], ts[m])
            && (winners[a] as int == m || newer(ts, winners[a] as int, m));
        assert(same_target(ts[winners[a] as int], ts[k]));
        assert(newer(ts, winners[a] as int, k));
    }
}

proof fn lemma_step_new_target(ts: Seq<TweenKey>, winners: Seq<usize>, losers: Seq<usize>, n: int)
    requires
        0 <= n < ts.len(),
        ts.len() <= usize::MAX,
        winners_ok(ts, winners, n),
        forall|j: int| 0 <= j < n ==> (losers.contains(j as usize) <==> displaced_within(ts, j, n)),
        forall|k: int| 0 <= k < winners.len() ==> !same_target(ts[winners[k] as int], ts[n]),
        forall|k: int| 0 <= k < losers.len() ==> losers[k] < n,
    ensures
        winners_ok(ts, winners.push(n as usize), n + 1),
        forall|j: int| 0 <= j < n + 1 ==> (losers.contains(j as usize) <==> #[trigger] displaced_within(ts, j, n + 1)),
{
    // no earlier tween competes with ts[n]
    assert forall|k: int| 0 <= k < n implies !same_target(ts[k], ts[n]) by {
        lemma_group_max(ts, winners, k, n);
        let a = choose|a: int| 0 <= a < winners.len() && same_target(ts[winners[a] as int], ts[k])
            && (winners[a] as int == k || newer(ts, winners[a] as int, k));
        if same_target(ts[k], ts[n]) {
            assert(same_target(ts[winners[a] as int], ts[n]));
        }
    }
    let nw = winners.push(n as usize);
    assert(!losers.contains(n as usize));
    assert forall|j: int| 0 <= j < n + 1 implies #[trigger] displaced_within(ts, j, n + 1) == (j < n && displaced_within(ts, j, n)) by {
        if j == n {
            if displaced_within(ts, j, n + 1) {
                let k = choose|k: int| 0 <= k < n + 1 && k != j && same_target(ts[k], ts[j]) && newer(ts, k, j);
                assert(!same_target(ts[k], ts[n]));
            }
        } else if displaced_within(ts, j, n + 1) && !displaced_within(ts, j, n) {
            let k = choose|k: int| 0 <= k < n + 1 && k != j && same_target(ts[k], ts[j]) && newer(ts, k, j);
            assert(k == n);
            assert(!same_target(ts[j], ts[n]));
        }
    }
    assert forall|j: int| 0 <= j < n + 1 && !#[trigger] displaced_within(ts, j, n + 1) implies nw.contains(j as usize) by {
        if j == n {
            assert(nw[nw.len() - 1] == n as usize);
        } else {
            let a = choose|a: int| 0 <= a < winners.len() && winners[a] == j as usize;
            assert(nw[a] == j as usize);
        }
    }
    assert forall|a: int| 0 <= a < nw.len() implies !displaced_within(ts, nw[a] as int, n + 1) by {
        if a < winners.len() {
            assert(nw[a] == winners[a]);
        }
    }
    assert forall|a: int, b: int| 0 <= a < nw.len() && 0 <= b < nw.len() && a != b
        implies !same_target(ts[nw[a] as int], ts[nw[b] as int]) by {
        if a == winners.len() {
            assert(!same_target(ts[winners[b] as int], ts[n]));
        } else if b == winners.len() {
            assert(!same_target(ts[winners[a] as int], ts[n]));
        } else {
            assert(nw[a] == winners[a] && nw[b] == winners[b]);
        }
    }
}

proof fn lemma_step_displace_winner(ts: Seq<TweenKey>, winners: Seq<usize>, losers: Seq<usize>, n: int, w: int)
    requires
        0 <= n < ts.len(),
        ts.len() <= usize::MAX,
        winners_ok(ts, winners, n),
        forall|j: int| 0 <= j < n ==> (losers.contains(j as usize) <==> displaced_within(ts, j, n)),
        forall|k: int| 0 <= k < losers.len() ==> losers[k] < n,
        losers.no_duplicates(),
        0 <= w < winners.len(),
        same_target(ts[winners[w] as int], ts[n]),
        recency(ts[n]) >= recency(ts[winners[w] as int]),
    ensures
        winners_ok(ts, winners.update(w, n as usize), n + 1),
        forall|j: int| 0 <= j < n + 1 ==> (losers.push(winners[w]).contains(j as usize) <==> #[trigger] displaced_within(ts, j, n + 1)),
        forall|k: int| 0 <= k < losers.push(winners[w]).len() ==> #[trigger] losers.push(winners[w])[k] < n + 1,
        losers.push(winners[w]).no_duplicates(),
{
    let old = winners[w] as int;
    let nw = winners.update(w, n as usize);
    let nl = losers.push(winners[w]);
    assert(newer(ts, n, old));
    // ts[n] is newer than every earlier competitor
    assert forall|k: int| 0 <= k < n && same_target(ts[k], ts[n]) implies newer(ts, n, k) by {
        if k != old {
            assert(!newer(ts, k, old));
        }
    }
    assert forall|j: int| 0 <= j < n + 1 implies (nl.contains(j as usize) <==> #[trigger] displaced_within(ts, j, n + 1)) by {
        if j == n {
            if displaced_within(ts, j, n + 1) {
                let k = choose|k: int| 0 <= k < n + 1 && k != j && same_target(ts[k], ts[j]) && newer(ts, k, j);
                assert(newer(ts, n, k));
            }
            assert(!losers.contains(n as usize));
            assert(nl.contains(j as usize) ==> nl[nl.len() - 1] == j as usize || losers.contains(j as usize));
        } else if j == old {
            assert(nl[nl.len() - 1] == j as usize);
            assert(displaced_within(ts, j, n + 1));
        } else {
            if displaced_within(ts, j, n + 1) && !displaced_within(ts, j, n) {
                assert(same_target(ts[j], ts[n]));
                assert(same_target(ts[j], ts[old]));
                assert(winners.contains(j as usize));
                let a = choose|a: int| 0 <= a < winners.len() && winners[a] == j as usize;
                assert(a != w);
                assert(false);
            }
            if displaced_within(ts, j, n) {
                let k = choose|k: int| 0 <= k < n && k != j && same_target(ts[k], ts[j]) && newer(ts, k, j);
                assert(displaced_within(ts, j, n + 1));
            }
            assert(nl.contains(j as usize) <==> losers.contains(j as usize)) by {
                if nl.contains(j as usize) {
                    let q = choose|q: int| 0 <= q < nl.len() && nl[q] == j as usize;
                    if q < losers.len() {
                        assert(losers[q] == j as usize);
                    }
                }
                if losers.contains(j as usize) {
                    let q = choose|q: int| 0 <= q < losers.len() && losers[q] == j as usize;
                    assert(nl[q] == j as usize);
                }
            }
        }
    }
    assert(!displaced_within(ts, old, n));
    assert(!losers.contains(old as usize));
    assert(nl.no_duplicates()) by {
        assert forall|p: int, q: int| 0 <= p < nl.len() && 0 <= q < nl.len() && p != q implies nl[p] != nl[q] by {
            if p == losers.len() {
                assert(nl[q] == losers[q]);
            } else if q == losers.len() {
                assert(nl[p] == losers[p]);
            }
        }
    }
    assert forall|a: int| 0 <= a < nw.len() implies !displaced_within(ts, nw[a] as int, n + 1) by {
        if a == w {
            if displaced_within(ts, n, n + 1) {
                let k = choose|k: int| 0 <= k < n + 1 && k != n && same_target(ts[k], ts[n]) && newer(ts, k, n);
                assert(newer(ts, n, k));
            }
        } else {
            let x = nw[a] as int;
            assert(x == winners[a] as int);
            if displaced_within(ts, x, n + 1) {
                let k = choose|k: int| 0 <= k < n + 1 && k != x && same_target(ts[k], ts[x]) && newer(ts, k, x);
                assert(k == n);
                assert(same_target(ts[old], ts[x]));
            }
        }
    }
    assert forall|j: int| 0 <= j < n + 1 && !#[trigger] displaced_within(ts, j, n + 1) implies nw.contains(j as usize) by {
        if j == n {
            assert(nw[w] == n as usize);
        } else {
            assert(!displaced_within(ts, j, n));
            let a = choose|a: int| 0 <= a < winners.len() && winners[a] == j as usize;
            if a == w {
                assert(displaced_within(ts, j, n + 1));
            }
            assert(nw[a] == j as usize);
        }
    }
    assert forall|a: int, b: int| 0 <= a < nw.len() && 0 <= b < nw.len() && a != b
        implies !same_target(ts[nw[a] as int], ts[nw[b] as int]) by {
        if a == w {
            assert(!same_target(ts[winners[a] as int], ts[winners[b] as int]));
        } else if b == w {
            assert(!same_target(ts[winners[a] as int], ts[winners[b] as int]));
        } else {
            assert(!same_target(ts[winners[a] as int], ts[winners[b] as int]));
        }
    }
}

proof fn lemma_step_newcomer_loses(ts: Seq<TweenKey>, winners: Seq<usize>, losers: Seq<usize>, n: int, w: int)
    requires
        0 <= n < ts.len(),
        ts.len() <= usize::MAX,
        winners_ok(ts, winners, n),
        forall|j: int| 0 <= j < n ==> (losers.contains(j as usize) <==> displaced_within(ts, j, n)),
        forall|k: int| 0 <= k < losers.len() ==> losers[k] < n,
        losers.no_duplicates(),
        0 <= w < winners.len(),
        same_target(ts[winners[w] as int], ts[n]),
        recency(ts[n]) < recency(ts[winners[w] as int]),
    ensures
        winners_ok(ts, winners, n + 1),
        forall|j: int| 0 <= j < n + 1 ==> (losers.push(n as usize).contains(j as usize) <==> #[trigger] displaced_within(ts, j, n + 1)),
        forall|k: int| 0 <= k < losers.push(n as usize).len() ==> #[trigger] losers.push(n as usize)[k] < n + 1,
        losers.push(n as usize).no_duplicates(),
{
    let old = winners[w] as int;
    let nl = losers.push(n as usize);
    assert(newer(ts, old, n));
    assert forall|j: int| 0 <= j < n + 1 implies (nl.contains(j as usize) <==> #[trigger] displaced_within(ts, j, n + 1)) by {
        if j == n {
            assert(nl[nl.len() - 1] == j as usize);
            assert(displaced_within(ts, j, n + 1));
        } else {
            if displaced_within(ts, j, n + 1) && !displaced_within(ts, j, n) {
                let k = choose|k: int| 0 <= k < n + 1 && k != j && same_target(ts[k], ts[j]) && newer(ts, k, j);
                assert(k == n);
                assert(same_target(ts[old], ts[j]));
                if j != old {
                    assert(!newer(ts, j, old));
                }
                assert(false);
            }
            if displaced_within(ts, j, n) {
                let k = choose|k: int| 0 <= k < n && k != j && same_target(ts[k], ts[j]) && newer(ts, k, j);
                assert(displaced_within(ts, j, n + 1));
            }
            assert(nl.contains(j as usize) <==> losers.contains(j as usize)) by {
                if nl.contains(j as usize) {
                    let q = choose|q: int| 0 <= q < nl.len() && nl[q] == j as usize;
                    if q < losers.len() {
                        assert(losers[q] == j as usize);
                    }
                }
                if losers.contains(j as usize) {
                    let q = choose|q: int| 0 <= q < losers.len() && losers[q] == j as usize;
                    assert(nl[q] == j as usize);
                }
            }
        }
    }
    assert(nl.no_duplicates()) by {
        assert forall|p: int, q: int| 0 <= p < nl.len() && 0 <= q < nl.len() && p != q implies nl[p] != nl[q] by {
            if p == losers.len() {
                assert(nl[q] == losers[q]);
            } else if q == losers.len() {
                assert(nl[p] == losers[p]);
            }
        }
    }
    assert forall|a: int| 0 <= a < winners.len() implies !displaced_within(ts, winners[a] as int, n + 1) by {
        let x = winners[a] as int;
        if displaced_within(ts, x, n + 1) {
            let k = choose|k: int| 0 <= k < n + 1 && k != x && same_target(ts[k], ts[x]) && newer(ts, k, x);
            assert(k == n);
            if a != w {
                assert(same_target(ts[old], ts[x]));
            }
        }
    }
    assert forall|j: int| 0 <= j < n + 1 && !#[trigger] displaced_within(ts, j, n + 1) implies winners.contains(j as usize) by {
        if j == n {
            assert(displaced_within(ts, n, n + 1));
        } else {
            if displaced_within(ts, j, n) {
                let k = choose|k: int| 0 <= k < n && k != j && same_target(ts[k], ts[j]) && newer(ts, k, j);
                assert(displaced_within(ts, j, n + 1));
            }
        }
    }
}

/// The refusal of a tween whose `duration` is below one tick.
pub open spec fn short_duration_reason(duration: int) -> Seq<char> {
    "duration 必须 ≥ 1（tick），拿到 "@ + int_text(duration)
}

/// The refusal of a tween whose `start` is ahead of the current tick.
pub open spec fn early_start_reason(start: int, tick: nat) -> Seq<char> {
    "start（"@ + int_text(start) + "）超前当前 tick（"@ + decimal(tick)
        + "）。start 由引擎在补间起跑时盖章，不要手填——留 -1 即可"@
}

/// A tween's `duration` on `tick` (entity `entity`): at least one tick, else the tween's data
/// is refused.
pub fn check_tween_duration(tick: u64, entity: &str, duration: i64) -> (r: Result<u64, SimError>)
    ensures
        duration >= 1 ==> r == Ok::<u64, SimError>(duration as u64),
        duration < 1 ==> (r matches Err(SimError::BadComponent { tick: t, entity: e, component, reason })
            && t == tick && e@ == entity@ && component@ == "Tween"@
            && reason@ == short_duration_reason(duration as int)),
{
    if duration < 1 {
        let mut m = String::from_str("duration 必须 ≥ 1（tick），拿到 ");
        push_i64(&mut m, duration);
        return Err(SimError::BadComponent {
            tick,
            entity: String::from_str(entity),
            component: String::from_str("Tween"),
            reason: m,
        });
    }
    Ok(duration as u64)
}

/// A tween's `start` on `tick` (entity `entity`; negative = not started yet): a start stamped
/// ahead of the current tick (compared as `i64`) is refused. When it passes, the start is not
/// after the tick, as [`tween_phase`] requires.
pub fn check_tween_start(tick: u64, entity: &str, start: i64) -> (r: Result<(), SimError>)
    ensures
        r is Ok <==> start <= tick as i64,
        r is Ok ==> start <= tick,
        r is Err ==> (r matches Err(SimError::BadComponent { tick: t, entity: e, component, reason })
            && t == tick && e@ == entity@ && component@ == "Tween"@
            && reason@ == early_start_reason(start as int, tick as nat)),
{
    let now = tick as i64;
    if start > now {
        let mut m = String::from_str("start（");
        push_i64(&mut m, start);
        push_str(&mut m, "）超前当前 tick（");
        push_decimal(&mut m, tick);
        push_str(&mut m, "）。start 由引擎在补间起跑时盖章，不要手填——留 -1 即可");
        return Err(SimError::BadComponent {
            tick,
            entity: String::from_str(entity),
            component: String::from_str("Tween"),
            reason: m,
        });
    }
    assert(start <= (tick as i64) ==> start <= tick) by (bit_vector);
    Ok(())
}

/// Where one tween stands on the current tick.
#[derive(Debug, Clone, Copy, PartialEq, Eq, Structural)]
pub enum TweenPhase {
    /// Still in flight: `elapsed` ticks since its start (0 ..< duration); the value is the
    /// curve at `elapsed / duration`.
    Running { elapsed: u64 },
    /// Reached its duration: the field gets exactly the final value, a finish event is
    /// emitted and the tween is removed.
    Finished,
}

/// The phase of a tween with the given `start` (negative = not started) and `duration` on
/// `tick`, and whether its start has to be stamped now (its first processed tick).
pub fn tween_phase(tick: u64, start: i64, duration: u64) -> (r: (TweenPhase, bool))
    requires
        start <= tick,
    ensures
        r.1 == (start < 0),
        ({
            let s: int = if start < 0 { tick as int } else { start as int };
            let elapsed = tick - s;
            if elapsed >= duration {
                r.0 == TweenPhase::Finished
            } else {
                r.0 == (TweenPhase::Running { elapsed: elapsed as u64 })
            }
        }),
{
    let stamp = start < 0;
    let s: u64 = if stamp { tick } else { start as u64 };
    let elapsed = tick - s;
    if elapsed >= duration {
        (TweenPhase::Finished, stamp)
    } else {
        (TweenPhase::Running { elapsed }, stamp)
    }
}

} // verus!
