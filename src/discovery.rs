//! Decisions of device discovery. The caller enumerates ports, runs the
//! probes and reports each outcome; these state machines say which port to
//! probe next, which probe wins, and when the device is not there.
use vstd::prelude::*;
use crate::order::{is_index_permutation, name_lt, scan_order};

verus! {

/// What a sequential scan asks of its caller.
#[derive(Debug, PartialEq, Eq)]
pub enum ScanStep {
    /// Probe this port next.
    Probe(String),
    /// The device is on this port: stop.
    Found(String),
    /// Every candidate was rejected.
    NotFound,
}

/// Whether `step` is what a scan over `candidates` owes at position `next`.
pub open spec fn scan_step_at(candidates: Seq<Seq<char>>, next: nat, step: ScanStep) -> bool {
    if next < candidates.len() {
        step matches ScanStep::Probe(s) && s@ == candidates[next as int]
    } else {
        step == ScanStep::NotFound
    }
}

/// `candidates` is `names` in scan order: each name once, descending.
pub open spec fn is_scan_order(names: Seq<String>, candidates: Seq<Seq<char>>) -> bool {
    &&& candidates.len() == names.len()
    &&& exists|order: Seq<usize>|
        #[trigger] is_index_permutation(order, names.len()) && forall|k: int|
            0 <= k < names.len() ==> #[trigger] candidates[k] == names[order[k] as int]@
    &&& forall|k: int|
        0 <= k && k + 1 < candidates.len() ==> !name_lt(#[trigger] candidates[k], candidates[k + 1])
}

/// A sequential scan: probes candidates one at a time, in descending order
/// of their names, and stops at the first that holds the device.
pub struct Scan {
    candidates: Vec<String>,
    next: usize,
}

impl Scan {
    /// The candidates in the order they are probed.
    pub closed spec fn candidates(&self) -> Seq<Seq<char>> {
        self.candidates@.map_values(|s: String| s@)
    }

    /// Position of the candidate probed now.
    pub closed spec fn next(&self) -> nat {
        self.next as nat
    }

    /// A scan over the enumerated port names.
    pub fn new(names: &Vec<String>) -> (r: Scan)
        ensures
            is_scan_order(names@, r.candidates()),
            r.next() == 0,
    {
        let order = scan_order(names);
        let mut candidates: Vec<String> = Vec::new();
        let mut k: usize = 0;
        while k < order.len()
            invariant
                k <= order@.len(),
                is_index_permutation(order@, names@.len()),
                candidates@.len() == k,
                forall|l: int| 0 <= l < k ==> candidates@[l]@ == names@[order@[l] as int]@,
            decreases order@.len() - k,
        {
            candidates.push(names[order[k]].clone());
            k = k + 1;
        }
        let r = Scan { candidates, next: 0 };
        let ghost c = r.candidates();
        assert forall|l: int| 0 <= l < names@.len() implies #[trigger] c[l]
            == names@[order@[l] as int]@ by {}
        assert forall|l: int| 0 <= l && l + 1 < c.len() implies !name_lt(
            #[trigger] c[l],
            c[l + 1],
        ) by {
            assert(c[l] == names@[order@[l] as int]@);
            assert(c[l + 1] == names@[order@[l + 1] as int]@);
        }
        r
    }

    /// What to do now: probe the current candidate, or give up.
    pub fn current(&self) -> (r: ScanStep)
        ensures
            scan_step_at(self.candidates(), self.next(), r),
    {
        if self.next < self.candidates.len() {
            ScanStep::Probe(self.candidates[self.next].clone())
        } else {
            ScanStep::NotFound
        }
    }

    /// Takes the outcome of probing the current candidate: a match ends the
    /// scan on it, a rejection moves on to the next.
    pub fn on_probe_result(&mut self, matched: bool) -> (r: ScanStep)
        ensures
            final(self).candidates() == old(self).candidates(),
            old(self).next() >= old(self).candidates().len() ==> r == ScanStep::NotFound
                && final(self).next() == old(self).next(),
            old(self).next() < old(self).candidates().len() && matched ==> (r matches ScanStep::Found(
                s,
            ) && s@ == old(self).candidates()[old(self).next() as int]) && final(self).next()
                == old(self).next(),
            old(self).next() < old(self).candidates().len() && !matched ==> final(self).next()
                == old(self).next() + 1 && scan_step_at(
                final(self).candidates(),
                final(self).next(),
                r,
            ),
    {
        if self.next >= self.candidates.len() {
            return ScanStep::NotFound;
        }
        if matched {
            return ScanStep::Found(self.candidates[self.next].clone());
        }
        self.next = self.next + 1;
        self.current()
    }
}

/// What a concurrent race tells its caller after a probe completes.
#[derive(Clone, Copy, Debug, PartialEq, Eq, Structural)]
pub enum RaceStep {
    /// No decision yet: wait for the next probe to complete.
    Pending,
    /// This candidate holds the device: cancel every probe still running.
    Won(usize),
    /// Every probe was rejected: the device is not found.
    Exhausted,
    /// The race was already decided or this report is not new: close the
    /// port it opened, if any, and ignore it.
    Discard,
}

/// Every candidate has reported.
pub open spec fn all_reported(reported: Seq<bool>) -> bool {
    forall|i: int| 0 <= i < reported.len() ==> reported[i]
}

/// One report of the race: which candidates have reported, the winner, and
/// the step owed, after candidate `idx` completes with `matched`.
pub open spec fn race_step(reported: Seq<bool>, winner: Option<usize>, idx: usize, matched: bool) -> (
    Seq<bool>,
    Option<usize>,
    RaceStep,
) {
    if winner is Some || idx >= reported.len() || reported[idx as int] {
        (reported, winner, RaceStep::Discard)
    } else {
        let now = reported.update(idx as int, true);
        if matched {
            (now, Some(idx), RaceStep::Won(idx))
        } else if all_reported(now) {
            (now, None, RaceStep::Exhausted)
        } else {
            (now, None, RaceStep::Pending)
        }
    }
}

/// The steps a race owes for a run of completions, each a candidate and
/// whether its probe matched.
pub open spec fn race_steps(
    reported: Seq<bool>,
    winner: Option<usize>,
    events: Seq<(usize, bool)>,
) -> Seq<RaceStep>
    decreases events.len(),
{
    if events.len() == 0 {
        Seq::empty()
    } else {
        let (now, w, step) = race_step(reported, winner, events[0].0, events[0].1);
        seq![step] + race_steps(now, w, events.drop_first())
    }
}

/// A concurrent race among probes of `n` candidates, fed with completions in
/// the order they happen.
pub struct Race {
    reported: Vec<bool>,
    winner: Option<usize>,
}

impl Race {
    /// Which candidates have reported.
    pub closed spec fn reported(&self) -> Seq<bool> {
        self.reported@
    }

    /// The candidate that won, once one has.
    pub closed spec fn winner(&self) -> Option<usize> {
        self.winner
    }

    /// A race among `n` candidates, none reported yet.
    pub fn new(n: usize) -> (r: Race)
        ensures
            r.reported() == Seq::new(n as nat, |i: int| false),
            r.winner() == None::<usize>,
    {
        let mut reported: Vec<bool> = Vec::new();
        let mut i: usize = 0;
        while i < n
            invariant
                i <= n,
                reported@ == Seq::new(i as nat, |j: int| false),
            decreases n - i,
        {
            reported.push(false);
            i = i + 1;
            assert(reported@ =~= Seq::new(i as nat, |j: int| false));
        }
        Race { reported, winner: None }
    }

    /// Whether the race is over without a winner: every candidate was
    /// rejected (at once when there is none).
    pub fn is_exhausted(&self) -> (r: bool)
        ensures
            r == (self.winner() is None && all_reported(self.reported())),
    {
        if self.winner.is_some() {
            return false;
        }
        let mut i: usize = 0;
        while i < self.reported.len()
            invariant
                i <= self.reported@.len(),
                forall|j: int| 0 <= j < i ==> self.reported@[j],
            decreases self.reported@.len() - i,
        {
            if !self.reported[i] {
                return false;
            }
            i = i + 1;
        }
        true
    }

    /// Takes the completion of candidate `idx`'s probe.
    pub fn on_probe_done(&mut self, idx: usize, matched: bool) -> (r: RaceStep)
        ensures
            (final(self).reported(), final(self).winner(), r) == race_step(
                old(self).reported(),
                old(self).winner(),
                idx,
                matched,
            ),
    {
        if self.winner.is_some() || idx >= self.reported.len() || self.reported[idx] {
            return RaceStep::Discard;
        }
        self.reported.set(idx, true);
        if matched {
            self.winner = Some(idx);
            return RaceStep::Won(idx);
        }
        if self.is_exhausted() {
            RaceStep::Exhausted
        } else {
            RaceStep::Pending
        }
    }

    /// The candidates whose probes have not reported: the ones to cancel
    /// once the race is won, in increasing order.
    pub fn unreported(&self) -> (r: Vec<usize>)
        ensures
            forall|k: int| 0 <= k < r@.len() ==> r@[k] < self.reported().len() && !self.reported()[r@[k] as int],
            forall|i: int| 0 <= i < self.reported().len() && !self.reported()[i] ==> r@.contains(i as usize),
            forall|k: int, l: int| 0 <= k < l < r@.len() ==> r@[k] < r@[l],
    {
        let mut r: Vec<usize> = Vec::new();
        let mut i: usize = 0;
        while i < self.reported.len()
            invariant
                i <= self.reported@.len(),
                forall|k: int| 0 <= k < r@.len() ==> r@[k] < i && !self.reported@[r@[k] as int],
                forall|j: int| 0 <= j < i && !self.reported@[j] ==> r@.contains(j as usize),
                forall|k: int, l: int| 0 <= k < l < r@.len() ==> r@[k] < r@[l],
            decreases self.reported@.len() - i,
        {
            let ghost prev = r@;
            if !self.reported[i] {
                r.push(i);
                assert(r@[r@.len() - 1] == i);
            }
            assert forall|j: int| 0 <= j <= i && !self.reported@[j] implies r@.contains(
                j as usize,
            ) by {
                if j < i {
                    let k = choose|k: int| 0 <= k < prev.len() && prev[k] == j as usize;
                    assert(r@[k] == prev[k]);
                } else {
                    assert(r@[r@.len() - 1] == i);
                }
            }
            i = i + 1;
        }
        r
    }
}

/// Completions of probes among `n` candidates, each candidate at most once.
pub open spec fn distinct_completions(events: Seq<(usize, bool)>, n: nat) -> bool {
    &&& forall|q: int| 0 <= q < events.len() ==> #[trigger] events[q].0 < n
    &&& forall|q: int, r: int| 0 <= q < r < events.len() ==> events[q].0 != events[r].0
}

/// Candidate `i` is among the completions.
pub open spec fn completed(events: Seq<(usize, bool)>, i: int) -> bool {
    exists|q: int| 0 <= q < events.len() && events[q].0 == i
}

/// Completions of the probes of all `n` candidates, each exactly once.
pub open spec fn all_completions(events: Seq<(usize, bool)>, n: nat) -> bool {
    &&& distinct_completions(events, n)
    &&& forall|i: int| 0 <= i < n ==> #[trigger] completed(events, i)
}

/// Once a race is won, every later completion is discarded.
proof fn lemma_won_race_discards(reported: Seq<bool>, w: usize, events: Seq<(usize, bool)>)
    ensures
        race_steps(reported, Some(w), events).len() == events.len(),
        forall|q: int|
            0 <= q < events.len() ==> #[trigger] race_steps(reported, Some(w), events)[q]
                == RaceStep::Discard,
    decreases events.len(),
{
    if events.len() > 0 {
        lemma_won_race_discards(reported, w, events.drop_first());
        let steps = race_steps(reported, Some(w), events);
        let tail = race_steps(reported, Some(w), events.drop_first());
        assert forall|q: int| 0 <= q < events.len() implies #[trigger] steps[q]
            == RaceStep::Discard by {
            if q > 0 {
                assert(steps[q] == tail[q - 1]);
            }
        }
    }
}

proof fn lemma_race_one_match(reported: Seq<bool>, events: Seq<(usize, bool)>, p: int)
    requires
        distinct_completions(events, reported.len()),
        forall|q: int| 0 <= q < events.len() ==> !reported[#[trigger] events[q].0 as int],
        0 <= p < events.len(),
        forall|q: int| 0 <= q < events.len() ==> (#[trigger] events[q].1 <==> q == p),
    ensures
        ({
            let steps = race_steps(reported, None, events);
            &&& steps.len() == events.len()
            &&& steps[p] == RaceStep::Won(events[p].0)
            &&& forall|q: int| 0 <= q < p ==> #[trigger] steps[q] == RaceStep::Pending
            &&& forall|q: int| p < q < events.len() ==> #[trigger] steps[q] == RaceStep::Discard
        }),
    decreases events.len(),
{
    let steps = race_steps(reported, None, events);
    let idx = events[0].0;
    let now = reported.update(idx as int, true);
    let rest = events.drop_first();
    assert(events[0].0 < reported.len());
    if p == 0 {
        lemma_won_race_discards(now, idx, rest);
        let tail = race_steps(now, Some(idx), rest);
        assert forall|q: int| p < q < events.len() implies #[trigger] steps[q]
            == RaceStep::Discard by {
            assert(steps[q] == tail[q - 1]);
        }
    } else {
        assert(!events[0].1);
        assert(events[p].0 < reported.len());
        assert(!now[events[p].0 as int]);
        assert(!all_reported(now));
        assert forall|q: int| 0 <= q < rest.len() implies !now[#[trigger] rest[q].0 as int] by {
            assert(rest[q] == events[q + 1]);
            assert(events[q + 1].0 < reported.len());
        }
        assert forall|q: int| 0 <= q < rest.len() implies (#[trigger] rest[q].1 <==> q == p - 1) by {
            assert(rest[q] == events[q + 1]);
        }
        assert forall|q: int| 0 <= q < rest.len() implies #[trigger] rest[q].0 < now.len() by {
            assert(rest[q] == events[q + 1]);
        }
        lemma_race_one_match(now, rest, p - 1);
        let tail = race_steps(now, None, rest);
        assert forall|q: int| 0 < q < events.len() implies #[trigger] steps[q] == tail[q - 1] by {}
    }
}

/// Whatever the order in which probes complete, when exactly one of them
/// matches, the race reports no decision before it, declares that candidate
/// the winner, and discards every completion after it.
pub proof fn lemma_race_single_winner(n: usize, events: Seq<(usize, bool)>, p: int)
    requires
        distinct_completions(events, n as nat),
        0 <= p < events.len(),
        forall|q: int| 0 <= q < events.len() ==> (#[trigger] events[q].1 <==> q == p),
    ensures
        ({
            let steps = race_steps(Seq::new(n as nat, |i: int| false), None, events);
            &&& steps.len() == events.len()
            &&& steps[p] == RaceStep::Won(events[p].0)
            &&& forall|q: int| 0 <= q < p ==> #[trigger] steps[q] == RaceStep::Pending
            &&& forall|q: int| p < q < events.len() ==> #[trigger] steps[q] == RaceStep::Discard
        }),
{
    let reported = Seq::new(n as nat, |i: int| false);
    assert forall|q: int| 0 <= q < events.len() implies !reported[#[trigger] events[q].0 as int] by {
        assert(events[q].0 < n);
    }
    lemma_race_one_match(reported, events, p);
}

proof fn lemma_race_no_match(reported: Seq<bool>, events: Seq<(usize, bool)>)
    requires
        events.len() > 0,
        distinct_completions(events, reported.len()),
        forall|q: int| 0 <= q < events.len() ==> !(#[trigger] events[q].1),
        forall|i: int| 0 <= i < reported.len() ==> (!reported[i] <==> #[trigger] completed(events, i)),
    ensures
        ({
            let steps = race_steps(reported, None, events);
            &&& steps.len() == events.len()
            &&& forall|q: int| 0 <= q < events.len() - 1 ==> #[trigger] steps[q] == RaceStep::Pending
            &&& steps[events.len() - 1] == RaceStep::Exhausted
        }),
    decreases events.len(),
{
    let steps = race_steps(reported, None, events);
    let idx = events[0].0;
    let now = reported.update(idx as int, true);
    let rest = events.drop_first();
    assert(events[0].0 < reported.len());
    assert(!events[0].1);
    assert(completed(events, idx as int));
    assert(!reported[idx as int]);
    if events.len() == 1 {
        assert forall|i: int| 0 <= i < now.len() implies now[i] by {
            if i != idx && !reported[i] {
                assert(completed(events, i));
                let q = choose|q: int| 0 <= q < events.len() && events[q].0 == i;
                assert(events[q].0 == i);
                assert(q == 0);
                assert(false);
            }
        }
        assert(all_reported(now));
        assert(race_steps(now, None, rest).len() == 0);
        assert(steps[0] == RaceStep::Exhausted);
    } else {
        assert(events[1].0 < reported.len());
        assert(events[0].0 != events[1].0);
        assert(completed(events, events[1].0 as int));
        assert(!reported[events[1].0 as int]);
        assert(!now[events[1].0 as int]);
        assert(!all_reported(now));
        assert forall|q: int| 0 <= q < rest.len() implies #[trigger] rest[q].0 < now.len() by {
            assert(rest[q] == events[q + 1]);
        }
        assert forall|q: int| 0 <= q < rest.len() implies !(#[trigger] rest[q].1) by {
            assert(rest[q] == events[q + 1]);
        }
        assert forall|i: int| 0 <= i < now.len() implies (!now[i] <==> #[trigger] completed(rest, i)) by {
            if !now[i] {
                assert(i != idx);
                assert(completed(events, i));
                let q = choose|q: int| 0 <= q < events.len() && events[q].0 == i;
                assert(events[q].0 == i);
                assert(q != 0);
                assert(rest[q - 1] == events[q]);
                assert(completed(rest, i));
            }
            if completed(rest, i) {
                let q = choose|q: int| 0 <= q < rest.len() && rest[q].0 == i;
                assert(rest[q] == events[q + 1]);
                assert(events[0].0 != events[q + 1].0);
                assert(completed(events, i));
                assert(!now[i]);
            }
        }
        lemma_race_no_match(now, rest);
        let tail = race_steps(now, None, rest);
        assert(steps[0] == RaceStep::Pending);
        assert forall|q: int| 0 < q < events.len() implies #[trigger] steps[q] == tail[q - 1] by {}
        assert(steps[events.len() - 1] == tail[rest.len() - 1]);
    }
}

/// When the probes of all candidates complete and none matches, the race
/// reports no decision until the last completion, which exhausts it.
pub proof fn lemma_race_exhaustion(n: usize, events: Seq<(usize, bool)>)
    requires
        n > 0,
        all_completions(events, n as nat),
        forall|q: int| 0 <= q < events.len() ==> !(#[trigger] events[q].1),
    ensures
        ({
            let steps = race_steps(Seq::new(n as nat, |i: int| false), None, events);
            &&& events.len() > 0
            &&& steps.len() == events.len()
            &&& forall|q: int| 0 <= q < events.len() - 1 ==> #[trigger] steps[q] == RaceStep::Pending
            &&& steps[events.len() - 1] == RaceStep::Exhausted
        }),
{
    let reported = Seq::new(n as nat, |i: int| false);
    assert(completed(events, 0));
    lemma_race_no_match(reported, events);
}

} // verus!
