use vstd::prelude::*;
use crate::key::{animal_name_of, Key};
use crate::network::Network;
use crate::pattern::{regex_finds_match, NameMatcher};

verus! {

/// What a worker does after testing one key.
#[derive(Clone, Copy, Debug, PartialEq, Eq, Structural)]
pub enum WorkerStep {
    /// The key matched first: hand it to the coordinator and stop.
    Report,
    /// Another worker already reported: stop without a result.
    Stop,
    /// The key did not match and was counted: generate the next one.
    Continue,
}

/// Why a search could not start.
#[derive(Clone, Copy, Debug, PartialEq, Eq, Structural)]
pub enum SearchError {
    /// A search needs at least one worker.
    NoWorkers,
}

/// The state that all workers of one search share: how many keys were examined and
/// rejected, and whether a worker has reported a match. It is kept behind a lock and
/// every worker records each key it tests.
pub struct SearchTally {
    examined: u64,
    found: bool,
}

impl View for SearchTally {
    /// The count of rejected keys and the cancellation flag.
    type V = (nat, bool);

    closed spec fn view(&self) -> (nat, bool) {
        (self.examined as nat, self.found)
    }
}

/// The tally after one key was tested: a match sets the flag (setting it again changes
/// nothing) and is never counted; a miss is counted only while the flag is clear.
pub open spec fn tally_step(t: (nat, bool), matched: bool) -> (nat, bool) {
    if matched {
        (t.0, true)
    } else if t.1 {
        t
    } else {
        (t.0 + 1, false)
    }
}

/// What the worker that tested the key does next: the match test comes first, so a
/// matching key is always reported; a worker whose key missed stops once the flag is set.
pub open spec fn step_action(t: (nat, bool), matched: bool) -> WorkerStep {
    if matched {
        WorkerStep::Report
    } else if t.1 {
        WorkerStep::Stop
    } else {
        WorkerStep::Continue
    }
}

impl SearchTally {
    /// The tally of a search that has not started: nothing examined, no match.
    pub fn new() -> (r: SearchTally)
        ensures
            r@ == (0nat, false),
    {
        SearchTally { examined: 0, found: false }
    }

    /// Records the outcome of testing one key and says what its worker does next.
    /// A matching key is reported and never counted; the flag, once set, stays set.
    pub fn record(&mut self, matched: bool) -> (r: WorkerStep)
        requires
            old(self)@.0 < u64::MAX,
        ensures
            final(self)@ == tally_step(old(self)@, matched),
            r == step_action(old(self)@, matched),
            matched ==> r == WorkerStep::Report,
            old(self)@.1 ==> final(self)@.1,
    {
        if matched {
            self.found = true;
            WorkerStep::Report
        } else if self.found {
            WorkerStep::Stop
        } else {
            self.examined = self.examined + 1;
            WorkerStep::Continue
        }
    }

    /// The number of keys examined and rejected so far.
    pub fn examined(&self) -> (r: u64)
        ensures
            r as nat == self@.0,
    {
        self.examined
    }

    /// Whether a worker has reported a match.
    pub fn is_found(&self) -> (r: bool)
        ensures
            r == self@.1,
    {
        self.found
    }
}

/// Generates one key for `network` and tests its name against `matcher`.
pub fn examine(network: Network, matcher: &NameMatcher) -> (r: (Key, bool))
    ensures
        r.0.name@ == animal_name_of(r.0.address@),
        r.1 == regex_finds_match(matcher@, r.0.name@),
{
    let key = Key::generate(network);
    let matched = matcher.matches(key.name.as_str());
    (key, matched)
}

/// The number of workers a search runs: the requested count, else the number of
/// available cores. A count of zero is refused, since no result could ever arrive.
pub fn worker_count(requested: Option<u64>, available: u64) -> (r: Result<u64, SearchError>)
    ensures
        ({
            let n = match requested {
                Some(c) => c,
                None => available,
            };
            if n == 0 {
                r == Err::<u64, SearchError>(SearchError::NoWorkers)
            } else {
                r == Ok::<u64, SearchError>(n)
            }
        }),
{
    let n = match requested {
        Some(c) => c,
        None => available,
    };
    if n == 0 {
        Err(SearchError::NoWorkers)
    } else {
        Ok(n)
    }
}

/// The whole keys per second over a period; `None` for an empty period.
pub fn keys_per_second(keys: u64, seconds: u64) -> (r: Option<u64>)
    ensures
        seconds == 0 ==> r is None,
        seconds > 0 ==> r == Some((keys / seconds) as u64),
{
    if seconds == 0 {
        None
    } else {
        Some(keys / seconds)
    }
}

/// The tally after the keys tested in a search were recorded in the order `events`
/// (`true` where the key matched), starting from a fresh tally.
pub open spec fn replay(events: Seq<bool>) -> (nat, bool)
    decreases events.len(),
{
    if events.len() == 0 {
        (0, false)
    } else {
        tally_step(replay(events.drop_last()), events.last())
    }
}

/// The result the coordinator takes: the position in `events` of the first record that
/// handed a key to it. Later reports find the coordinator gone and are dropped.
pub open spec fn first_report(events: Seq<bool>) -> Option<nat>
    decreases events.len(),
{
    if events.len() == 0 {
        None
    } else if first_report(events.drop_last()) is Some {
        first_report(events.drop_last())
    } else if step_action(replay(events.drop_last()), events.last()) == WorkerStep::Report {
        Some((events.len() - 1) as nat)
    } else {
        None
    }
}

/// The number of keys tested before the first one that matched (all of them if none did).
pub open spec fn misses_before_match(events: Seq<bool>) -> nat
    decreases events.len(),
{
    if events.len() == 0 {
        0
    } else if events[0] {
        0
    } else {
        1 + misses_before_match(events.subrange(1, events.len() as int))
    }
}

proof fn lemma_replay_facts(events: Seq<bool>)
    ensures
        replay(events).1 == events.contains(true),
        first_report(events) == if events.contains(true) {
            Some(misses_before_match(events))
        } else {
            None::<nat>
        },
        !events.contains(true) ==> replay(events).0 == events.len(),
        events.contains(true) ==> replay(events).0 == misses_before_match(events),
        !events.contains(true) ==> misses_before_match(events) == events.len(),
    decreases events.len(),
{
    if events.len() > 0 {
        let init = events.drop_last();
        lemma_replay_facts(init);
        lemma_misses_extend(events);
        if init.contains(true) {
            let i = choose|i: int| 0 <= i < init.len() && init[i] == true;
            assert(events[i] == true);
        }
        if events.contains(true) && !init.contains(true) {
            assert(events.last() == true) by {
                let i = choose|i: int| 0 <= i < events.len() && events[i] == true;
                if i < init.len() {
                    assert(init[i] == true);
                }
            }
        }
        if !events.contains(true) {
            assert(!init.contains(true)) by {
                if init.contains(true) {
                    let i = choose|i: int| 0 <= i < init.len() && init[i] == true;
                    assert(events[i] == true);
                }
            }
            assert(events[events.len() - 1] == false);
        }
    }
}

/// Counting misses from the front agrees with extending a sequence at the back.
proof fn lemma_misses_extend(events: Seq<bool>)
    requires
        events.len() > 0,
    ensures
        events.drop_last().contains(true) ==> misses_before_match(events) == misses_before_match(
            events.drop_last(),
        ),
        !events.drop_last().contains(true) ==> misses_before_match(events)
            == (events.len() - 1) + (if events.last() { 0int } else { 1int }),
    decreases events.len(),
{
    let init = events.drop_last();
    if events.len() == 1 {
        assert(!init.contains(true));
        assert(events.subrange(1, events.len() as int).len() == 0);
        assert(events[0] == events.last());
        if !events[0] {
            assert(misses_before_match(events) == 1 + misses_before_match(events.subrange(1, 1)));
        }
    } else {
        let tail = events.subrange(1, events.len() as int);
        lemma_misses_extend(tail);
        assert(tail.drop_last() =~= init.subrange(1, init.len() as int));
        assert(tail.last() == events.last());
        if events[0] {
            assert(init[0] == true);
        } else {
            assert(init[0] == false);
            if init.contains(true) {
                let i = choose|i: int| 0 <= i < init.len() && init[i] == true;
                assert(tail.drop_last()[i - 1] == true);
            } else {
                assert(!tail.drop_last().contains(true)) by {
                    if tail.drop_last().contains(true) {
                        let i = choose|i: int| 0 <= i < tail.drop_last().len() && tail.drop_last()[i] == true;
                        assert(init[i + 1] == true);
                    }
                }
            }
        }
    }
}

/// Whatever the order in which workers record their keys, the final count of examined
/// keys is the number of keys that were rejected before the first match: every
/// non-matching key tested before the match is counted once, the matching key never.
pub proof fn lemma_count_is_misses(events: Seq<bool>)
    ensures
        replay(events).0 == misses_before_match(events),
{
    lemma_replay_facts(events);
}

/// Cancellation is observed: the coordinator gets exactly one result once any key has
/// matched, namely the first matching key recorded; from then on the flag stays set, and
/// every worker whose key misses stops instead of generating another.
pub proof fn lemma_single_result(events: Seq<bool>)
    ensures
        first_report(events) is Some <==> events.contains(true),
        first_report(events) is Some ==> ({
            let i = first_report(events).unwrap() as int;
            &&& i < events.len()
            &&& events[i]
            &&& forall|j: int| 0 <= j < i ==> !events[j]
        }),
        replay(events).1 == events.contains(true),
        forall|j: int|
            0 <= j < events.len() && first_report(events) is Some && first_report(events).unwrap() < j
                && !events[j]
                ==> step_action(#[trigger] replay(events.subrange(0, j)), false) == WorkerStep::Stop,
{
    lemma_replay_facts(events);
    if events.contains(true) {
        lemma_misses_first_match(events);
        let i = misses_before_match(events);
        assert forall|j: int|
            0 <= j < events.len() && first_report(events) is Some && first_report(events).unwrap() < j
                && !events[j]
                implies step_action(#[trigger] replay(events.subrange(0, j)), false)
                == WorkerStep::Stop by {
            let pre = events.subrange(0, j);
            lemma_replay_facts(pre);
            assert(pre[i as int] == events[i as int]);
        }
    }
}

/// The count of misses before the first match is the position of that match.
proof fn lemma_misses_first_match(events: Seq<bool>)
    requires
        events.contains(true),
    ensures
        misses_before_match(events) < events.len(),
        events[misses_before_match(events) as int],
        forall|j: int| 0 <= j < misses_before_match(events) ==> !events[j],
    decreases events.len(),
{
    if !events[0] {
        let tail = events.subrange(1, events.len() as int);
        let k = choose|k: int| 0 <= k < events.len() && events[k] == true;
        assert(tail[k - 1] == true);
        lemma_misses_first_match(tail);
        assert forall|j: int| 0 <= j < misses_before_match(events) implies !events[j] by {
            if j > 0 {
                assert(events[j] == tail[j - 1]);
            }
        }
    }
}

/// With a matcher that accepts every name, every worker reports the first key it tests
/// and no key is counted: each worker stops after its first cycle, and the coordinator
/// takes the first key recorded.
pub proof fn lemma_accept_all(events: Seq<bool>)
    requires
        events.len() > 0,
        forall|i: int| 0 <= i < events.len() ==> events[i],
    ensures
        first_report(events) == Some(0nat),
        replay(events).0 == 0,
        forall|t: (nat, bool)| step_action(t, true) == WorkerStep::Report,
{
    assert(events[0]);
    lemma_replay_facts(events);
}

/// How often worker `w` occurs in `ws`.
pub open spec fn occurrences(ws: Seq<nat>, w: nat) -> nat
    decreases ws.len(),
{
    if ws.len() == 0 {
        0
    } else {
        occurrences(ws.drop_last(), w) + if ws.last() == w { 1nat } else { 0nat }
    }
}

/// The records of a search whose `n` workers each test the same `m` names in order, of
/// which only the last matches: `ws[k]` is the worker that records `k`-th, and its key
/// matches when this is its `m`-th record.
pub open spec fn stub_events(ws: Seq<nat>, m: nat) -> Seq<bool> {
    Seq::new(ws.len(), |k: int| occurrences(ws.subrange(0, k), ws[k]) + 1 == m)
}

/// The occurrences of all workers below `n`.
pub open spec fn occurrences_below(ws: Seq<nat>, n: nat) -> nat
    decreases n,
{
    if n == 0 {
        0
    } else {
        occurrences_below(ws, (n - 1) as nat) + occurrences(ws, (n - 1) as nat)
    }
}

proof fn lemma_occurrences_len(ws: Seq<nat>, w: nat)
    ensures
        occurrences(ws, w) <= ws.len(),
    decreases ws.len(),
{
    if ws.len() > 0 {
        lemma_occurrences_len(ws.drop_last(), w);
    }
}

proof fn lemma_occurrences_below_push(ws: Seq<nat>, x: nat, n: nat)
    ensures
        occurrences_below(ws.push(x), n) == occurrences_below(ws, n) + if x < n { 1nat } else { 0nat },
    decreases n,
{
    assert(ws.push(x).drop_last() =~= ws);
    if n > 0 {
        lemma_occurrences_below_push(ws, x, (n - 1) as nat);
    }
}

proof fn lemma_occurrences_below_len(ws: Seq<nat>, n: nat)
    requires
        forall|k: int| 0 <= k < ws.len() ==> ws[k] < n,
    ensures
        occurrences_below(ws, n) == ws.len(),
    decreases ws.len(),
{
    if ws.len() == 0 {
        lemma_occurrences_below_zero(ws, n);
    } else {
        let init = ws.drop_last();
        lemma_occurrences_below_len(init, n);
        assert(init.push(ws.last()) =~= ws);
        lemma_occurrences_below_push(init, ws.last(), n);
    }
}

proof fn lemma_occurrences_below_zero(ws: Seq<nat>, n: nat)
    requires
        ws.len() == 0,
    ensures
        occurrences_below(ws, n) == 0,
    decreases n,
{
    if n > 0 {
        lemma_occurrences_below_zero(ws, (n - 1) as nat);
    }
}

proof fn lemma_occurrences_below_bound(ws: Seq<nat>, n: nat, c: nat)
    requires
        forall|w: nat| w < n ==> occurrences(ws, w) <= c,
    ensures
        occurrences_below(ws, n) <= n * c,
    decreases n,
{
    if n > 0 {
        lemma_occurrences_below_bound(ws, (n - 1) as nat, c);
        assert(n * c == (n - 1) * c + c) by (nonlinear_arith)
            requires
                n > 0,
        ;
    }
}

/// A worker that occurs more than `c` times has a record at which it had occurred
/// exactly `c` times before.
proof fn lemma_occurrence_reached(ws: Seq<nat>, w: nat, c: nat)
    requires
        occurrences(ws, w) > c,
    ensures
        exists|k: int|
            0 <= k < ws.len() && ws[k] == w && #[trigger] occurrences(ws.subrange(0, k), w) == c,
    decreases ws.len(),
{
    let init = ws.drop_last();
    if occurrences(init, w) > c {
        lemma_occurrence_reached(init, w, c);
        let k = choose|k: int|
            0 <= k < init.len() && init[k] == w && #[trigger] occurrences(init.subrange(0, k), w)
                == c;
        assert(init.subrange(0, k) =~= ws.subrange(0, k));
        assert(ws[k] == w);
    } else {
        assert(ws.subrange(0, ws.len() - 1) =~= init);
        assert(ws[ws.len() - 1] == w);
    }
}

/// With `n` workers that each test the same `m` names in order, only the last of which
/// matches, the count at the first report lies between the winner's own `m - 1` misses
/// and `n * (m - 1)`: how the workers interleave decides where in that range it falls.
pub proof fn lemma_count_bounds(ws: Seq<nat>, n: nat, m: nat)
    requires
        m >= 1,
        forall|k: int| 0 <= k < ws.len() ==> ws[k] < n,
        stub_events(ws, m).contains(true),
    ensures
        m - 1 <= replay(stub_events(ws, m)).0 <= n * (m - 1) as nat,
{
    let ev = stub_events(ws, m);
    lemma_count_is_misses(ev);
    lemma_misses_first_match(ev);
    let i = misses_before_match(ev) as int;
    let pre = ws.subrange(0, i);
    assert(occurrences(pre, ws[i]) + 1 == m);
    lemma_occurrences_len(pre, ws[i]);
    assert forall|w: nat| w < n implies occurrences(pre, w) <= (m - 1) as nat by {
        if occurrences(pre, w) > (m - 1) as nat {
            lemma_occurrence_reached(pre, w, (m - 1) as nat);
            let k = choose|k: int|
                0 <= k < pre.len() && pre[k] == w && #[trigger] occurrences(pre.subrange(0, k), w)
                    == (m - 1) as nat;
            assert(pre.subrange(0, k) =~= ws.subrange(0, k));
            assert(ev[k]);
        }
    }
    lemma_occurrences_below_bound(pre, n, (m - 1) as nat);
    lemma_occurrences_below_len(pre, n);
}

} // verus!
