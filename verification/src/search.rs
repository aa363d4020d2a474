//! The resolution search: a walk over a six-by-six window of candidate
//! indices, with a circuit breaker on consecutive failures.
//!
//! The search is a state machine. Its caller asks for the next step, stages
//! and links the pair it is given, and reports the outcome. Every decision
//! is taken here; the caller only runs tools.

use vstd::prelude::*;

verus! {

/// The window's side: each round tries this many object indices against
/// this many archive indices.
pub const WINDOW: u64 = 6;

/// The number of pairs in one round.
pub const ROUND_PAIRS: u64 = 36;

/// The number of consecutive failures at which a round is cut short.
pub const BREAKER_LIMIT: u64 = 15;

/// The length the progress indicator starts with.
pub const PROGRESS_START: u64 = 200;

/// By how much the progress indicator's length shrinks after each round.
pub const PROGRESS_SHRINK: u64 = 30;

/// A recorded success, as the model sees it.
pub struct Success {
    /// The number of the attempt; the linked binary is named after it.
    pub number: nat,
    /// The archive's age when it was chosen.
    pub age: nat,
}

/// A link attempt that succeeded.
#[derive(Debug, Clone, Copy, PartialEq, Eq)]
pub struct LinkAttempt {
    /// The number of the attempt; the linked binary is named after it.
    pub number: u64,
    /// The archive's age when it was chosen, in nanoseconds.
    pub age: u128,
}

impl View for LinkAttempt {
    type V = Success;

    open spec fn view(&self) -> Success {
        Success { number: self.number as nat, age: self.age as nat }
    }
}

/// What the caller reports of one attempt.
#[derive(Debug, Clone, Copy, PartialEq, Eq)]
pub struct Outcome {
    /// Whether the linker accepted the staged objects and left a binary.
    pub linked: bool,
    /// The age of the archive that was staged, where one was.
    pub age: Option<u128>,
}

/// What the caller does next.
#[derive(Debug, Clone, Copy, PartialEq, Eq)]
pub enum Step {
    /// Stage and link this pair of candidates, then report the outcome.
    Attempt { bin_index: usize, lib_index: usize, number: u64 },
    /// The round is over and held a failure: shrink the progress indicator,
    /// pause, and open the next round.
    NextRound,
    /// The round is over and held no failure: the search has ended.
    Finished,
}

/// The state of a search as a mathematical value.
pub struct SearchView {
    /// The origin of the window, for both indices.
    pub index: nat,
    /// How many pairs of this round have been tried.
    pub slot: nat,
    /// Failures since the last success, over all rounds.
    pub error_count: nat,
    /// Attempts made, over all rounds.
    pub count: nat,
    /// Failures in this round.
    pub round_failures: nat,
    /// The successes that staged an archive, oldest attempt first.
    pub results: Seq<Success>,
}

/// The state before the first attempt.
pub open spec fn initial() -> SearchView {
    SearchView {
        index: 0,
        slot: 0,
        error_count: 0,
        count: 0,
        round_failures: 0,
        results: Seq::empty(),
    }
}

/// Whether the round goes on: pairs are left and the breaker has not
/// tripped.
pub open spec fn attempting(s: SearchView) -> bool {
    s.slot < ROUND_PAIRS && s.error_count < BREAKER_LIMIT
}

/// The object index that the next attempt of the round tries.
pub open spec fn bin_index_of(s: SearchView) -> nat {
    s.index + s.slot / (WINDOW as nat)
}

/// The archive index that the next attempt of the round tries.
pub open spec fn lib_index_of(s: SearchView) -> nat {
    s.index + s.slot % (WINDOW as nat)
}

/// Whether the search has ended: the round is over and held no failure.
pub open spec fn finished(s: SearchView) -> bool {
    !attempting(s) && s.round_failures == 0
}

/// Whether another round follows: the round is over and held a failure.
pub open spec fn continues(s: SearchView) -> bool {
    !attempting(s) && s.round_failures > 0
}

/// The state after one reported outcome. A success clears the consecutive
/// failures and is recorded where it staged an archive; a failure counts
/// towards the breaker and marks the round.
pub open spec fn after_attempt(s: SearchView, linked: bool, age: Option<u128>) -> SearchView {
    if linked {
        SearchView {
            slot: s.slot + 1,
            count: s.count + 1,
            error_count: 0,
            results: match age {
                Some(a) => s.results.push(Success { number: s.count + 1, age: a as nat }),
                None => s.results,
            },
            ..s
        }
    } else {
        SearchView {
            slot: s.slot + 1,
            count: s.count + 1,
            error_count: s.error_count + 1,
            round_failures: s.round_failures + 1,
            ..s
        }
    }
}

/// The state when the next round opens. The consecutive failures carry
/// over.
pub open spec fn after_round(s: SearchView) -> SearchView {
    SearchView { index: s.index + 1, slot: 0, round_failures: 0, ..s }
}

/// The state after a run of outcomes within one round. Once the round has
/// stopped no attempt is made, so what is left of the run changes nothing.
pub open spec fn after_attempts(s: SearchView, outcomes: Seq<Outcome>) -> SearchView
    decreases outcomes.len(),
{
    if outcomes.len() == 0 {
        s
    } else {
        let before = after_attempts(s, outcomes.drop_last());
        if attempting(before) {
            after_attempt(before, outcomes.last().linked, outcomes.last().age)
        } else {
            before
        }
    }
}

/// The failures that close a run of outcomes without a success between
/// them, counted on from `start` where the run holds no success at all.
pub open spec fn trailing_failures(start: nat, outcomes: Seq<Outcome>) -> nat
    decreases outcomes.len(),
{
    if outcomes.len() == 0 {
        start
    } else if outcomes.last().linked {
        0
    } else {
        trailing_failures(start, outcomes.drop_last()) + 1
    }
}

/// Whether position `i` holds the winner: no result is younger, and every
/// result before it is older.
pub open spec fn is_winner(results: Seq<Success>, i: int) -> bool {
    &&& 0 <= i < results.len()
    &&& forall|j: int| 0 <= j < results.len() ==> results[i].age <= (#[trigger] results[j]).age
    &&& forall|j: int| 0 <= j < i ==> results[i].age < (#[trigger] results[j]).age
}

/// The successes behind a vector of link attempts.
pub open spec fn successes(results: Seq<LinkAttempt>) -> Seq<Success> {
    results.map_values(|r: LinkAttempt| r@)
}

/// The position of the result built from the youngest archive; of several
/// equally young, the first. `None` exactly where there is no result.
pub fn select_winner(results: &Vec<LinkAttempt>) -> (r: Option<usize>)
    ensures
        match r {
            Some(i) => is_winner(successes(results@), i as int),
            None => results@.len() == 0,
        },
{
    if results.len() == 0 {
        return None;
    }
    let ghost all = successes(results@);
    let mut best: usize = 0;
    let mut i: usize = 1;
    while i < results.len()
        invariant
            1 <= i <= results.len(),
            best < i,
            all == successes(results@),
            forall|j: int| 0 <= j < i ==> all[best as int].age <= (#[trigger] all[j]).age,
            forall|j: int| 0 <= j < best ==> all[best as int].age < (#[trigger] all[j]).age,
        decreases results.len() - i,
    {
        if results[i].age < results[best].age {
            best = i;
        }
        i += 1;
    }
    Some(best)
}

/// Whether an attempt counts as a success: the tools that staged it all
/// succeeded, the linker did too, and the binary it was to write exists.
/// Anything else is a failure of this attempt alone.
pub fn attempt_linked(staged: bool, exit_ok: bool, binary_exists: bool) -> (r: bool)
    ensures
        r == (staged && exit_ok && binary_exists),
{
    staged && exit_ok && binary_exists
}

/// The indicator's length after a round: shorter by the fixed decrement,
/// and never below zero.
pub fn shrunk_length(length: u64) -> (r: u64)
    ensures
        r == if length >= PROGRESS_SHRINK {
            length - PROGRESS_SHRINK
        } else {
            0
        },
{
    if length >= PROGRESS_SHRINK {
        length - PROGRESS_SHRINK
    } else {
        0
    }
}

/// A search in progress.
pub struct Search {
    index: usize,
    slot: u64,
    error_count: u64,
    count: u64,
    round_failures: u64,
    results: Vec<LinkAttempt>,
}

impl View for Search {
    type V = SearchView;

    closed spec fn view(&self) -> SearchView {
        SearchView {
            index: self.index as nat,
            slot: self.slot as nat,
            error_count: self.error_count as nat,
            count: self.count as nat,
            round_failures: self.round_failures as nat,
            results: successes(self.results@),
        }
    }
}

/// What holds of every state that a search reaches: the round's counters
/// stay within the round, failures are attempts, and the recorded successes
/// carry the numbers of earlier attempts in rising order, so that no two
/// binaries share a name.
pub open spec fn reachable(s: SearchView) -> bool {
    &&& s.slot <= ROUND_PAIRS
    &&& s.round_failures <= s.slot
    &&& s.error_count <= s.count
    &&& forall|i: int| 0 <= i < s.results.len() ==> 1 <= (#[trigger] s.results[i]).number <= s.count
    &&& forall|i: int, j: int|
        0 <= i < j < s.results.len() ==> (#[trigger] s.results[i]).number < (
        #[trigger] s.results[j]).number
}

impl Search {
    /// The state is one that a search reaches, and its window fits the
    /// machine's indices.
    pub open spec fn wf(&self) -> bool {
        reachable(self@) && self@.index + 5 <= usize::MAX
    }

    /// A search before its first attempt.
    pub fn new() -> (r: Search)
        ensures
            r@ == initial(),
            r.wf(),
    {
        let r = Search {
            index: 0,
            slot: 0,
            error_count: 0,
            count: 0,
            round_failures: 0,
            results: Vec::new(),
        };
        proof {
            assert(r@.results =~= Seq::<Success>::empty());
        }
        r
    }

    /// What to do next. While the round goes on, the pair to try: the
    /// pairs of a round come row by row, object index first, both starting
    /// at the window's origin. At the round's end, whether another round
    /// follows: it does exactly where this one held a failure.
    pub fn next_step(&self) -> (r: Step)
        requires
            self.wf(),
            self@.count < u64::MAX,
        ensures
            match r {
                Step::Attempt { bin_index, lib_index, number } => {
                    &&& attempting(self@)
                    &&& bin_index == bin_index_of(self@)
                    &&& lib_index == lib_index_of(self@)
                    &&& number == self@.count + 1
                },
                Step::NextRound => continues(self@),
                Step::Finished => finished(self@),
            },
    {
        if self.slot < ROUND_PAIRS && self.error_count < BREAKER_LIMIT {
            let row: u64 = self.slot / WINDOW;
            let column: u64 = self.slot % WINDOW;
            Step::Attempt {
                bin_index: self.index + (row as usize),
                lib_index: self.index + (column as usize),
                number: self.count + 1,
            }
        } else if self.round_failures > 0 {
            Step::NextRound
        } else {
            Step::Finished
        }
    }

    /// Takes in the outcome of the attempt that `next_step` asked for, and
    /// returns by how much the progress indicator advances: the number of
    /// consecutive failures so far.
    pub fn record(&mut self, outcome: Outcome) -> (advance: u64)
        requires
            old(self).wf(),
            attempting(old(self)@),
            old(self)@.count < u64::MAX,
        ensures
            final(self)@ == after_attempt(old(self)@, outcome.linked, outcome.age),
            final(self).wf(),
            advance == final(self)@.error_count,
    {
        let ghost before = self.results@;
        self.count = self.count + 1;
        self.slot = self.slot + 1;
        if outcome.linked {
            self.error_count = 0;
            match outcome.age {
                Some(age) => {
                    let attempt = LinkAttempt { number: self.count, age };
                    self.results.push(attempt);
                    proof {
                        assert(successes(self.results@) =~= successes(before).push(attempt@));
                    }
                },
                None => {},
            }
        } else {
            self.error_count = self.error_count + 1;
            self.round_failures = self.round_failures + 1;
        }
        self.error_count
    }

    /// Opens the next round, after `next_step` has asked for it: the window
    /// moves on by one and the round's own counters start again.
    pub fn next_round(&mut self)
        requires
            old(self).wf(),
            continues(old(self)@),
            old(self)@.index + 6 <= usize::MAX,
        ensures
            final(self)@ == after_round(old(self)@),
            final(self).wf(),
    {
        self.index = self.index + 1;
        self.slot = 0;
        self.round_failures = 0;
    }

    /// The successes recorded so far, oldest attempt first.
    pub fn results(&self) -> (r: &Vec<LinkAttempt>)
        ensures
            successes(r@) == self@.results,
    {
        &self.results
    }

    /// The success built from the youngest archive, if any attempt
    /// succeeded with an archive staged.
    pub fn winner(&self) -> (r: Option<LinkAttempt>)
        ensures
            match r {
                Some(w) => exists|i: int|
                    is_winner(self@.results, i) && #[trigger] self@.results[i] == w@,
                None => self@.results.len() == 0,
            },
    {
        match select_winner(&self.results) {
            Some(i) => {
                let w = self.results[i];
                proof {
                    assert(is_winner(self@.results, i as int) && self@.results[i as int] == w@);
                }
                Some(w)
            },
            None => None,
        }
    }

    /// How many attempts have been made.
    pub fn attempts(&self) -> (r: u64)
        ensures
            r == self@.count,
    {
        self.count
    }

    /// The origin of the window.
    pub fn window_origin(&self) -> (r: usize)
        ensures
            r == self@.index,
    {
        self.index
    }
}

proof fn lemma_running(s: SearchView, outcomes: Seq<Outcome>)
    requires
        s.slot + outcomes.len() <= 36,
        forall|k: int|
            0 <= k < outcomes.len() ==> trailing_failures(
                s.error_count,
                #[trigger] outcomes.take(k),
            ) < 15,
    ensures
        after_attempts(s, outcomes).slot == s.slot + outcomes.len(),
        after_attempts(s, outcomes).count == s.count + outcomes.len(),
        after_attempts(s, outcomes).index == s.index,
        after_attempts(s, outcomes).error_count == trailing_failures(s.error_count, outcomes),
    decreases outcomes.len(),
{
    if outcomes.len() > 0 {
        let init = outcomes.drop_last();
        assert forall|k: int| 0 <= k < init.len() implies trailing_failures(
            s.error_count,
            #[trigger] init.take(k),
        ) < 15 by {
            assert(init.take(k) =~= outcomes.take(k));
        }
        lemma_running(s, init);
        assert(outcomes.take(outcomes.len() - 1) =~= init);
    }
}

proof fn lemma_stopped_stays(s: SearchView, outcomes: Seq<Outcome>, k: int)
    requires
        0 <= k <= outcomes.len(),
        !attempting(after_attempts(s, outcomes.take(k))),
    ensures
        after_attempts(s, outcomes) == after_attempts(s, outcomes.take(k)),
    decreases outcomes.len(),
{
    if k == outcomes.len() {
        assert(outcomes.take(k) =~= outcomes);
    } else {
        let init = outcomes.drop_last();
        assert(init.take(k) =~= outcomes.take(k));
        lemma_stopped_stays(s, init, k);
    }
}

proof fn lemma_all_linked(s: SearchView, outcomes: Seq<Outcome>)
    requires
        s.slot + outcomes.len() <= 36,
        s.error_count < 15,
        forall|i: int| 0 <= i < outcomes.len() ==> (#[trigger] outcomes[i]).linked,
    ensures
        after_attempts(s, outcomes).slot == s.slot + outcomes.len(),
        after_attempts(s, outcomes).count == s.count + outcomes.len(),
        after_attempts(s, outcomes).round_failures == s.round_failures,
        after_attempts(s, outcomes).error_count == if outcomes.len() == 0 {
            s.error_count
        } else {
            0
        },
    decreases outcomes.len(),
{
    if outcomes.len() > 0 {
        let init = outcomes.drop_last();
        assert forall|i: int| 0 <= i < init.len() implies (#[trigger] init[i]).linked by {
            assert(init[i] == outcomes[i]);
        }
        lemma_all_linked(s, init);
    }
}

/// Where the consecutive failures stay under the breaker's limit throughout
/// a round, every one of its 36 pairs is tried: before each of them the
/// round still goes on, and the pair is the next of the window, row by row.
pub proof fn lemma_round_runs_in_full(s: SearchView, outcomes: Seq<Outcome>)
    requires
        s.slot == 0,
        outcomes.len() == 36,
        forall|k: int|
            0 <= k < 36 ==> trailing_failures(s.error_count, #[trigger] outcomes.take(k)) < 15,
    ensures
        forall|k: int|
            0 <= k < 36 ==> {
                let t = after_attempts(s, #[trigger] outcomes.take(k));
                &&& attempting(t)
                &&& t.count == s.count + k
                &&& bin_index_of(t) == s.index + k / 6
                &&& lib_index_of(t) == s.index + k % 6
            },
        after_attempts(s, outcomes).slot == 36,
        after_attempts(s, outcomes).count == s.count + 36,
{
    assert forall|k: int| 0 <= k < 36 implies {
        let t = after_attempts(s, #[trigger] outcomes.take(k));
        &&& attempting(t)
        &&& t.count == s.count + k
        &&& bin_index_of(t) == s.index + k / 6
        &&& lib_index_of(t) == s.index + k % 6
    } by {
        let part = outcomes.take(k);
        assert forall|j: int| 0 <= j < part.len() implies trailing_failures(
            s.error_count,
            #[trigger] part.take(j),
        ) < 15 by {
            assert(part.take(j) =~= outcomes.take(j));
        }
        lemma_running(s, part);
    }
    lemma_running(s, outcomes);
}

/// Once the consecutive failures reach the breaker's limit the round stops:
/// the state after the attempt that tripped the breaker is the state at the
/// round's end, whatever outcomes would have followed, and no attempt is
/// asked for.
pub proof fn lemma_breaker_stops_round(s: SearchView, outcomes: Seq<Outcome>, k: int)
    requires
        0 <= k <= outcomes.len(),
        s.slot + k <= 36,
        forall|j: int|
            0 <= j < k ==> trailing_failures(s.error_count, #[trigger] outcomes.take(j)) < 15,
        trailing_failures(s.error_count, outcomes.take(k)) >= 15,
    ensures
        after_attempts(s, outcomes) == after_attempts(s, outcomes.take(k)),
        !attempting(after_attempts(s, outcomes)),
        after_attempts(s, outcomes).count == s.count + k,
{
    let part = outcomes.take(k);
    assert forall|j: int| 0 <= j < part.len() implies trailing_failures(
        s.error_count,
        #[trigger] part.take(j),
    ) < 15 by {
        assert(part.take(j) =~= outcomes.take(j));
    }
    lemma_running(s, part);
    lemma_stopped_stays(s, outcomes, k);
}

/// A round in which all 36 pairs link records no failure, and the search
/// ends with it.
pub proof fn lemma_clean_round_finishes(s: SearchView, outcomes: Seq<Outcome>)
    requires
        s.slot == 0,
        s.round_failures == 0,
        s.error_count < 15,
        outcomes.len() == 36,
        forall|i: int| 0 <= i < 36 ==> (#[trigger] outcomes[i]).linked,
    ensures
        after_attempts(s, outcomes).count == s.count + 36,
        after_attempts(s, outcomes).round_failures == 0,
        after_attempts(s, outcomes).error_count == 0,
        finished(after_attempts(s, outcomes)),
{
    lemma_all_linked(s, outcomes);
}

/// The selection is determined by the results: no two positions hold the
/// winner.
pub proof fn lemma_winner_is_unique(results: Seq<Success>, i: int, j: int)
    requires
        is_winner(results, i),
        is_winner(results, j),
    ensures
        i == j,
{
    if i < j {
        assert(results[j].age < results[i].age);
        assert(results[i].age <= results[j].age);
    } else if j < i {
        assert(results[i].age < results[j].age);
        assert(results[j].age <= results[i].age);
    }
}

/// An outcome taken in while the round goes on leads from a state that a
/// search reaches to another such state.
pub proof fn lemma_attempt_keeps_reachable(s: SearchView, linked: bool, age: Option<u128>)
    requires
        reachable(s),
        attempting(s),
    ensures
        reachable(after_attempt(s, linked, age)),
{
}

/// The state before the first attempt is one that a search reaches, and
/// opening the next round leads from such a state to another.
pub proof fn lemma_rounds_keep_reachable(s: SearchView)
    requires
        reachable(s),
    ensures
        reachable(initial()),
        reachable(after_round(s)),
{
}

} // verus!
