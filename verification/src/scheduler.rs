//! Scheduling: which entries of an archive are shards, when a batch of
//! workers is joined, and what becomes of each worker's outcome.

use crate::article::Article;
use crate::stats::{
    counts_fit, empty_stats, lemma_merged_into, merge_all, merged, merged_into, process_articles,
    shard_stats, StatsPackage, StatsView,
};
use crate::strings::{ends_with, has_suffix};
use vstd::prelude::*;
use vstd::string::*;

verus! {

/// A shard whose text could not be decoded into articles.
pub struct ShardDecodeError {
    shard: String,
    detail: String,
}

impl View for ShardDecodeError {
    type V = (Seq<char>, Seq<char>);

    closed spec fn view(&self) -> (Seq<char>, Seq<char>) {
        (self.shard@, self.detail@)
    }
}

impl ShardDecodeError {
    /// The error of shard `shard`, with what the decoder reported.
    pub fn new(shard: String, detail: String) -> (e: Self)
        ensures
            e@ == (shard@, detail@),
    {
        Self { shard, detail }
    }

    /// The label of the shard that failed.
    pub fn shard(&self) -> (shard: &str)
        ensures
            shard@ == self@.0,
    {
        self.shard.as_str()
    }

    /// What the decoder reported.
    pub fn detail(&self) -> (detail: &str)
        ensures
            detail@ == self@.1,
    {
        self.detail.as_str()
    }
}

/// Turns the decoded content of one shard into its statistics. A shard that
/// did not decode has no statistics: its error names the shard and hands on
/// what the decoder reported.
pub fn process_file(decoded: Result<Vec<Article>, String>, path: String) -> (result: Result<
    StatsPackage,
    ShardDecodeError,
>)
    requires
        decoded matches Ok(articles) ==> counts_fit(shard_stats(articles@, path@)),
    ensures
        match decoded {
            Ok(articles) => result matches Ok(stats) && stats.wf() && stats@ == shard_stats(
                articles@,
                path@,
            ),
            Err(detail) => result matches Err(e) && e@ == (path@, detail@),
        },
{
    match decoded {
        Ok(articles) => Ok(process_articles(&articles, path.as_str())),
        Err(detail) => Err(ShardDecodeError::new(path, detail)),
    }
}

/// How a worker ended.
pub enum WorkerOutcome {
    /// The worker returned the statistics of its shard.
    Finished(StatsPackage),
    /// The worker returned because its shard did not decode.
    DecodeFailed(ShardDecodeError),
    /// The worker ended without returning.
    Crashed,
}

/// Why a run was given up.
pub enum RunError {
    /// A shard did not decode.
    ShardDecode(ShardDecodeError),
    /// A worker ended without returning a result.
    WorkerFailure,
}

/// The error that an outcome ends the run with, if it does.
pub open spec fn failure_of(outcome: WorkerOutcome) -> Option<RunError> {
    match outcome {
        WorkerOutcome::Finished(_) => None,
        WorkerOutcome::DecodeFailed(e) => Some(RunError::ShardDecode(e)),
        WorkerOutcome::Crashed => Some(RunError::WorkerFailure),
    }
}

/// The accumulator after an outcome: statistics are merged into it, anything
/// else leaves it as it was.
pub open spec fn after_outcome(accumulator: StatsView, outcome: WorkerOutcome) -> StatsView {
    match outcome {
        WorkerOutcome::Finished(stats) => merged(accumulator, stats@),
        _ => accumulator,
    }
}

/// Whether an outcome can be taken into the accumulator: statistics must be
/// well-formed, and no count may leave 32 bits when they are merged.
pub open spec fn can_absorb(accumulator: StatsView, outcome: WorkerOutcome) -> bool {
    outcome matches WorkerOutcome::Finished(stats) ==> stats.wf() && counts_fit(
        merged(accumulator, stats@),
    )
}

/// Takes the outcome of one joined worker into the accumulator: statistics
/// are merged, anything else ends the run and leaves the accumulator as it
/// was.
pub fn absorb_outcome(accumulator: &mut StatsPackage, outcome: WorkerOutcome) -> (result: Result<
    (),
    RunError,
>)
    requires
        old(accumulator).wf(),
        can_absorb(old(accumulator)@, outcome),
    ensures
        final(accumulator).wf(),
        final(accumulator)@ == after_outcome(old(accumulator)@, outcome),
        result == match failure_of(outcome) {
            None => Ok::<(), RunError>(()),
            Some(e) => Err::<(), RunError>(e),
        },
{
    match outcome {
        WorkerOutcome::Finished(stats) => {
            accumulator.merge_with(stats);
            Ok(())
        },
        WorkerOutcome::DecodeFailed(e) => Err(RunError::ShardDecode(e)),
        WorkerOutcome::Crashed => Err(RunError::WorkerFailure),
    }
}

/// What a batch of joined workers comes to: the outcomes are taken into the
/// accumulator in the order in which the workers were launched, up to the
/// first that ends the run; the result is the accumulator and that outcome's
/// error, if there is one.
pub open spec fn batch_result(accumulator: StatsView, outcomes: Seq<WorkerOutcome>) -> (
    StatsView,
    Option<RunError>,
)
    decreases outcomes.len(),
{
    if outcomes.len() == 0 {
        (accumulator, None)
    } else {
        let before = batch_result(accumulator, outcomes.drop_last());
        if before.1 is Some {
            before
        } else {
            (after_outcome(before.0, outcomes.last()), failure_of(outcomes.last()))
        }
    }
}

/// Whether a batch can be taken into the accumulator: every outcome up to
/// the first that ends the run can be absorbed in its turn.
pub open spec fn batch_fits(accumulator: StatsView, outcomes: Seq<WorkerOutcome>) -> bool
    decreases outcomes.len(),
{
    if outcomes.len() == 0 {
        true
    } else {
        let before = batch_result(accumulator, outcomes.drop_last());
        batch_fits(accumulator, outcomes.drop_last()) && (before.1 is None ==> can_absorb(
            before.0,
            outcomes.last(),
        ))
    }
}

/// One failed worker fails its batch, whatever the workers before and after
/// it returned: a shard that does not decode, or a worker that crashed, ends
/// the run with an error.
pub proof fn lemma_failure_fails_batch(
    accumulator: StatsView,
    outcomes: Seq<WorkerOutcome>,
    k: int,
)
    requires
        0 <= k < outcomes.len(),
        failure_of(outcomes[k]) is Some,
    ensures
        batch_result(accumulator, outcomes).1 is Some,
    decreases outcomes.len(),
{
    if k < outcomes.len() - 1 {
        assert(outcomes.drop_last()[k] == outcomes[k]);
        lemma_failure_fails_batch(accumulator, outcomes.drop_last(), k);
    }
}

/// A batch ends with the error of the first worker that failed, and with
/// none if every worker returned statistics.
pub proof fn lemma_first_failure(accumulator: StatsView, outcomes: Seq<WorkerOutcome>)
    ensures
        match batch_result(accumulator, outcomes).1 {
            None => forall|k: int| 0 <= k < outcomes.len() ==> failure_of(outcomes[k]) is None,
            Some(e) => exists|k: int|
                0 <= k < outcomes.len() && failure_of(#[trigger] outcomes[k]) == Some(e)
                    && forall|j: int| 0 <= j < k ==> failure_of(outcomes[j]) is None,
        },
    decreases outcomes.len(),
{
    if outcomes.len() > 0 {
        let head = outcomes.drop_last();
        lemma_first_failure(accumulator, head);
        let before = batch_result(accumulator, head);
        match before.1 {
            Some(e) => {
                let k = choose|k: int|
                    0 <= k < head.len() && failure_of(#[trigger] head[k]) == Some(e) && forall|
                        j: int,
                    |
                        0 <= j < k ==> failure_of(head[j]) is None;
                assert(outcomes[k] == head[k]);
                assert forall|j: int| 0 <= j < k implies failure_of(outcomes[j]) is None by {
                    assert(outcomes[j] == head[j]);
                }
            },
            None => {
                assert forall|j: int| 0 <= j < head.len() implies failure_of(
                    outcomes[j],
                ) is None by {
                    assert(outcomes[j] == head[j]);
                }
                if failure_of(outcomes.last()) is Some {
                    let k = outcomes.len() - 1;
                    assert(failure_of(outcomes[k]) == batch_result(accumulator, outcomes).1);
                }
            },
        }
    }
}

/// The statistics that the workers of a batch returned, in their order; for
/// a worker that returned none, the empty package.
pub open spec fn packages_of(outcomes: Seq<WorkerOutcome>) -> Seq<StatsView> {
    outcomes.map_values(
        |outcome: WorkerOutcome|
            match outcome {
                WorkerOutcome::Finished(stats) => stats@,
                _ => empty_stats(),
            },
    )
}

/// A batch in which every worker returned statistics comes to these
/// statistics merged into the accumulator one after the other, which is the
/// accumulator merged with their aggregate: how the shards fall into batches
/// does not change the result.
pub proof fn lemma_clean_batch(accumulator: StatsView, outcomes: Seq<WorkerOutcome>)
    requires
        forall|k: int| 0 <= k < outcomes.len() ==> failure_of(outcomes[k]) is None,
    ensures
        batch_result(accumulator, outcomes) == (
            merged_into(accumulator, packages_of(outcomes)),
            None::<RunError>,
        ),
        batch_result(accumulator, outcomes).0 == merged(
            accumulator,
            merge_all(packages_of(outcomes)),
        ),
    decreases outcomes.len(),
{
    if outcomes.len() > 0 {
        let head = outcomes.drop_last();
        assert forall|k: int| 0 <= k < head.len() implies failure_of(head[k]) is None by {
            assert(head[k] == outcomes[k]);
        }
        lemma_clean_batch(accumulator, head);
        assert(packages_of(outcomes).drop_last() =~= packages_of(head));
        assert(failure_of(outcomes[outcomes.len() - 1]) is None);
    }
    lemma_merged_into(accumulator, packages_of(outcomes));
}

/// Takes the outcomes of a joined batch into the accumulator, in the order
/// in which the workers were launched, up to the first that ends the run.
pub fn absorb_batch(accumulator: &mut StatsPackage, outcomes: Vec<WorkerOutcome>) -> (result:
    Result<(), RunError>)
    requires
        old(accumulator).wf(),
        batch_fits(old(accumulator)@, outcomes@),
    ensures
        final(accumulator).wf(),
        final(accumulator)@ == batch_result(old(accumulator)@, outcomes@).0,
        result == match batch_result(old(accumulator)@, outcomes@).1 {
            None => Ok::<(), RunError>(()),
            Some(e) => Err::<(), RunError>(e),
        },
{
    let ghost start = accumulator@;
    let ghost all = outcomes@;
    let mut waiting = outcomes;
    let mut in_order: Vec<WorkerOutcome> = Vec::new();
    while waiting.len() > 0
        invariant
            waiting@.len() + in_order@.len() == all.len(),
            forall|k: int| 0 <= k < waiting@.len() ==> waiting@[k] == all[k],
            forall|k: int| 0 <= k < in_order@.len() ==> in_order@[k] == all[all.len() - 1 - k],
        decreases waiting@.len(),
    {
        let outcome = waiting.pop().unwrap();
        in_order.push(outcome);
    }
    let ghost mut done: int = 0;
    proof {
        assert(all.take(0) =~= Seq::<WorkerOutcome>::empty());
        lemma_prefix_fits(start, all, 0);
    }
    while in_order.len() > 0
        invariant
            accumulator.wf(),
            start == old(accumulator)@,
            all == outcomes@,
            0 <= done <= all.len(),
            in_order@.len() == all.len() - done,
            forall|k: int| 0 <= k < in_order@.len() ==> in_order@[k] == all[all.len() - 1 - k],
            batch_fits(start, all),
            batch_result(start, all.take(done)) == (accumulator@, None::<RunError>),
        decreases in_order@.len(),
    {
        let outcome = in_order.pop().unwrap();
        proof {
            assert(outcome == all[done]);
            assert(all.take(done + 1).drop_last() =~= all.take(done));
            assert(all.take(done + 1).last() == outcome);
            lemma_prefix_fits(start, all, done + 1);
        }
        match absorb_outcome(accumulator, outcome) {
            Ok(()) => {},
            Err(e) => {
                proof {
                    lemma_failure_stays(start, all, done + 1);
                }
                return Err(e);
            },
        }
        proof {
            done = done + 1;
        }
    }
    proof {
        assert(all.take(done) =~= all);
    }
    Ok(())
}

/// A batch that fits fits in every part taken from its front.
pub proof fn lemma_prefix_fits(accumulator: StatsView, outcomes: Seq<WorkerOutcome>, n: int)
    requires
        0 <= n <= outcomes.len(),
        batch_fits(accumulator, outcomes),
    ensures
        batch_fits(accumulator, outcomes.take(n)),
    decreases outcomes.len() - n,
{
    if n == outcomes.len() {
        assert(outcomes.take(n) =~= outcomes);
    } else {
        lemma_prefix_fits(accumulator, outcomes, n + 1);
        assert(outcomes.take(n + 1).drop_last() =~= outcomes.take(n));
    }
}

/// Once a part of a batch has ended the run, the whole batch comes to what
/// that part came to.
pub proof fn lemma_failure_stays(accumulator: StatsView, outcomes: Seq<WorkerOutcome>, n: int)
    requires
        0 <= n <= outcomes.len(),
        batch_result(accumulator, outcomes.take(n)).1 is Some,
    ensures
        batch_result(accumulator, outcomes) == batch_result(accumulator, outcomes.take(n)),
    decreases outcomes.len() - n,
{
    if n == outcomes.len() {
        assert(outcomes.take(n) =~= outcomes);
    } else {
        assert(outcomes.take(n + 1).drop_last() =~= outcomes.take(n));
        lemma_failure_stays(accumulator, outcomes, n + 1);
    }
}

/// Whether an archive entry of this name is a shard: its name ends in
/// `.json`.
pub open spec fn names_shard(name: Seq<char>) -> bool {
    has_suffix(name, seq!['.', 'j', 's', 'o', 'n'])
}

/// Decides whether an archive entry of this name is a shard.
pub fn is_shard(name: &str) -> (b: bool)
    ensures
        b == names_shard(name@),
{
    proof {
        reveal_strlit(".json");
        assert(".json"@ =~= seq!['.', 'j', 's', 'o', 'n']);
    }
    ends_with(name, ".json")
}

/// The number of workers that may run at once: what `num_cpus::get` reports
/// for this machine, which its documentation promises to be at least one.
/// Nothing else is known of the number, and two calls may differ.
#[verifier::external_body]
pub(crate) fn available_workers() -> (n: usize)
    ensures
        n >= 1,
{
    num_cpus::get()
}

/// What to do with one entry of the archive.
pub struct Decision {
    /// Whether a worker is launched for the entry.
    pub launch: bool,
    /// Whether the batch is joined once the entry is dealt with.
    pub join: bool,
}

/// The scheduler's bookkeeping while it walks the entries of an archive: how
/// many workers may be in flight, how many are, and how many entries are
/// still to come.
pub struct Scheduler {
    capacity: usize,
    in_flight: usize,
    remaining: usize,
}

/// What a scheduler holds, as plain numbers.
pub struct SchedulerView {
    pub capacity: nat,
    pub in_flight: nat,
    pub remaining: nat,
}

impl View for Scheduler {
    type V = SchedulerView;

    closed spec fn view(&self) -> SchedulerView {
        SchedulerView {
            capacity: self.capacity as nat,
            in_flight: self.in_flight as nat,
            remaining: self.remaining as nat,
        }
    }
}

/// Whether the batch is joined after an entry: when the batch is full, and
/// after the last entry.
pub open spec fn joins_after(state: SchedulerView, launch: bool) -> bool {
    state.in_flight + (if launch { 1nat } else { 0nat }) == state.capacity || state.remaining == 1
}

/// The scheduler's state after an entry.
pub open spec fn after_entry(state: SchedulerView, launch: bool) -> SchedulerView {
    SchedulerView {
        capacity: state.capacity,
        in_flight: if joins_after(state, launch) {
            0
        } else {
            state.in_flight + if launch { 1nat } else { 0nat }
        },
        remaining: (state.remaining - 1) as nat,
    }
}

impl Scheduler {
    /// The scheduler's invariant: between two entries fewer workers are in
    /// flight than may run at once, so that one more can always be launched
    /// and never more than `capacity` run.
    pub open spec fn wf(&self) -> bool {
        self@.in_flight < self@.capacity
    }

    /// A scheduler for an archive of `entries` entries and at most `capacity`
    /// workers at once.
    pub fn new(capacity: usize, entries: usize) -> (scheduler: Self)
        requires
            capacity >= 1,
        ensures
            scheduler.wf(),
            scheduler@ == (SchedulerView {
                capacity: capacity as nat,
                in_flight: 0,
                remaining: entries as nat,
            }),
    {
        Self { capacity, in_flight: 0, remaining: entries }
    }

    /// A scheduler for an archive of `entries` entries with as many workers
    /// as this machine offers.
    pub fn for_this_machine(entries: usize) -> (scheduler: Self)
        ensures
            scheduler.wf(),
            scheduler@.in_flight == 0,
            scheduler@.remaining == entries,
    {
        Self::new(available_workers(), entries)
    }

    /// The number of workers that may run at once.
    pub fn capacity(&self) -> (n: usize)
        ensures
            n == self@.capacity,
    {
        self.capacity
    }

    /// The number of workers in flight.
    pub fn in_flight(&self) -> (n: usize)
        ensures
            n == self@.in_flight,
    {
        self.in_flight
    }

    /// The number of entries still to come.
    pub fn remaining(&self) -> (n: usize)
        ensures
            n == self@.remaining,
    {
        self.remaining
    }

    /// Decides what to do with the next entry of the archive, by its name: a
    /// worker is launched for it if it is a shard, and the batch is joined
    /// once it is full or the entry is the last.
    pub fn next_entry(&mut self, name: &str) -> (decision: Decision)
        requires
            old(self).wf(),
            old(self)@.remaining > 0,
        ensures
            final(self).wf(),
            decision.launch == names_shard(name@),
            decision.join == joins_after(old(self)@, decision.launch),
            final(self)@ == after_entry(old(self)@, decision.launch),
    {
        let launch = is_shard(name);
        if launch {
            self.in_flight = self.in_flight + 1;
        }
        let join = self.in_flight == self.capacity || self.remaining == 1;
        if join {
            self.in_flight = 0;
        }
        self.remaining = self.remaining - 1;
        Decision { launch, join }
    }
}

} // verus!
