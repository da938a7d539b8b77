//! The work of one tick: samples go into the trackers, and the combined
//! throughput decides whether sleep is to be prevented.

use crate::data::{Combined, Historical, History, Ratio};
use crate::sys::net::{RecordError, Stat};
use crate::sys::{AcquireError, Assertion};
use vstd::hash_map::StringHashMap;
use vstd::prelude::*;

verus! {

/// Bytes per second, inbound and outbound together, from which on sleep is
/// prevented.
pub const NET_THRESHOLD: u64 = 50 * 1024;

/// Number of ticks over which throughput is averaged.
pub const MA_LENGTH: usize = 300;

/// Whether sleep is being prevented.
#[derive(Debug, Clone, Copy, PartialEq, Eq)]
pub enum State {
    /// No assertion is held: the machine may sleep.
    Idle,
    /// An assertion is held: the machine stays awake.
    Active,
}

/// What the controller wants done after a reading.
#[derive(Debug, PartialEq, Eq)]
pub enum Action {
    /// Nothing changes.
    Nothing,
    /// Ask for a sleep assertion, and hand it to `Controller::acquired`.
    Acquire,
    /// Give this assertion back.
    Release(Assertion),
}

/// The controller's next holding and what it wants done, for what it holds
/// and a reading: an assertion that is held is released once the reading is
/// below the threshold, and one is asked for once the reading has reached
/// the threshold while none is held. A reading that is no number does neither.
pub open spec fn decide(held: Option<Assertion>, combined: Ratio) -> (Option<Assertion>, Action) {
    match held {
        Some(assertion) => if combined.below(NET_THRESHOLD as nat) {
            (None, Action::Release(assertion))
        } else {
            (held, Action::Nothing)
        },
        None => if combined.at_least(NET_THRESHOLD as nat) {
            (None, Action::Acquire)
        } else {
            (None, Action::Nothing)
        },
    }
}

/// Holds the sleep assertion while the network is busy.
pub struct Controller {
    assertion: Option<Assertion>,
}

impl Controller {
    /// The assertion that is held, if any.
    pub closed spec fn held(&self) -> Option<Assertion> {
        self.assertion
    }

    /// `Active` while an assertion is held.
    pub open spec fn spec_state(&self) -> State {
        if self.held() is Some {
            State::Active
        } else {
            State::Idle
        }
    }

    /// Starts idle.
    pub fn new() -> (controller: Self)
        ensures
            controller.held() is None,
    {
        Controller { assertion: None }
    }

    /// `Active` while an assertion is held.
    #[verifier::when_used_as_spec(spec_state)]
    pub fn state(&self) -> (state: State)
        ensures
            state == self.state(),
    {
        if self.assertion.is_some() {
            State::Active
        } else {
            State::Idle
        }
    }

    /// Takes a reading. Returns `Release` with the assertion, and goes idle,
    /// where one is held and the reading is below `NET_THRESHOLD`; returns
    /// `Acquire`, and stays idle until `acquired` is called, where none is
    /// held and the reading is at least `NET_THRESHOLD`.
    pub fn evaluate(&mut self, combined: &Combined) -> (action: Action)
        ensures
            (final(self).held(), action) == decide(old(self).held(), combined@),
    {
        if combined.below(NET_THRESHOLD) && self.assertion.is_some() {
            match self.assertion.take() {
                Some(assertion) => Action::Release(assertion),
                None => Action::Nothing,
            }
        } else if combined.at_least(NET_THRESHOLD) && self.assertion.is_none() {
            Action::Acquire
        } else {
            Action::Nothing
        }
    }

    /// Takes the assertion that was asked for, and is active from then on.
    /// Returns the one that was held before, if there was one, for it to be
    /// given back.
    pub fn acquired(&mut self, assertion: Assertion) -> (replaced: Option<Assertion>)
        ensures
            final(self).held() == Some(assertion),
            replaced == old(self).held(),
    {
        let replaced = self.assertion.take();
        self.assertion = Some(assertion);
        replaced
    }

    /// Goes idle and hands out the assertion that was held, if there was
    /// one, for it to be given back.
    pub fn shutdown(&mut self) -> (released: Option<Assertion>)
        ensures
            final(self).held() is None,
            released == old(self).held(),
    {
        self.assertion.take()
    }
}

/// What a sampler stands for: the trackers of every interface seen so far,
/// by name, and the two trackers of the totals over all interfaces.
pub struct Sampling {
    /// For each interface's name its inbound and its outbound tracker.
    pub interfaces: Map<Seq<char>, (History, History)>,
    /// The tracker of the inbound total.
    pub inbound: History,
    /// The tracker of the outbound total.
    pub outbound: History,
}

/// What a batch has come to, part of the way through it.
pub struct Tally {
    /// The interfaces' trackers, with the samples so far in them.
    pub interfaces: Map<Seq<char>, (History, History)>,
    /// The inbound deltas that the samples so far have yielded, added up.
    pub diff_in: u64,
    /// The outbound deltas that the samples so far have yielded, added up.
    pub diff_out: u64,
    /// The records so far that failed.
    pub errors: Seq<RecordError>,
}

/// `total` and one more delta, if there is one; sums wrap at 2^64 as the
/// counters do.
pub open spec fn accumulate(total: u64, diff: Option<u64>) -> u64 {
    match diff {
        Some(diff) => ((total + diff) % 0x1_0000_0000_0000_0000) as u64,
        None => total,
    }
}

/// The trackers of the interface `name`: fresh ones where it was never seen.
pub open spec fn trackers(interfaces: Map<Seq<char>, (History, History)>, name: Seq<char>) -> (
    History,
    History,
) {
    if interfaces.contains_key(name) {
        interfaces[name]
    } else {
        (History::fresh(), History::fresh())
    }
}

impl Tally {
    /// Where a batch starts.
    pub open spec fn start(interfaces: Map<Seq<char>, (History, History)>) -> Tally {
        Tally { interfaces, diff_in: 0, diff_out: 0, errors: Seq::empty() }
    }

    /// The tally after one more item. A sample goes into the trackers of its
    /// interface, and the deltas that it yields are added up; a failed
    /// record adds its error to the list and changes nothing else.
    pub open spec fn step(self, item: Result<Stat, RecordError>) -> Tally {
        match item {
            Ok(stat) => {
                let (inbound, outbound) = trackers(self.interfaces, stat.name@);
                Tally {
                    interfaces: self.interfaces.insert(
                        stat.name@,
                        (inbound.push(stat.in_bytes), outbound.push(stat.out_bytes)),
                    ),
                    diff_in: accumulate(self.diff_in, inbound.delta(stat.in_bytes)),
                    diff_out: accumulate(self.diff_out, outbound.delta(stat.out_bytes)),
                    errors: self.errors,
                }
            },
            Err(error) => Tally {
                interfaces: self.interfaces,
                diff_in: self.diff_in,
                diff_out: self.diff_out,
                errors: self.errors.push(error),
            },
        }
    }

    /// The tally after a run of items, the first of `batch` taken first.
    pub open spec fn run(self, batch: Seq<Result<Stat, RecordError>>) -> Tally
        decreases batch.len(),
    {
        if batch.len() == 0 {
            self
        } else {
            self.run(batch.drop_last()).step(batch.last())
        }
    }
}

impl Sampling {
    /// A sampler that has seen nothing.
    pub open spec fn fresh() -> Sampling {
        Sampling {
            interfaces: Map::empty(),
            inbound: History::fresh(),
            outbound: History::fresh(),
        }
    }

    /// What a batch comes to from here.
    pub open spec fn tally(self, batch: Seq<Result<Stat, RecordError>>) -> Tally {
        Tally::start(self.interfaces).run(batch)
    }

    /// The state after a batch: every sample of it has gone into its
    /// interface's trackers, and the deltas of the tick, summed over all
    /// interfaces, into the trackers of the totals.
    pub open spec fn tick(self, batch: Seq<Result<Stat, RecordError>>) -> Sampling {
        Sampling {
            interfaces: self.tally(batch).interfaces,
            inbound: self.inbound.push_diff(self.tally(batch).diff_in),
            outbound: self.outbound.push_diff(self.tally(batch).diff_out),
        }
    }

    /// Inbound and outbound throughput together, each averaged over the last
    /// `MA_LENGTH` ticks.
    pub open spec fn combined(self) -> Ratio {
        self.inbound.moving_average(MA_LENGTH as nat).plus(
            self.outbound.moving_average(MA_LENGTH as nat),
        )
    }
}

/// The inbound and the outbound tracker of one interface.
struct Pair {
    inbound: Historical,
    outbound: Historical,
}

/// What one tick has brought.
pub struct Sample {
    /// The records that could not be resolved, in the batch's order.
    pub errors: Vec<RecordError>,
    /// Inbound bytes since the last tick, over all interfaces.
    pub diff_in: u64,
    /// Outbound bytes since the last tick, over all interfaces.
    pub diff_out: u64,
    /// Inbound and outbound throughput together, averaged.
    pub combined: Combined,
}

/// Keeps a pair of trackers for every interface, and one for the totals.
pub struct Sampler {
    names: StringHashMap<usize>,
    pairs: Vec<Pair>,
    hist_in: Historical,
    hist_out: Historical,
}

impl View for Sampler {
    type V = Sampling;

    closed spec fn view(&self) -> Sampling {
        Sampling {
            interfaces: Map::new(
                |name: Seq<char>| self.names@.contains_key(name),
                |name: Seq<char>|
                    (
                        self.pairs@[self.names@[name] as int].inbound@,
                        self.pairs@[self.names@[name] as int].outbound@,
                    ),
            ),
            inbound: self.hist_in@,
            outbound: self.hist_out@,
        }
    }
}

impl Sampler {
    /// Every name has a pair of trackers of its own.
    pub closed spec fn wf(&self) -> bool {
        &&& forall|name: Seq<char>| #[trigger]
            self.names@.contains_key(name) ==> self.names@[name] < self.pairs.len()
        &&& forall|one: Seq<char>, other: Seq<char>|
            self.names@.contains_key(one) && self.names@.contains_key(other) && one != other
                ==> #[trigger] self.names@[one] != #[trigger] self.names@[other]
    }

    /// A sampler that has seen nothing.
    pub fn new() -> (sampler: Self)
        ensures
            sampler.wf(),
            sampler@ == Sampling::fresh(),
    {
        let sampler = Sampler {
            names: StringHashMap::new(),
            pairs: Vec::new(),
            hist_in: Historical::new(),
            hist_out: Historical::new(),
        };
        assert(sampler@.interfaces =~= Map::empty());
        sampler
    }

    /// Puts one sample into the trackers of its interface, which are made
    /// where the interface is new. Returns the two deltas.
    fn observe(&mut self, stat: &Stat) -> (diffs: (Option<u64>, Option<u64>))
        requires
            old(self).wf(),
        ensures
            final(self).wf(),
            final(self)@.inbound == old(self)@.inbound,
            final(self)@.outbound == old(self)@.outbound,
            final(self)@.interfaces == old(self)@.interfaces.insert(
                stat.name@,
                (
                    trackers(old(self)@.interfaces, stat.name@).0.push(stat.in_bytes),
                    trackers(old(self)@.interfaces, stat.name@).1.push(stat.out_bytes),
                ),
            ),
            diffs.0 == trackers(old(self)@.interfaces, stat.name@).0.delta(stat.in_bytes),
            diffs.1 == trackers(old(self)@.interfaces, stat.name@).1.delta(stat.out_bytes),
    {
        let slot: usize = match self.names.get(stat.name.as_str()) {
            Some(slot) => *slot,
            None => {
                let slot: usize = self.pairs.len();
                self.pairs.push(Pair { inbound: Historical::new(), outbound: Historical::new() });
                self.names.insert(stat.name.clone(), slot);
                slot
            },
        };
        let pair = &mut self.pairs[slot];
        let diff_in = pair.inbound.push(stat.in_bytes);
        let diff_out = pair.outbound.push(stat.out_bytes);
        assert(self@.interfaces =~= old(self)@.interfaces.insert(
            stat.name@,
            (
                trackers(old(self)@.interfaces, stat.name@).0.push(stat.in_bytes),
                trackers(old(self)@.interfaces, stat.name@).1.push(stat.out_bytes),
            ),
        ));
        (diff_in, diff_out)
    }

    /// Takes one tick's batch. Every sample goes into the trackers of its
    /// interface; a record that failed is set aside and reported. The deltas
    /// of the tick, summed over the interfaces, then go into the trackers of
    /// the totals, whether or not any interface yielded one.
    pub fn sample(&mut self, batch: &Vec<Result<Stat, RecordError>>) -> (sample: Sample)
        requires
            old(self).wf(),
        ensures
            final(self).wf(),
            final(self)@ == old(self)@.tick(batch@),
            sample.errors@ == old(self)@.tally(batch@).errors,
            sample.diff_in == old(self)@.tally(batch@).diff_in,
            sample.diff_out == old(self)@.tally(batch@).diff_out,
            sample.combined@ == final(self)@.combined(),
    {
        let mut diff_in: u64 = 0;
        let mut diff_out: u64 = 0;
        let mut errors: Vec<RecordError> = Vec::new();
        let mut done: usize = 0;
        while done < batch.len()
            invariant
                done <= batch.len(),
                self.wf(),
                self@.inbound == old(self)@.inbound,
                self@.outbound == old(self)@.outbound,
                old(self)@.tally(batch@.take(done as int)) == (Tally {
                    interfaces: self@.interfaces,
                    diff_in,
                    diff_out,
                    errors: errors@,
                }),
            decreases batch.len() - done,
        {
            assert(batch@.take(done + 1).drop_last() =~= batch@.take(done as int));
            match &batch[done] {
                Ok(stat) => {
                    let (delta_in, delta_out) = self.observe(stat);
                    if let Some(diff) = delta_in {
                        diff_in = diff_in.wrapping_add(diff);
                    }
                    if let Some(diff) = delta_out {
                        diff_out = diff_out.wrapping_add(diff);
                    }
                },
                Err(error) => {
                    errors.push(*error);
                },
            }
            done += 1;
        }
        assert(batch@.take(batch.len() as int) =~= batch@);
        self.hist_in.push_diff(diff_in);
        self.hist_out.push_diff(diff_out);
        let inbound = self.hist_in.moving_average(MA_LENGTH);
        let outbound = self.hist_out.moving_average(MA_LENGTH);
        Sample { errors, diff_in, diff_out, combined: Combined::new(&inbound, &outbound) }
    }
}

/// The table of interfaces could not be had at all.
#[derive(Debug, Clone, Copy, PartialEq, Eq)]
pub struct FetchError {
    /// The system's error code.
    pub code: i32,
}

/// What a tick did.
pub enum Tick {
    /// There was no batch: nothing was touched.
    Skipped(FetchError),
    /// The batch went into the trackers, and the controller took the reading.
    Sampled(Sample, Action),
}

/// The state that lives from tick to tick.
pub struct Worker {
    /// The trackers.
    pub sampler: Sampler,
    /// The holder of the sleep assertion.
    pub controller: Controller,
}

impl Worker {
    /// Nothing seen, nothing held.
    pub fn new() -> (worker: Self)
        ensures
            worker.sampler.wf(),
            worker.sampler@ == Sampling::fresh(),
            worker.controller.held() is None,
    {
        Worker { sampler: Sampler::new(), controller: Controller::new() }
    }

    /// Does one tick's work on what the system returned. Where the table
    /// could not be had, the tick is skipped and nothing changes. Else the
    /// batch is sampled, and the controller decides on the combined
    /// throughput that results.
    pub fn tick(&mut self, fetched: Result<Vec<Result<Stat, RecordError>>, FetchError>) -> (tick:
        Tick)
        requires
            old(self).sampler.wf(),
        ensures
            final(self).sampler.wf(),
            match fetched {
                Err(error) => {
                    &&& tick matches Tick::Skipped(reported)
                    &&& reported == error
                    &&& final(self).sampler@ == old(self).sampler@
                    &&& final(self).controller.held() == old(self).controller.held()
                },
                Ok(batch) => {
                    &&& tick matches Tick::Sampled(sample, action)
                    &&& final(self).sampler@ == old(self).sampler@.tick(batch@)
                    &&& sample.errors@ == old(self).sampler@.tally(batch@).errors
                    &&& sample.diff_in == old(self).sampler@.tally(batch@).diff_in
                    &&& sample.diff_out == old(self).sampler@.tally(batch@).diff_out
                    &&& sample.combined@ == final(self).sampler@.combined()
                    &&& (final(self).controller.held(), action) == decide(
                        old(self).controller.held(),
                        sample.combined@,
                    )
                },
            },
    {
        match fetched {
            Err(error) => Tick::Skipped(error),
            Ok(batch) => {
                let sample = self.sampler.sample(&batch);
                let action = self.controller.evaluate(&sample.combined);
                Tick::Sampled(sample, action)
            },
        }
    }

    /// Takes the outcome of asking for the assertion. One that was granted
    /// is held from now on. A refusal is handed on, for the monitor to stop
    /// on it.
    pub fn acquired(&mut self, outcome: Result<Assertion, AcquireError>) -> (result: Result<
        Option<Assertion>,
        AcquireError,
    >)
        ensures
            final(self).sampler == old(self).sampler,
            match outcome {
                Ok(assertion) => final(self).controller.held() == Some(assertion) && result == Ok::<
                    Option<Assertion>,
                    AcquireError,
                >(old(self).controller.held()),
                Err(error) => final(self).controller == old(self).controller && result == Err::<
                    Option<Assertion>,
                    AcquireError,
                >(error),
            },
    {
        match outcome {
            Ok(assertion) => Ok(self.controller.acquired(assertion)),
            Err(error) => Err(error),
        }
    }

    /// Stops: the assertion that is held, if any, is handed out to be given
    /// back.
    pub fn shutdown(&mut self) -> (released: Option<Assertion>)
        ensures
            final(self).sampler == old(self).sampler,
            final(self).controller.held() is None,
            released == old(self).controller.held(),
    {
        self.controller.shutdown()
    }
}

/// The records of a batch that failed, in the batch's order.
pub open spec fn failures(batch: Seq<Result<Stat, RecordError>>) -> Seq<RecordError> {
    batch.filter_map(
        |item: Result<Stat, RecordError>|
            match item {
                Ok(_) => None,
                Err(error) => Some(error),
            },
    )
}

/// A batch without the records that failed.
pub open spec fn samples(batch: Seq<Result<Stat, RecordError>>) -> Seq<Result<Stat, RecordError>> {
    batch.filter(|item: Result<Stat, RecordError>| item is Ok)
}

/// A batch of which some records failed comes to what its samples alone come
/// to: the same trackers and the same totals. What it adds to the errors is
/// its failed records, each once and in the batch's order, and the samples
/// alone add none.
pub proof fn lemma_partial_batch(start: Tally, batch: Seq<Result<Stat, RecordError>>)
    ensures
        start.run(batch).interfaces == start.run(samples(batch)).interfaces,
        start.run(batch).diff_in == start.run(samples(batch)).diff_in,
        start.run(batch).diff_out == start.run(samples(batch)).diff_out,
        start.run(batch).errors == start.errors + failures(batch),
        start.run(samples(batch)).errors == start.errors,
    decreases batch.len(),
{
    reveal(Seq::filter);
    if batch.len() > 0 {
        let before = batch.drop_last();
        lemma_partial_batch(start, before);
        if batch.last() is Ok {
            assert(samples(batch).drop_last() =~= samples(before));
        }
    }
}

/// Whether a batch holds a sample of the interface `name`.
pub open spec fn samples_interface(batch: Seq<Result<Stat, RecordError>>, name: Seq<char>) -> bool {
    exists|i: int| 0 <= i < batch.len() && (#[trigger] batch[i]) is Ok && batch[i]->Ok_0.name@ == name
}

/// No interface is ever forgotten: after a batch the trackers are those of
/// the interfaces known before and of those that the batch holds a sample
/// of. An interface of which the batch holds none keeps its trackers as they
/// were.
pub proof fn lemma_interfaces_persist(
    start: Tally,
    batch: Seq<Result<Stat, RecordError>>,
    name: Seq<char>,
)
    ensures
        start.run(batch).interfaces.contains_key(name) <==> start.interfaces.contains_key(name)
            || samples_interface(batch, name),
        !samples_interface(batch, name) && start.interfaces.contains_key(name) ==> start.run(
            batch,
        ).interfaces[name] == start.interfaces[name],
    decreases batch.len(),
{
    if batch.len() > 0 {
        let before = batch.drop_last();
        lemma_interfaces_persist(start, before, name);
        if samples_interface(batch, name) && !samples_interface(before, name) {
            let i = choose|i: int|
                0 <= i < batch.len() && (#[trigger] batch[i]) is Ok && batch[i]->Ok_0.name@ == name;
            if i < before.len() {
                assert(before[i] == batch[i]);
            }
        }
    }
}

/// Where a run of readings leaves the controller, and how often it asked for
/// an assertion and gave one back on the way.
pub struct Course {
    /// The assertion that is held at the end, if any.
    pub held: Option<Assertion>,
    /// How often an assertion was asked for.
    pub acquires: nat,
    /// How often one was given back.
    pub releases: nat,
}

/// The course of a controller that starts idle and takes `readings` in turn,
/// where every assertion that it asks for is granted: `grant(n)` is the one
/// that it gets after `n` earlier ones.
pub open spec fn course(readings: Seq<Ratio>, grant: spec_fn(nat) -> Assertion) -> Course
    decreases readings.len(),
{
    if readings.len() == 0 {
        Course { held: None, acquires: 0, releases: 0 }
    } else {
        let before = course(readings.drop_last(), grant);
        match decide(before.held, readings.last()) {
            (_, Action::Acquire) => Course {
                held: Some(grant(before.acquires)),
                acquires: before.acquires + 1,
                releases: before.releases,
            },
            (held, Action::Release(_)) => Course {
                held,
                acquires: before.acquires,
                releases: before.releases + 1,
            },
            (held, Action::Nothing) => Course {
                held,
                acquires: before.acquires,
                releases: before.releases,
            },
        }
    }
}

/// The last of a run of readings that is a number, if there is one.
pub open spec fn last_number(readings: Seq<Ratio>) -> Option<Ratio>
    decreases readings.len(),
{
    if readings.len() == 0 {
        None
    } else if readings.last().is_nan() {
        last_number(readings.drop_last())
    } else {
        Some(readings.last())
    }
}

/// After any run of readings the controller is active exactly if the last
/// reading that was a number had reached the threshold. It holds the
/// assertion that it was granted last, and has given back every one before
/// it: as many as it asked for, less the one that it holds.
pub proof fn lemma_hysteresis(readings: Seq<Ratio>, grant: spec_fn(nat) -> Assertion)
    ensures
        course(readings, grant).held is Some <==> (last_number(readings) matches Some(reading)
            && reading.at_least(NET_THRESHOLD as nat)),
        course(readings, grant).held matches Some(assertion) ==> course(readings, grant).acquires
            > 0 && assertion == grant((course(readings, grant).acquires - 1) as nat),
        course(readings, grant).acquires == course(readings, grant).releases + if course(
            readings,
            grant,
        ).held is Some {
            1nat
        } else {
            0nat
        },
    decreases readings.len(),
{
    if readings.len() > 0 {
        lemma_hysteresis(readings.drop_last(), grant);
    }
}

/// A reading that is no number leaves the controller as it is, idle or active.
/// A reading that is one is either below the threshold or has reached it,
/// never both.
pub proof fn lemma_no_data_decides_nothing(held: Option<Assertion>, combined: Ratio)
    ensures
        combined.is_nan() ==> decide(held, combined) == (held, Action::Nothing),
        !combined.is_nan() ==> combined.below(NET_THRESHOLD as nat) != combined.at_least(
            NET_THRESHOLD as nat,
        ),
        Sampling::fresh().combined().is_nan(),
{
}

/// Every tick, whatever its batch, gives the totals one more delta each:
/// from the first tick on the combined throughput is a number.
pub proof fn lemma_tick_gives_a_reading(state: Sampling, batch: Seq<Result<Stat, RecordError>>)
    ensures
        !state.tick(batch).combined().is_nan(),
        state.tick(batch).inbound.deltas[0] == state.tally(batch).diff_in,
        state.tick(batch).outbound.deltas[0] == state.tally(batch).diff_out,
{
    let inbound = state.tick(batch).inbound.moving_average(MA_LENGTH as nat);
    let outbound = state.tick(batch).outbound.moving_average(MA_LENGTH as nat);
    assert(inbound.den * outbound.den != 0) by (nonlinear_arith)
        requires
            inbound.den >= 1,
            outbound.den >= 1,
    ;
}

} // verus!
