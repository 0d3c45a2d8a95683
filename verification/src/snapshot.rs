//! The published state: everything a renderer needs for one frame.

use vstd::prelude::*;
use crate::history::{
    lemma_pushes_keep_most_recent, most_recent, pushed, pushed_all, HistoryBuffer,
};
use crate::network::{aggregate, received_sum, transmitted_sum, InterfaceCounters, NetworkTotals};
use crate::process::{rank, ranked_rows, rows_text, ProcessSample, RankedProcessRow, RowText};
use crate::registry::{
    distinct_names, lemma_observations_keep_identities, lemma_observations_reach_their_identity,
    lemma_slot_of, observed_all, slot_of, usages_of, CpuRegistry, CpuSample, IdentityView,
};
use crate::series::{materialize, series_of, SeriesPoint};

verus! {

/// What the engine is set up with.
#[derive(Clone, Copy, Debug, PartialEq, Eq)]
pub struct Config {
    /// Time between two polls, in milliseconds.
    pub poll_period_ms: u64,
    /// The most samples kept per stream.
    pub history_capacity: usize,
    /// The most lines in the process table.
    pub table_size: usize,
}

impl Default for Config {
    /// A poll every 100 ms, 500 samples per stream, 100 table lines.
    fn default() -> (config: Self)
        ensures
            config.poll_period_ms == 100,
            config.history_capacity == 500,
            config.table_size == 100,
    {
        Config { poll_period_ms: 100, history_capacity: 500, table_size: 100 }
    }
}

/// One reading of the host, as the metric source hands it over. Memory is in
/// bytes, CPU load in hundredths of a percent, process share in millionths
/// of a percent.
#[derive(Clone, Debug, PartialEq, Eq)]
pub struct RawSnapshot {
    pub total_memory: u64,
    pub used_memory: u64,
    pub global_cpu_usage: u64,
    /// The CPU streams to record, by name.
    pub cpus: Vec<CpuSample>,
    /// The number of logical CPUs that process shares are divided by.
    pub logical_cpus: usize,
    pub interfaces: Vec<InterfaceCounters>,
    pub processes: Vec<ProcessSample>,
}

impl RawSnapshot {
    /// A reading can be published unless it lists processes and no logical
    /// CPU to divide their shares by.
    pub open spec fn usable(&self) -> bool {
        self.processes@.len() > 0 ==> self.logical_cpus >= 1
    }

    /// Whether the reading can be published.
    pub fn is_usable(&self) -> (usable: bool)
        ensures
            usable == self.usable(),
    {
        self.processes.len() == 0 || self.logical_cpus >= 1
    }
}

/// What a snapshot stands for. The series of the memory stream and of each
/// CPU stream follow from the samples.
pub struct SnapshotView {
    pub total_memory: u64,
    /// Used memory per published reading, oldest first.
    pub memory: Seq<u64>,
    pub cpu_usage: u64,
    pub cpus: Seq<IdentityView>,
    pub packets_received: nat,
    pub packets_transmitted: nat,
    pub processes: Seq<RowText>,
    /// The number of readings published, which stops counting at `u64::MAX`.
    pub ticks: nat,
}

/// The state before any reading was published.
pub open spec fn initial() -> SnapshotView {
    SnapshotView {
        total_memory: 0,
        memory: Seq::empty(),
        cpu_usage: 0,
        cpus: Seq::empty(),
        packets_received: 0,
        packets_transmitted: 0,
        processes: Seq::empty(),
        ticks: 0,
    }
}

/// The state after `raw` was published over `before`: the memory and CPU
/// samples join their histories, and the totals, the table and the current
/// values are those of `raw` alone.
pub open spec fn published(
    before: SnapshotView,
    capacity: nat,
    table_size: nat,
    raw: RawSnapshot,
) -> SnapshotView {
    SnapshotView {
        total_memory: raw.total_memory,
        memory: pushed(before.memory, capacity, raw.used_memory),
        cpu_usage: raw.global_cpu_usage,
        cpus: observed_all(before.cpus, capacity, raw.cpus@),
        packets_received: received_sum(raw.interfaces@),
        packets_transmitted: transmitted_sum(raw.interfaces@),
        processes: ranked_rows(raw.processes@, raw.logical_cpus as nat, table_size),
        ticks: if before.ticks < u64::MAX {
            before.ticks + 1
        } else {
            before.ticks
        },
    }
}

/// The state after each of `readings` was published in turn, first to last.
pub open spec fn published_all(
    before: SnapshotView,
    capacity: nat,
    table_size: nat,
    readings: Seq<RawSnapshot>,
) -> SnapshotView
    decreases readings.len(),
{
    if readings.len() == 0 {
        before
    } else {
        published(
            published_all(before, capacity, table_size, readings.drop_last()),
            capacity,
            table_size,
            readings.last(),
        )
    }
}

/// The used memory of each reading, in the readings' order.
pub open spec fn used_memory_of(readings: Seq<RawSnapshot>) -> Seq<u64> {
    Seq::new(readings.len(), |tick: int| readings[tick].used_memory)
}

/// After any number of readings the memory history holds the used memory of
/// the most recent ones, one sample per reading and oldest first, as far as
/// the capacity goes; the series numbers them from 1.
pub proof fn lemma_memory_follows_the_readings(
    capacity: nat,
    table_size: nat,
    readings: Seq<RawSnapshot>,
)
    ensures
        published_all(initial(), capacity, table_size, readings).memory == most_recent(
            used_memory_of(readings),
            capacity,
        ),
        published_all(initial(), capacity, table_size, readings).memory.len() == at_most(
            readings.len(),
            capacity,
        ),
        readings.len() <= u64::MAX ==> published_all(
            initial(),
            capacity,
            table_size,
            readings,
        ).ticks == readings.len(),
{
    lemma_memory_is_pushed_all(capacity, table_size, readings);
    lemma_pushes_keep_most_recent(Seq::empty(), capacity, used_memory_of(readings));
    assert(Seq::<u64>::empty() + used_memory_of(readings) =~= used_memory_of(readings));
}

proof fn lemma_memory_is_pushed_all(capacity: nat, table_size: nat, readings: Seq<RawSnapshot>)
    ensures
        published_all(initial(), capacity, table_size, readings).memory == pushed_all(
            Seq::empty(),
            capacity,
            used_memory_of(readings),
        ),
        published_all(initial(), capacity, table_size, readings).ticks == at_most(
            readings.len(),
            u64::MAX as nat,
        ),
    decreases readings.len(),
{
    if readings.len() > 0 {
        lemma_memory_is_pushed_all(capacity, table_size, readings.drop_last());
        assert(used_memory_of(readings).drop_last() =~= used_memory_of(readings.drop_last()));
    }
}

proof fn lemma_published_names_are_distinct(
    capacity: nat,
    table_size: nat,
    readings: Seq<RawSnapshot>,
)
    ensures
        distinct_names(published_all(initial(), capacity, table_size, readings).cpus),
    decreases readings.len(),
{
    if readings.len() > 0 {
        let earlier = published_all(initial(), capacity, table_size, readings.drop_last());
        lemma_published_names_are_distinct(capacity, table_size, readings.drop_last());
        lemma_observations_keep_identities(earlier.cpus, capacity, readings.last().cpus@);
    }
}

/// After any number of readings, a CPU stream that each of them names once
/// is level with the memory stream: the two histories are of one length.
pub proof fn lemma_steady_stream_is_level(
    capacity: nat,
    table_size: nat,
    readings: Seq<RawSnapshot>,
    name: Seq<char>,
)
    requires
        readings.len() > 0,
        forall|tick: int|
            0 <= tick < readings.len() ==> usages_of((#[trigger] readings[tick]).cpus@, name).len()
                == 1,
    ensures
        ({
            let state = published_all(initial(), capacity, table_size, readings);
            &&& slot_of(state.cpus, name) is Some
            &&& state.cpus[slot_of(state.cpus, name)->0].samples.len() == state.memory.len()
        }),
    decreases readings.len(),
{
    let earlier = readings.drop_last();
    let before = published_all(initial(), capacity, table_size, earlier);
    lemma_memory_follows_the_readings(capacity, table_size, earlier);
    lemma_published_names_are_distinct(capacity, table_size, earlier);
    if earlier.len() > 0 {
        assert forall|tick: int| 0 <= tick < earlier.len() implies usages_of(
            (#[trigger] earlier[tick]).cpus@,
            name,
        ).len() == 1 by {
            assert(earlier[tick] == readings[tick]);
        }
        lemma_steady_stream_is_level(capacity, table_size, earlier, name);
    } else {
        lemma_slot_of(before.cpus, name);
    }
    lemma_steady_stream_stays_level(before, capacity, table_size, readings.last(), name);
}

/// A CPU stream that every reading names once keeps step with the memory
/// stream: where the two histories were of one length before a reading was
/// published, or the stream is new and nothing was published yet, they are of
/// one length after it. No published state shows one of them a tick ahead of
/// the other.
pub proof fn lemma_steady_stream_stays_level(
    before: SnapshotView,
    capacity: nat,
    table_size: nat,
    raw: RawSnapshot,
    name: Seq<char>,
)
    requires
        distinct_names(before.cpus),
        before.memory.len() <= capacity,
        usages_of(raw.cpus@, name).len() == 1,
        match slot_of(before.cpus, name) {
            Some(at) => before.cpus[at].samples.len() == before.memory.len(),
            None => before.memory.len() == 0,
        },
    ensures
        ({
            let after = published(before, capacity, table_size, raw);
            &&& slot_of(after.cpus, name) is Some
            &&& after.cpus[slot_of(after.cpus, name)->0].samples.len() == after.memory.len()
        }),
{
    let usages = usages_of(raw.cpus@, name);
    lemma_observations_reach_their_identity(before.cpus, capacity, raw.cpus@, name);
    assert(usages.drop_last() =~= Seq::<u64>::empty());
    assert forall|held: Seq<u64>| pushed_all(held, capacity, usages) == pushed(
        held,
        capacity,
        usages.last(),
    ) by {
        assert(pushed_all(held, capacity, usages.drop_last()) == held);
    }
}

/// The smaller of two numbers.
pub open spec fn at_most(a: nat, b: nat) -> nat {
    if a < b {
        a
    } else {
        b
    }
}

/// The state that one writer updates and any number of readers draw from.
pub struct Snapshot {
    total_memory: u64,
    memory: HistoryBuffer,
    memory_series: Vec<SeriesPoint>,
    cpu_usage: u64,
    cpus: CpuRegistry,
    network: NetworkTotals,
    processes: Vec<RankedProcessRow>,
    table_size: usize,
    ticks: u64,
    readings: Ghost<Seq<RawSnapshot>>,
}

impl View for Snapshot {
    type V = SnapshotView;

    closed spec fn view(&self) -> SnapshotView {
        SnapshotView {
            total_memory: self.total_memory,
            memory: self.memory@,
            cpu_usage: self.cpu_usage,
            cpus: self.cpus@,
            packets_received: self.network.received as nat,
            packets_transmitted: self.network.transmitted as nat,
            processes: rows_text(self.processes@),
            ticks: self.ticks as nat,
        }
    }
}

impl Snapshot {
    /// The most samples kept per stream.
    pub closed spec fn spec_history_capacity(&self) -> usize {
        self.memory.capacity()
    }

    /// The most lines in the process table.
    pub closed spec fn spec_table_size(&self) -> usize {
        self.table_size
    }

    /// The series of the memory stream as it is kept.
    pub closed spec fn spec_memory_series(&self) -> Seq<SeriesPoint> {
        self.memory_series@
    }

    /// The registry of CPU streams as it is kept.
    pub closed spec fn spec_registry(&self) -> CpuRegistry {
        self.cpus
    }

    /// The readings that were published into this snapshot, first to last.
    pub closed spec fn readings(&self) -> Seq<RawSnapshot> {
        self.readings@
    }

    /// What holds of every snapshot that a reader can get. It is the state
    /// after a whole number of readings, each published whole: never a mix
    /// of two. Each series is that of its history as it stands, every
    /// history is within the one capacity, the memory history has one sample
    /// per published reading up to that capacity, and the table is within
    /// its size.
    pub open spec fn wf(&self) -> bool {
        &&& self@ == published_all(
            initial(),
            self.history_capacity() as nat,
            self.table_size() as nat,
            self.readings(),
        )
        &&& self@.memory.len() == at_most(self@.ticks, self.history_capacity() as nat)
        &&& self.spec_memory_series() == series_of(self@.memory)
        &&& self.spec_registry().wf()
        &&& self.spec_registry()@ == self@.cpus
        &&& self.spec_registry().capacity() == self.history_capacity()
        &&& self@.processes.len() <= self.table_size()
        &&& self@.ticks <= u64::MAX
    }

    /// The state at startup: nothing recorded, every value at zero.
    pub fn new(config: &Config) -> (snapshot: Self)
        ensures
            snapshot.wf(),
            snapshot@ == initial(),
            snapshot.readings() == Seq::<RawSnapshot>::empty(),
            snapshot.history_capacity() == config.history_capacity,
            snapshot.table_size() == config.table_size,
    {
        let memory = HistoryBuffer::new(config.history_capacity);
        let memory_series = materialize(&memory);
        let snapshot = Snapshot {
            total_memory: 0,
            memory,
            memory_series,
            cpu_usage: 0,
            cpus: CpuRegistry::new(config.history_capacity),
            network: NetworkTotals::zero(),
            processes: Vec::new(),
            table_size: config.table_size,
            ticks: 0,
            readings: Ghost(Seq::empty()),
        };
        assert(snapshot@.processes =~= Seq::<RowText>::empty());
        snapshot
    }

    /// Takes one reading into the state: the memory and CPU samples are
    /// pushed into their histories, the series are derived again, and the
    /// packet totals and the process table are computed from the reading.
    pub fn publish(&mut self, raw: &RawSnapshot)
        requires
            old(self).wf(),
            raw.usable(),
        ensures
            final(self).wf(),
            final(self).history_capacity() == old(self).history_capacity(),
            final(self).table_size() == old(self).table_size(),
            final(self).readings() == old(self).readings().push(*raw),
            final(self)@ == published(
                old(self)@,
                old(self).history_capacity() as nat,
                old(self).table_size() as nat,
                *raw,
            ),
    {
        let rows = rank(&raw.processes, raw.logical_cpus, self.table_size);
        let totals = aggregate(&raw.interfaces);
        self.memory.push(raw.used_memory);
        self.memory_series = materialize(&self.memory);
        self.cpus.observe_all(&raw.cpus);
        self.total_memory = raw.total_memory;
        self.cpu_usage = raw.global_cpu_usage;
        self.network = totals;
        self.processes = rows;
        if self.ticks < u64::MAX {
            self.ticks = self.ticks + 1;
        }
        self.readings = Ghost(self.readings@.push(*raw));
        assert(self.readings@.drop_last() =~= old(self).readings@);
    }

    /// A CPU stream that every published reading names once is level with
    /// the memory stream in this snapshot: the two histories are of one
    /// length, and so are the two series. What a reader sees of such a stream
    /// and of memory belongs to the same tick.
    pub proof fn lemma_streams_of_one_generation(&self, name: Seq<char>)
        requires
            self.wf(),
            self.readings().len() > 0,
            forall|tick: int|
                0 <= tick < self.readings().len() ==> usages_of(
                    (#[trigger] self.readings()[tick]).cpus@,
                    name,
                ).len() == 1,
        ensures
            slot_of(self@.cpus, name) is Some,
            ({
                let at = slot_of(self@.cpus, name)->0;
                &&& 0 <= at < self@.cpus.len()
                &&& self@.cpus[at].samples.len() == self@.memory.len()
                &&& self.spec_registry().spec_identities()[at].spec_series().len()
                    == self.spec_memory_series().len()
            }),
    {
        lemma_steady_stream_is_level(
            self.history_capacity() as nat,
            self.table_size() as nat,
            self.readings(),
            name,
        );
        lemma_slot_of(self@.cpus, name);
        let at = slot_of(self@.cpus, name)->0;
        assert(self.spec_registry().spec_identities()[at].wf());
    }

    /// The most samples kept per stream.
    #[verifier::when_used_as_spec(spec_history_capacity)]
    pub fn history_capacity(&self) -> (capacity: usize)
        ensures
            capacity == self.spec_history_capacity(),
    {
        self.memory.capacity()
    }

    /// The most lines in the process table.
    #[verifier::when_used_as_spec(spec_table_size)]
    pub fn table_size(&self) -> (size: usize)
        ensures
            size == self.spec_table_size(),
    {
        self.table_size
    }

    /// Total memory of the host, in bytes.
    pub fn total_memory(&self) -> (bytes: u64)
        ensures
            bytes == self@.total_memory,
    {
        self.total_memory
    }

    /// The used memory of the last reading published, if there was one and
    /// the history keeps anything.
    pub fn used_memory(&self) -> (bytes: Option<u64>)
        ensures
            bytes == if self@.memory.len() > 0 {
                Some(self@.memory.last())
            } else {
                None
            },
    {
        self.memory.latest()
    }

    /// The history of used memory.
    pub fn memory(&self) -> (history: &HistoryBuffer)
        ensures
            history@ == self@.memory,
            history.capacity() == self.history_capacity(),
    {
        &self.memory
    }

    /// The chart coordinates of used memory.
    pub fn memory_series(&self) -> (series: &Vec<SeriesPoint>)
        ensures
            series@ == self.spec_memory_series(),
    {
        &self.memory_series
    }

    /// The load over all CPUs at the last reading.
    pub fn cpu_usage(&self) -> (usage: u64)
        ensures
            usage == self@.cpu_usage,
    {
        self.cpu_usage
    }

    /// The CPU streams.
    pub fn cpus(&self) -> (registry: &CpuRegistry)
        ensures
            *registry == self.spec_registry(),
    {
        &self.cpus
    }

    /// The packet totals of the last reading.
    pub fn network(&self) -> (totals: NetworkTotals)
        ensures
            totals.received == self@.packets_received,
            totals.transmitted == self@.packets_transmitted,
    {
        self.network
    }

    /// The process table of the last reading.
    pub fn processes(&self) -> (rows: &Vec<RankedProcessRow>)
        ensures
            rows_text(rows@) == self@.processes,
    {
        &self.processes
    }

    /// The number of readings published.
    pub fn ticks(&self) -> (ticks: u64)
        ensures
            ticks == self@.ticks,
    {
        self.ticks
    }
}

} // verus!
