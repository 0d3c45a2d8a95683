//! The CPU streams that were ever seen, by name, in the order of first sight.

use vstd::prelude::*;
use crate::history::{pushed, pushed_all, HistoryBuffer};
use crate::series::{materialize, series_of, SeriesPoint};

verus! {

/// The color in which a stream is drawn.
#[derive(Clone, Copy, Debug, PartialEq, Eq)]
pub enum DisplayColor {
    Red,
    Green,
    Yellow,
    Blue,
    Magenta,
    Cyan,
    Gray,
    White,
}

impl Default for DisplayColor {
    /// The color that a stream gets when it is first seen.
    fn default() -> (color: Self)
        ensures
            color == DisplayColor::Green,
    {
        DisplayColor::Green
    }
}

/// The load of one CPU as the metric source reports it.
#[derive(Clone, Debug, PartialEq, Eq)]
pub struct CpuSample {
    pub name: String,
    /// Load in hundredths of a percent.
    pub usage: u64,
}

/// What an identity stands for: its name, the samples it holds, oldest first,
/// and its color. Its series follows from the samples.
pub struct IdentityView {
    pub name: Seq<char>,
    pub samples: Seq<u64>,
    pub color: DisplayColor,
}

/// One CPU stream under its stable name.
#[derive(Debug)]
pub struct CpuIdentity {
    name: String,
    history: HistoryBuffer,
    series: Vec<SeriesPoint>,
    color: DisplayColor,
}

impl View for CpuIdentity {
    type V = IdentityView;

    closed spec fn view(&self) -> IdentityView {
        IdentityView { name: self.name@, samples: self.history@, color: self.color }
    }
}

impl CpuIdentity {
    /// The most samples the identity keeps.
    pub closed spec fn capacity(&self) -> usize {
        self.history.capacity()
    }

    /// The series that the identity carries.
    pub closed spec fn spec_series(&self) -> Seq<SeriesPoint> {
        self.series@
    }

    /// The history is within its capacity and the series is that of the
    /// history as it stands.
    pub open spec fn wf(&self) -> bool {
        &&& self@.samples.len() <= self.capacity()
        &&& self.spec_series() == series_of(self@.samples)
    }

    fn new(name: &str, capacity: usize) -> (identity: Self)
        ensures
            identity.wf(),
            identity.capacity() == capacity,
            identity@ == (IdentityView {
                name: name@,
                samples: Seq::empty(),
                color: DisplayColor::Green,
            }),
    {
        let history = HistoryBuffer::new(capacity);
        let series = materialize(&history);
        CpuIdentity { name: name.to_owned(), history, series, color: DisplayColor::default() }
    }

    fn record(&mut self, usage: u64)
        requires
            old(self).wf(),
        ensures
            final(self).wf(),
            final(self).capacity() == old(self).capacity(),
            final(self)@ == (IdentityView {
                samples: pushed(old(self)@.samples, old(self).capacity() as nat, usage),
                ..old(self)@
            }),
    {
        self.history.push(usage);
        self.series = materialize(&self.history);
    }

    /// The stable name.
    pub fn name(&self) -> (name: &str)
        ensures
            name@ == self@.name,
    {
        self.name.as_str()
    }

    /// The samples kept, oldest first.
    pub fn history(&self) -> (history: &HistoryBuffer)
        ensures
            history@ == self@.samples,
            history.capacity() == self.capacity(),
    {
        &self.history
    }

    /// The chart coordinates of the samples kept.
    pub fn series(&self) -> (series: &Vec<SeriesPoint>)
        ensures
            series@ == self.spec_series(),
    {
        &self.series
    }

    /// The color of the stream.
    pub fn color(&self) -> (color: DisplayColor)
        ensures
            color == self@.color,
    {
        self.color
    }
}

/// Whether `at` is the place of the identity named `name`: the first one of
/// that name.
pub open spec fn is_slot(identities: Seq<IdentityView>, name: Seq<char>, at: int) -> bool {
    &&& 0 <= at < identities.len()
    &&& identities[at].name == name
    &&& forall|earlier: int| 0 <= earlier < at ==> (#[trigger] identities[earlier]).name != name
}

/// The place of the identity named `name`, if there is one.
pub open spec fn slot_of(identities: Seq<IdentityView>, name: Seq<char>) -> Option<int> {
    if exists|at: int| is_slot(identities, name, at) {
        Some(choose|at: int| is_slot(identities, name, at))
    } else {
        None
    }
}

/// The names, in the identities' order.
pub open spec fn names_of(identities: Seq<IdentityView>) -> Seq<Seq<char>> {
    Seq::new(identities.len(), |at: int| identities[at].name)
}

/// No two identities have the same name.
pub open spec fn distinct_names(identities: Seq<IdentityView>) -> bool {
    forall|a: int, b: int|
        0 <= a < b < identities.len() ==> (#[trigger] identities[a]).name != (
        #[trigger] identities[b]).name
}

/// The identities after `usage` was observed under `name`. A known name has
/// the sample pushed into its history, and nothing else changes; an unknown
/// one is added at the end, in the default color, with the sample as its
/// whole history.
pub open spec fn observed(
    identities: Seq<IdentityView>,
    capacity: nat,
    name: Seq<char>,
    usage: u64,
) -> Seq<IdentityView> {
    match slot_of(identities, name) {
        Some(at) => identities.update(
            at,
            IdentityView {
                samples: pushed(identities[at].samples, capacity, usage),
                ..identities[at]
            },
        ),
        None => identities.push(
            IdentityView {
                name,
                samples: pushed(Seq::empty(), capacity, usage),
                color: DisplayColor::Green,
            },
        ),
    }
}

/// The identities after each of `samples` was observed in turn, first to last.
pub open spec fn observed_all(
    identities: Seq<IdentityView>,
    capacity: nat,
    samples: Seq<CpuSample>,
) -> Seq<IdentityView>
    decreases samples.len(),
{
    if samples.len() == 0 {
        identities
    } else {
        observed(
            observed_all(identities, capacity, samples.drop_last()),
            capacity,
            samples.last().name@,
            samples.last().usage,
        )
    }
}

/// The samples that `samples` hold under `name`, in their order.
pub open spec fn usages_of(samples: Seq<CpuSample>, name: Seq<char>) -> Seq<u64>
    decreases samples.len(),
{
    if samples.len() == 0 {
        Seq::empty()
    } else if samples.last().name@ == name {
        usages_of(samples.drop_last(), name).push(samples.last().usage)
    } else {
        usages_of(samples.drop_last(), name)
    }
}

/// The place of a name is the one place that `is_slot` accepts, and there is
/// none exactly when no identity has the name.
pub proof fn lemma_slot_of(identities: Seq<IdentityView>, name: Seq<char>)
    ensures
        forall|at: int| is_slot(identities, name, at) ==> slot_of(identities, name) == Some(at),
        slot_of(identities, name) is Some ==> is_slot(
            identities,
            name,
            slot_of(identities, name)->0,
        ),
        slot_of(identities, name) is None <==> forall|at: int|
            0 <= at < identities.len() ==> (#[trigger] identities[at]).name != name,
{
    assert forall|at: int| is_slot(identities, name, at) implies slot_of(identities, name) == Some(
        at,
    ) by {
        let chosen = choose|at: int| is_slot(identities, name, at);
        if chosen < at {
            assert(identities[chosen].name != name);
        }
        if at < chosen {
            assert(identities[at].name != name);
        }
    }
    if exists|at: int| 0 <= at < identities.len() && (#[trigger] identities[at]).name == name {
        let any = choose|at: int| 0 <= at < identities.len() && (#[trigger] identities[at]).name == name;
        let first = lemma_first_of_name(identities, name, any);
        assert(is_slot(identities, name, first));
    }
}

proof fn lemma_first_of_name(identities: Seq<IdentityView>, name: Seq<char>, any: int) -> (first: int)
    requires
        0 <= any < identities.len(),
        identities[any].name == name,
    ensures
        is_slot(identities, name, first),
    decreases any,
{
    if exists|earlier: int| 0 <= earlier < any && (#[trigger] identities[earlier]).name == name {
        let earlier = choose|earlier: int|
            0 <= earlier < any && (#[trigger] identities[earlier]).name == name;
        lemma_first_of_name(identities, name, earlier)
    } else {
        any
    }
}

/// Observing a name that is known changes the history of its identity and
/// nothing else: the number of identities, their names, their order and
/// their colors stay, and so does every other identity.
pub proof fn lemma_observe_known(
    identities: Seq<IdentityView>,
    capacity: nat,
    name: Seq<char>,
    usage: u64,
    at: int,
)
    requires
        distinct_names(identities),
        0 <= at < identities.len(),
        identities[at].name == name,
    ensures
        observed(identities, capacity, name, usage).len() == identities.len(),
        names_of(observed(identities, capacity, name, usage)) == names_of(identities),
        observed(identities, capacity, name, usage)[at].color == identities[at].color,
        observed(identities, capacity, name, usage)[at].samples == pushed(
            identities[at].samples,
            capacity,
            usage,
        ),
        forall|other: int|
            0 <= other < identities.len() && other != at ==> observed(
                identities,
                capacity,
                name,
                usage,
            )[other] == identities[other],
        distinct_names(observed(identities, capacity, name, usage)),
{
    assert(is_slot(identities, name, at));
    lemma_slot_of(identities, name);
    assert(names_of(observed(identities, capacity, name, usage)) =~= names_of(identities));
}

/// Observing a name that is not known adds one identity at the end, after
/// all those seen before, which stay as they were.
pub proof fn lemma_observe_unknown(
    identities: Seq<IdentityView>,
    capacity: nat,
    name: Seq<char>,
    usage: u64,
)
    requires
        distinct_names(identities),
        forall|at: int| 0 <= at < identities.len() ==> (#[trigger] identities[at]).name != name,
    ensures
        observed(identities, capacity, name, usage).len() == identities.len() + 1,
        names_of(observed(identities, capacity, name, usage)) == names_of(identities).push(name),
        observed(identities, capacity, name, usage).last() == (IdentityView {
            name,
            samples: pushed(Seq::empty(), capacity, usage),
            color: DisplayColor::Green,
        }),
        forall|other: int|
            0 <= other < identities.len() ==> observed(identities, capacity, name, usage)[other]
                == identities[other],
        distinct_names(observed(identities, capacity, name, usage)),
{
    lemma_slot_of(identities, name);
    assert(names_of(observed(identities, capacity, name, usage)) =~= names_of(identities).push(
        name,
    ));
}

/// One observation never removes an identity, never moves one and never
/// gives one another name or color; it keeps the names distinct and the
/// histories within the capacity.
pub proof fn lemma_observe_keeps_identities(
    identities: Seq<IdentityView>,
    capacity: nat,
    name: Seq<char>,
    usage: u64,
)
    requires
        distinct_names(identities),
    ensures
        distinct_names(observed(identities, capacity, name, usage)),
        identities.len() <= observed(identities, capacity, name, usage).len() <= identities.len()
            + 1,
        forall|at: int|
            0 <= at < identities.len() ==> {
                &&& (#[trigger] observed(identities, capacity, name, usage)[at]).name
                    == identities[at].name
                &&& observed(identities, capacity, name, usage)[at].color == identities[at].color
            },
{
    lemma_slot_of(identities, name);
    match slot_of(identities, name) {
        Some(at) => {
            lemma_observe_known(identities, capacity, name, usage, at);
        },
        None => {
            lemma_observe_unknown(identities, capacity, name, usage);
        },
    }
}

/// However many observations are made, the identities that were there stay,
/// each at its place, under its name and in its color, and no name comes
/// to stand twice.
pub proof fn lemma_observations_keep_identities(
    identities: Seq<IdentityView>,
    capacity: nat,
    samples: Seq<CpuSample>,
)
    requires
        distinct_names(identities),
    ensures
        distinct_names(observed_all(identities, capacity, samples)),
        identities.len() <= observed_all(identities, capacity, samples).len(),
        forall|at: int|
            0 <= at < identities.len() ==> {
                &&& (#[trigger] observed_all(identities, capacity, samples)[at]).name
                    == identities[at].name
                &&& observed_all(identities, capacity, samples)[at].color == identities[at].color
            },
    decreases samples.len(),
{
    if samples.len() > 0 {
        let earlier = observed_all(identities, capacity, samples.drop_last());
        lemma_observations_keep_identities(identities, capacity, samples.drop_last());
        lemma_observe_keeps_identities(
            earlier,
            capacity,
            samples.last().name@,
            samples.last().usage,
        );
    }
}

/// What one observation does to the identity of any name: under its own
/// name the sample is pushed, and the identity is made first where it is
/// new; under another name nothing changes for it.
proof fn lemma_observe_by_name(
    identities: Seq<IdentityView>,
    capacity: nat,
    name: Seq<char>,
    usage: u64,
    other: Seq<char>,
)
    requires
        distinct_names(identities),
    ensures
        ({
            let after = observed(identities, capacity, name, usage);
            match slot_of(identities, other) {
                Some(at) => {
                    &&& slot_of(after, other) == Some(at)
                    &&& after[at].color == identities[at].color
                    &&& after[at].samples == if other == name {
                        pushed(identities[at].samples, capacity, usage)
                    } else {
                        identities[at].samples
                    }
                },
                None => if other == name {
                    &&& slot_of(after, other) == Some(identities.len() as int)
                    &&& after[identities.len() as int].color == DisplayColor::Green
                    &&& after[identities.len() as int].samples == pushed(
                        Seq::empty(),
                        capacity,
                        usage,
                    )
                } else {
                    slot_of(after, other) is None
                },
            }
        }),
{
    let after = observed(identities, capacity, name, usage);
    lemma_slot_of(identities, name);
    lemma_slot_of(identities, other);
    lemma_slot_of(after, other);
    match slot_of(identities, name) {
        Some(known) => {
            lemma_observe_known(identities, capacity, name, usage, known);
            assert forall|at: int| 0 <= at < identities.len() implies (#[trigger] after[at]).name
                == identities[at].name by {
                assert(names_of(after)[at] == names_of(identities)[at]);
            }
            match slot_of(identities, other) {
                Some(at) => {
                    assert(is_slot(after, other, at));
                },
                None => {},
            }
        },
        None => {
            lemma_observe_unknown(identities, capacity, name, usage);
            match slot_of(identities, other) {
                Some(at) => {
                    assert(is_slot(after, other, at));
                },
                None => {
                    if other == name {
                        assert(is_slot(after, other, identities.len() as int));
                    }
                },
            }
        },
    }
}

/// Each identity receives exactly the samples that were observed under its
/// name, in their order, and nothing else touches it. A name that was not
/// known and is observed gets an identity behind those that were there, in
/// the default color; one that is not observed gets none.
pub proof fn lemma_observations_reach_their_identity(
    identities: Seq<IdentityView>,
    capacity: nat,
    samples: Seq<CpuSample>,
    name: Seq<char>,
)
    requires
        distinct_names(identities),
    ensures
        ({
            let after = observed_all(identities, capacity, samples);
            let usages = usages_of(samples, name);
            match slot_of(identities, name) {
                Some(at) => {
                    &&& slot_of(after, name) == Some(at)
                    &&& after[at].color == identities[at].color
                    &&& after[at].samples == pushed_all(identities[at].samples, capacity, usages)
                },
                None => if usages.len() == 0 {
                    slot_of(after, name) is None
                } else {
                    &&& slot_of(after, name) is Some
                    &&& slot_of(after, name)->0 >= identities.len()
                    &&& after[slot_of(after, name)->0].color == DisplayColor::Green
                    &&& after[slot_of(after, name)->0].samples == pushed_all(
                        Seq::empty(),
                        capacity,
                        usages,
                    )
                },
            }
        }),
    decreases samples.len(),
{
    let after = observed_all(identities, capacity, samples);
    let usages = usages_of(samples, name);
    if samples.len() == 0 {
        lemma_slot_of(identities, name);
        assert(usages.len() == 0);
        assert(after == identities);
    } else {
        let earlier = observed_all(identities, capacity, samples.drop_last());
        let last = samples.last();
        let before = usages_of(samples.drop_last(), name);
        lemma_observations_reach_their_identity(identities, capacity, samples.drop_last(), name);
        lemma_observations_keep_identities(identities, capacity, samples.drop_last());
        lemma_observe_by_name(earlier, capacity, last.name@, last.usage, name);
        assert(after == observed(earlier, capacity, last.name@, last.usage));
        if last.name@ == name {
            assert(usages == before.push(last.usage));
            assert(usages.drop_last() =~= before);
            assert(usages.last() == last.usage);
            match slot_of(identities, name) {
                Some(at) => {
                    assert(after[at].samples == pushed_all(
                        identities[at].samples,
                        capacity,
                        usages,
                    ));
                },
                None => {
                    if before.len() == 0 {
                        assert(slot_of(earlier, name) is None);
                        assert(slot_of(after, name) == Some(earlier.len() as int));
                        assert(pushed_all(Seq::empty(), capacity, before) == Seq::<u64>::empty());
                    } else {
                        let at = slot_of(earlier, name)->0;
                        assert(slot_of(after, name) == Some(at));
                    }
                    assert(after[slot_of(after, name)->0].samples == pushed_all(
                        Seq::empty(),
                        capacity,
                        usages,
                    ));
                },
            }
        } else {
            assert(usages == before);
        }
    }
}

/// The registry of CPU identities. Identities are added, never removed, and
/// keep the place at which they were added.
#[derive(Debug)]
pub struct CpuRegistry {
    capacity: usize,
    identities: Vec<CpuIdentity>,
}

impl View for CpuRegistry {
    type V = Seq<IdentityView>;

    closed spec fn view(&self) -> Seq<IdentityView> {
        Seq::new(self.identities@.len(), |at: int| self.identities@[at]@)
    }
}

impl CpuRegistry {
    /// The history capacity that every identity gets.
    pub closed spec fn spec_capacity(&self) -> usize {
        self.capacity
    }

    /// The identities as they are kept.
    pub closed spec fn spec_identities(&self) -> Seq<CpuIdentity> {
        self.identities@
    }

    /// Every identity is well formed and has the registry's capacity, the
    /// model lists the identities kept, and no name occurs twice.
    pub open spec fn wf(&self) -> bool {
        &&& self.spec_identities().len() == self@.len()
        &&& forall|at: int|
            0 <= at < self@.len() ==> {
                &&& (#[trigger] self.spec_identities()[at]).wf()
                &&& self.spec_identities()[at].capacity() == self.capacity()
                &&& self.spec_identities()[at]@ == self@[at]
            }
        &&& distinct_names(self@)
    }

    /// A registry without identities.
    pub fn new(capacity: usize) -> (registry: Self)
        ensures
            registry.wf(),
            registry.capacity() == capacity,
            registry@ == Seq::<IdentityView>::empty(),
    {
        let registry = CpuRegistry { capacity, identities: Vec::new() };
        assert(registry@ =~= Seq::<IdentityView>::empty());
        registry
    }

    /// The history capacity that every identity gets.
    #[verifier::when_used_as_spec(spec_capacity)]
    pub fn capacity(&self) -> (capacity: usize)
        ensures
            capacity == self.spec_capacity(),
    {
        self.capacity
    }

    /// The number of identities.
    pub fn len(&self) -> (len: usize)
        ensures
            len == self@.len(),
    {
        self.identities.len()
    }

    /// The identities, in the order in which their names were first seen.
    pub fn identities(&self) -> (identities: &Vec<CpuIdentity>)
        ensures
            identities@ == self.spec_identities(),
    {
        &self.identities
    }

    /// Where the identity named `name` stands, if it is known.
    pub fn position(&self, name: &str) -> (place: Option<usize>)
        ensures
            match place {
                Some(at) => slot_of(self@, name@) == Some(at as int),
                None => slot_of(self@, name@) is None,
            },
    {
        let wanted = name.to_owned();
        let mut at: usize = 0;
        while at < self.identities.len()
            invariant
                at <= self.identities@.len(),
                wanted@ == name@,
                forall|earlier: int| 0 <= earlier < at ==> (#[trigger] self@[earlier]).name != name@,
            decreases self.identities.len() - at,
        {
            if self.identities[at].name == wanted {
                proof {
                    assert(is_slot(self@, name@, at as int));
                    lemma_slot_of(self@, name@);
                }
                return Some(at);
            }
            at += 1;
        }
        proof {
            lemma_slot_of(self@, name@);
        }
        None
    }

    /// Records each of `samples` in turn.
    pub fn observe_all(&mut self, samples: &Vec<CpuSample>)
        requires
            old(self).wf(),
        ensures
            final(self).wf(),
            final(self).capacity() == old(self).capacity(),
            final(self)@ == observed_all(old(self)@, old(self).capacity() as nat, samples@),
    {
        let mut i: usize = 0;
        while i < samples.len()
            invariant
                i <= samples.len(),
                self.wf(),
                self.capacity() == old(self).capacity(),
                self@ == observed_all(
                    old(self)@,
                    old(self).capacity() as nat,
                    samples@.take(i as int),
                ),
            decreases samples.len() - i,
        {
            assert(samples@.take(i + 1).drop_last() =~= samples@.take(i as int));
            self.observe(samples[i].name.as_str(), samples[i].usage);
            i += 1;
        }
        assert(samples@.take(i as int) =~= samples@);
    }

    /// Records `usage` under `name`: the identity of that name is looked up,
    /// or added at the end where the name is new; the sample is pushed into
    /// its history and its series is derived again.
    pub fn observe(&mut self, name: &str, usage: u64)
        requires
            old(self).wf(),
        ensures
            final(self).wf(),
            final(self).capacity() == old(self).capacity(),
            final(self)@ == observed(old(self)@, old(self).capacity() as nat, name@, usage),
    {
        let place = self.position(name);
        proof {
            lemma_slot_of(self@, name@);
        }
        match place {
            Some(at) => {
                proof {
                    lemma_observe_known(self@, self.capacity as nat, name@, usage, at as int);
                }
                self.identities[at].record(usage);
                assert(self@ =~= observed(old(self)@, old(self).capacity() as nat, name@, usage));
            },
            None => {
                proof {
                    lemma_observe_unknown(self@, self.capacity as nat, name@, usage);
                }
                let mut identity = CpuIdentity::new(name, self.capacity);
                identity.record(usage);
                self.identities.push(identity);
                assert(self@ =~= observed(old(self)@, old(self).capacity() as nat, name@, usage));
            },
        }
    }
}

} // verus!
