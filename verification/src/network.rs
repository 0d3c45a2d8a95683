//! Totals of the packet counters over all network interfaces.

use vstd::prelude::*;

verus! {

/// The packet counters of one interface, as counted since the host started.
#[derive(Clone, Debug, PartialEq, Eq)]
pub struct InterfaceCounters {
    pub name: String,
    pub received: u64,
    pub transmitted: u64,
}

/// Packets received and transmitted over all interfaces. The totals are twice
/// as wide as a counter, so no number of interfaces makes them overflow.
#[derive(Clone, Copy, Debug, PartialEq, Eq)]
pub struct NetworkTotals {
    pub received: u128,
    pub transmitted: u128,
}

/// The sum of the received-packet counters.
pub open spec fn received_sum(interfaces: Seq<InterfaceCounters>) -> nat
    decreases interfaces.len(),
{
    if interfaces.len() == 0 {
        0
    } else {
        received_sum(interfaces.drop_last()) + interfaces.last().received as nat
    }
}

/// The sum of the transmitted-packet counters.
pub open spec fn transmitted_sum(interfaces: Seq<InterfaceCounters>) -> nat
    decreases interfaces.len(),
{
    if interfaces.len() == 0 {
        0
    } else {
        transmitted_sum(interfaces.drop_last()) + interfaces.last().transmitted as nat
    }
}

proof fn lemma_sums_are_bounded(interfaces: Seq<InterfaceCounters>)
    ensures
        received_sum(interfaces) <= interfaces.len() * u64::MAX,
        transmitted_sum(interfaces) <= interfaces.len() * u64::MAX,
    decreases interfaces.len(),
{
    if interfaces.len() > 0 {
        lemma_sums_are_bounded(interfaces.drop_last());
        assert(interfaces.len() * u64::MAX == interfaces.drop_last().len() * u64::MAX + u64::MAX)
            by (nonlinear_arith)
            requires
                interfaces.len() == interfaces.drop_last().len() + 1,
        ;
    }
}

impl NetworkTotals {
    /// Both totals at zero.
    pub fn zero() -> (totals: Self)
        ensures
            totals.received == 0,
            totals.transmitted == 0,
    {
        NetworkTotals { received: 0, transmitted: 0 }
    }

    /// The larger of the two totals: the value that a bar chart of both has
    /// to reach.
    pub fn peak(&self) -> (peak: u128)
        ensures
            peak >= self.received,
            peak >= self.transmitted,
            peak == self.received || peak == self.transmitted,
    {
        if self.received > self.transmitted {
            self.received
        } else {
            self.transmitted
        }
    }

    /// The label under which the received total is shown.
    pub fn received_label() -> (label: &'static str)
        ensures
            label@ == "Packets In"@,
    {
        "Packets In"
    }

    /// The label under which the transmitted total is shown.
    pub fn transmitted_label() -> (label: &'static str)
        ensures
            label@ == "Packets Out"@,
    {
        "Packets Out"
    }
}

/// Sums the received and the transmitted packets over `interfaces`, each on
/// its own; both are zero where there is no interface.
pub fn aggregate(interfaces: &Vec<InterfaceCounters>) -> (totals: NetworkTotals)
    ensures
        totals.received == received_sum(interfaces@),
        totals.transmitted == transmitted_sum(interfaces@),
{
    let mut received: u128 = 0;
    let mut transmitted: u128 = 0;
    let mut i: usize = 0;
    while i < interfaces.len()
        invariant
            i <= interfaces.len(),
            received == received_sum(interfaces@.take(i as int)),
            transmitted == transmitted_sum(interfaces@.take(i as int)),
        decreases interfaces.len() - i,
    {
        proof {
            lemma_sums_are_bounded(interfaces@.take(i as int));
            assert(i * u64::MAX <= usize::MAX * u64::MAX) by (nonlinear_arith)
                requires
                    i <= usize::MAX,
            ;
            assert(usize::MAX * u64::MAX + u64::MAX <= u128::MAX) by (nonlinear_arith)
                requires
                    usize::MAX <= u64::MAX,
            ;
            assert(interfaces@.take(i + 1).drop_last() =~= interfaces@.take(i as int));
        }
        received = received + interfaces[i].received as u128;
        transmitted = transmitted + interfaces[i].transmitted as u128;
        i += 1;
    }
    assert(interfaces@.take(i as int) =~= interfaces@);
    NetworkTotals { received, transmitted }
}

/// Without interfaces both totals are zero.
pub proof fn lemma_aggregate_of_nothing()
    ensures
        received_sum(Seq::empty()) == 0,
        transmitted_sum(Seq::empty()) == 0,
{
}

/// The totals of two interfaces are the sums of their counters.
pub proof fn lemma_aggregate_of_two(first: InterfaceCounters, second: InterfaceCounters)
    ensures
        received_sum(seq![first, second]) == first.received + second.received,
        transmitted_sum(seq![first, second]) == first.transmitted + second.transmitted,
{
    let both = seq![first, second];
    assert(both.drop_last() =~= seq![first]);
    assert(seq![first].drop_last() =~= Seq::<InterfaceCounters>::empty());
    reveal_with_fuel(received_sum, 3);
    reveal_with_fuel(transmitted_sum, 3);
}

/// Adding an interface adds its counters to the totals, so the totals do
/// not depend on how the interfaces are grouped.
pub proof fn lemma_aggregate_is_additive(left: Seq<InterfaceCounters>, right: Seq<InterfaceCounters>)
    ensures
        received_sum(left + right) == received_sum(left) + received_sum(right),
        transmitted_sum(left + right) == transmitted_sum(left) + transmitted_sum(right),
    decreases right.len(),
{
    if right.len() == 0 {
        assert(left + right =~= left);
    } else {
        lemma_aggregate_is_additive(left, right.drop_last());
        assert((left + right).drop_last() =~= left + right.drop_last());
    }
}

} // verus!
