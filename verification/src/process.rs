//! Ranking of processes by their share of the machine's CPU time.
//!
//! The share that a process is measured at counts one logical CPU as 100 %
//! and is a whole number of millionths of a percent. The normalized share is
//! that share divided by the number of logical CPUs. The table is ordered by
//! the exact quotient; only the text is rounded, to hundredths of a percent.

use vstd::prelude::*;
use vstd::arithmetic::div_mod::{
    lemma_div_is_ordered, lemma_div_is_ordered_by_denominator, lemma_fundamental_div_mod,
};
use vstd::string::StringExecFns;

verus! {

/// One process as the metric source reports it.
#[derive(Clone, Debug, PartialEq, Eq)]
pub struct ProcessSample {
    pub pid: u32,
    pub name: String,
    /// CPU share in millionths of a percent of one logical CPU.
    pub cpu_share: u64,
}

/// One line of the process table, ready for display.
#[derive(Clone, Debug, PartialEq, Eq)]
pub struct RankedProcessRow {
    /// The process id in decimal.
    pub pid: String,
    pub name: String,
    /// The normalized share with two decimal places and a trailing `%`.
    pub share: String,
}

/// The text of a table line.
pub struct RowText {
    pub pid: Seq<char>,
    pub name: Seq<char>,
    pub share: Seq<char>,
}

impl View for RankedProcessRow {
    type V = RowText;

    open spec fn view(&self) -> RowText {
        RowText { pid: self.pid@, name: self.name@, share: self.share@ }
    }
}

/// The texts of a sequence of table lines.
pub open spec fn rows_text(rows: Seq<RankedProcessRow>) -> Seq<RowText> {
    Seq::new(rows.len(), |k: int| rows[k]@)
}

// ---------------------------------------------------------------------------
// Text
// ---------------------------------------------------------------------------

/// The decimal digit for `d`, which is below ten.
pub open spec fn digit_char(d: nat) -> char
    recommends
        d < 10,
{
    if d == 0 {
        '0'
    } else if d == 1 {
        '1'
    } else if d == 2 {
        '2'
    } else if d == 3 {
        '3'
    } else if d == 4 {
        '4'
    } else if d == 5 {
        '5'
    } else if d == 6 {
        '6'
    } else if d == 7 {
        '7'
    } else if d == 8 {
        '8'
    } else {
        '9'
    }
}

/// `n` in decimal, most significant digit first, without leading zeros.
pub open spec fn decimal_text(n: nat) -> Seq<char>
    decreases n,
{
    if n < 10 {
        seq![digit_char(n)]
    } else {
        decimal_text(n / 10).push(digit_char(n % 10))
    }
}

/// A share of `hundredths` hundredths of a percent as a percentage with two
/// decimal places: 2500 reads `25.00%`, 7 reads `0.07%`.
pub open spec fn share_text(hundredths: nat) -> Seq<char> {
    decimal_text(hundredths / 100) + seq![
        '.',
        digit_char((hundredths / 10) % 10),
        digit_char(hundredths % 10),
        '%',
    ]
}

fn digit_str(d: u64) -> (text: &'static str)
    requires
        d < 10,
    ensures
        text@ == seq![digit_char(d as nat)],
{
    proof {
        reveal_strlit("0");
        reveal_strlit("1");
        reveal_strlit("2");
        reveal_strlit("3");
        reveal_strlit("4");
        reveal_strlit("5");
        reveal_strlit("6");
        reveal_strlit("7");
        reveal_strlit("8");
        reveal_strlit("9");
    }
    let text: &'static str = if d == 0 {
        "0"
    } else if d == 1 {
        "1"
    } else if d == 2 {
        "2"
    } else if d == 3 {
        "3"
    } else if d == 4 {
        "4"
    } else if d == 5 {
        "5"
    } else if d == 6 {
        "6"
    } else if d == 7 {
        "7"
    } else if d == 8 {
        "8"
    } else {
        "9"
    };
    assert(text@ =~= seq![digit_char(d as nat)]);
    text
}

fn push_decimal(out: &mut String, n: u64)
    ensures
        final(out)@ == old(out)@ + decimal_text(n as nat),
    decreases n,
{
    if n >= 10 {
        push_decimal(out, n / 10);
    }
    out.append(digit_str(n % 10));
    assert(out@ =~= old(out)@ + decimal_text(n as nat));
}

/// `n` in decimal.
pub fn decimal_string(n: u64) -> (text: String)
    ensures
        text@ == decimal_text(n as nat),
{
    let mut text = String::new();
    push_decimal(&mut text, n);
    assert(text@ =~= decimal_text(n as nat));
    text
}

/// A share as a percentage with two decimal places and a trailing `%`.
pub fn share_string(hundredths: u64) -> (text: String)
    ensures
        text@ == share_text(hundredths as nat),
{
    proof {
        reveal_strlit(".");
        reveal_strlit("%");
    }
    let mut text = String::new();
    push_decimal(&mut text, hundredths / 100);
    text.append(".");
    text.append(digit_str((hundredths / 10) % 10));
    text.append(digit_str(hundredths % 10));
    text.append("%");
    assert(text@ =~= share_text(hundredths as nat));
    text
}

// ---------------------------------------------------------------------------
// Normalizing
// ---------------------------------------------------------------------------

/// How many millionths of a percent `cpus` logical CPUs put into one
/// hundredth of a percent of the whole machine.
pub open spec fn parts_per_hundredth(cpus: nat) -> nat {
    cpus * 10_000
}

/// The share `raw`, in millionths of a percent, divided by the number of
/// logical CPUs and rounded to the nearest hundredth of a percent; a quotient
/// that lies exactly between two hundredths goes to the even one.
pub open spec fn normalized_share(raw: nat, cpus: nat) -> nat
    recommends
        cpus >= 1,
{
    let parts = parts_per_hundredth(cpus);
    let quotient = raw / parts;
    let rest = raw % parts;
    if 2 * rest > parts || (2 * rest == parts && quotient % 2 == 1) {
        quotient + 1
    } else {
        quotient
    }
}

/// The measured shares, in the samples' order.
pub open spec fn raw_shares(samples: Seq<ProcessSample>) -> Seq<nat> {
    Seq::new(samples.len(), |i: int| samples[i].cpu_share as nat)
}

/// Divides a share, in millionths of a percent, by the number of logical
/// CPUs and rounds it to hundredths of a percent.
pub fn normalize(raw: u64, logical_cpus: usize) -> (share: u64)
    requires
        logical_cpus >= 1,
    ensures
        share == normalized_share(raw as nat, logical_cpus as nat),
{
    let parts: u128 = (logical_cpus as u128) * 10_000;
    let wide: u128 = raw as u128;
    let quotient: u128 = wide / parts;
    let rest: u128 = wide % parts;
    let rest_to_go: u128 = parts - rest;
    proof {
        lemma_div_is_ordered_by_denominator(wide as int, 10_000, parts as int);
        assert(quotient <= wide / 10_000);
    }
    let rounded: u128 = if rest > rest_to_go || (rest == rest_to_go && quotient % 2 == 1) {
        quotient + 1
    } else {
        quotient
    };
    rounded as u64
}

/// The normalized share is the hundredth nearest to the exact quotient: it
/// is off by no more than half a hundredth, and not at all where the quotient
/// is a whole number of hundredths.
pub proof fn lemma_normalized_share_is_nearest(raw: nat, cpus: nat)
    requires
        cpus >= 1,
    ensures
        2 * (normalized_share(raw, cpus) * parts_per_hundredth(cpus) - raw) <= parts_per_hundredth(
            cpus,
        ),
        2 * (raw - normalized_share(raw, cpus) * parts_per_hundredth(cpus)) <= parts_per_hundredth(
            cpus,
        ),
        raw % parts_per_hundredth(cpus) == 0 ==> normalized_share(raw, cpus)
            * parts_per_hundredth(cpus) == raw,
{
    let parts = parts_per_hundredth(cpus);
    let quotient = raw / parts;
    lemma_fundamental_div_mod(raw as int, parts as int);
    assert((quotient + 1) * parts == quotient * parts + parts) by (nonlinear_arith);
    assert(parts * quotient == quotient * parts) by (nonlinear_arith);
}

/// Rounding keeps the order: a share that is not smaller does not get the
/// smaller text.
pub proof fn lemma_normalized_share_is_monotone(low: nat, high: nat, cpus: nat)
    requires
        cpus >= 1,
        low <= high,
    ensures
        normalized_share(low, cpus) <= normalized_share(high, cpus),
{
    let parts = parts_per_hundredth(cpus);
    lemma_div_is_ordered(low as int, high as int, parts as int);
    lemma_fundamental_div_mod(low as int, parts as int);
    lemma_fundamental_div_mod(high as int, parts as int);
    if low / parts == high / parts {
        assert(low % parts <= high % parts);
    }
}

// ---------------------------------------------------------------------------
// Ranking
// ---------------------------------------------------------------------------

/// Whether entry `i` is shown above entry `j`: it has the larger share, or
/// the same share and stands later in the input.
pub open spec fn outranks(shares: Seq<nat>, i: int, j: int) -> bool {
    shares[i] > shares[j] || (shares[i] == shares[j] && i > j)
}

/// Whether `order` lists each of the first `count` entries of `shares` once,
/// every entry above those that it outranks.
pub open spec fn is_ranking_of_first(shares: Seq<nat>, count: int, order: Seq<int>) -> bool {
    &&& order.len() == count
    &&& forall|k: int| 0 <= k < count ==> 0 <= #[trigger] order[k] < count
    &&& forall|i: int| 0 <= i < count ==> #[trigger] order.contains(i)
    &&& forall|a: int, b: int|
        0 <= a < b < count ==> outranks(shares, #[trigger] order[a], #[trigger] order[b])
}

/// Whether `order` is the display order of all of `shares`.
pub open spec fn is_ranking(shares: Seq<nat>, order: Seq<int>) -> bool {
    is_ranking_of_first(shares, shares.len() as int, order)
}

/// The display order of `shares`: the offsets of the entries, highest share
/// first, and among equal shares the later entry first.
pub open spec fn ranking(shares: Seq<nat>) -> Seq<int> {
    choose|order: Seq<int>| is_ranking(shares, order)
}

/// The table line of one sample.
pub open spec fn row_text(sample: ProcessSample, cpus: nat) -> RowText {
    RowText {
        pid: decimal_text(sample.pid as nat),
        name: sample.name@,
        share: share_text(normalized_share(sample.cpu_share as nat, cpus)),
    }
}

/// The process table: the samples in the display order of their measured
/// shares, which is that of the exact quotients since all are divided by the
/// same number; the first `top_n` of them, or all where there are fewer, each
/// as its table line.
pub open spec fn ranked_rows(samples: Seq<ProcessSample>, cpus: nat, top_n: nat) -> Seq<RowText> {
    let order = ranking(raw_shares(samples));
    let shown = if top_n < samples.len() {
        top_n
    } else {
        samples.len()
    };
    Seq::new(shown, |k: int| row_text(samples[order[k]], cpus))
}

/// Offsets as mathematical integers.
spec fn offsets(order: Seq<usize>) -> Seq<int> {
    Seq::new(order.len(), |k: int| order[k] as int)
}

/// Where entry `count` goes into a ranking of the entries before it: above
/// the first listed entry whose share is not larger than its own.
proof fn lemma_insert_keeps_ranking(shares: Seq<nat>, order: Seq<int>, count: int, slot: int)
    requires
        0 <= count < shares.len(),
        is_ranking_of_first(shares, count, order),
        0 <= slot <= count,
        forall|q: int| 0 <= q < slot ==> shares[#[trigger] order[q]] > shares[count],
        slot < count ==> shares[order[slot]] <= shares[count],
    ensures
        is_ranking_of_first(shares, count + 1, order.insert(slot, count)),
{
    let grown = order.insert(slot, count);
    assert forall|q: int| slot <= q < count implies shares[#[trigger] order[q]] <= shares[count] by {
        if q > slot {
            assert(outranks(shares, order[slot], order[q]));
        }
    }
    assert forall|k: int| 0 <= k < count + 1 implies 0 <= #[trigger] grown[k] < count + 1 by {
        if k < slot {
            assert(grown[k] == order[k]);
        } else if k > slot {
            assert(grown[k] == order[k - 1]);
        }
    }
    assert forall|i: int| 0 <= i < count + 1 implies #[trigger] grown.contains(i) by {
        if i == count {
            assert(grown[slot] == i);
        } else {
            assert(order.contains(i));
            let q = choose|q: int| 0 <= q < order.len() && order[q] == i;
            if q < slot {
                assert(grown[q] == i);
            } else {
                assert(grown[q + 1] == i);
            }
        }
    }
    assert forall|a: int, b: int| 0 <= a < b < count + 1 implies outranks(
        shares,
        #[trigger] grown[a],
        #[trigger] grown[b],
    ) by {
        if b < slot {
            assert(grown[a] == order[a] && grown[b] == order[b]);
        } else if b == slot {
            assert(grown[a] == order[a]);
        } else if a < slot {
            assert(grown[a] == order[a] && grown[b] == order[b - 1]);
        } else if a == slot {
            assert(grown[b] == order[b - 1]);
            assert(0 <= order[b - 1] < count);
        } else {
            assert(grown[a] == order[a - 1] && grown[b] == order[b - 1]);
        }
    }
}

proof fn lemma_find_slot(shares: Seq<nat>, order: Seq<int>, count: int, from: int) -> (slot: int)
    requires
        0 <= count < shares.len(),
        is_ranking_of_first(shares, count, order),
        0 <= from <= count,
        forall|q: int| 0 <= q < from ==> shares[#[trigger] order[q]] > shares[count],
    ensures
        0 <= slot <= count,
        forall|q: int| 0 <= q < slot ==> shares[#[trigger] order[q]] > shares[count],
        slot < count ==> shares[order[slot]] <= shares[count],
    decreases count - from,
{
    if from == count || shares[order[from]] <= shares[count] {
        from
    } else {
        lemma_find_slot(shares, order, count, from + 1)
    }
}

proof fn lemma_ranking_of_first_exists(shares: Seq<nat>, count: int) -> (order: Seq<int>)
    requires
        0 <= count <= shares.len(),
    ensures
        is_ranking_of_first(shares, count, order),
    decreases count,
{
    if count == 0 {
        Seq::empty()
    } else {
        let before = lemma_ranking_of_first_exists(shares, count - 1);
        let slot = lemma_find_slot(shares, before, count - 1, 0);
        lemma_insert_keeps_ranking(shares, before, count - 1, slot);
        before.insert(slot, count - 1)
    }
}

proof fn lemma_rankings_agree_upto(shares: Seq<nat>, one: Seq<int>, other: Seq<int>, upto: int)
    requires
        is_ranking(shares, one),
        is_ranking(shares, other),
        0 <= upto <= shares.len(),
    ensures
        forall|k: int| 0 <= k < upto ==> one[k] == other[k],
    decreases upto,
{
    if upto > 0 {
        let at = upto - 1;
        lemma_rankings_agree_upto(shares, one, other, at);
        let x = one[at];
        let y = other[at];
        if x != y {
            assert(other.contains(x));
            let q = choose|q: int| 0 <= q < other.len() && other[q] == x;
            assert(one.contains(y));
            let p = choose|p: int| 0 <= p < one.len() && one[p] == y;
            if q < at {
                assert(outranks(shares, one[q], one[at]));
            }
            if p < at {
                assert(outranks(shares, other[p], other[at]));
            }
            assert(outranks(shares, other[at], other[q]));
            assert(outranks(shares, one[at], one[p]));
        }
    }
}

/// Every sequence of shares has a display order.
pub proof fn lemma_ranking_exists(shares: Seq<nat>)
    ensures
        is_ranking(shares, ranking(shares)),
{
    let found = lemma_ranking_of_first_exists(shares, shares.len() as int);
    assert(is_ranking(shares, found));
}

/// There is only one display order: whatever lists each entry once, each
/// above those that it outranks, is `ranking`.
pub proof fn lemma_ranking_is_unique(shares: Seq<nat>, order: Seq<int>)
    requires
        is_ranking(shares, order),
    ensures
        order == ranking(shares),
{
    lemma_ranking_exists(shares);
    lemma_rankings_agree_upto(shares, order, ranking(shares), shares.len() as int);
    assert(order =~= ranking(shares));
}

/// Read from the bottom up, the display order is the stable ascending order:
/// shares never fall, and entries with equal shares keep the order in which
/// they stood in the input. The table is the tail of that order, reversed.
pub proof fn lemma_ranking_reverses_stable_ascending(shares: Seq<nat>)
    ensures
        ranking(shares).len() == shares.len(),
        forall|a: int, b: int|
            0 <= a < b < shares.len() ==> {
                let low = #[trigger] ranking(shares).reverse()[a];
                let high = #[trigger] ranking(shares).reverse()[b];
                shares[low] < shares[high] || (shares[low] == shares[high] && low < high)
            },
{
    lemma_ranking_exists(shares);
    let order = ranking(shares);
    let count = shares.len() as int;
    assert forall|a: int, b: int| 0 <= a < b < count implies {
        let low = #[trigger] order.reverse()[a];
        let high = #[trigger] order.reverse()[b];
        shares[low] < shares[high] || (shares[low] == shares[high] && low < high)
    } by {
        assert(order.reverse()[a] == order[count - 1 - a]);
        assert(order.reverse()[b] == order[count - 1 - b]);
        assert(outranks(shares, order[count - 1 - b], order[count - 1 - a]));
    }
}

/// No samples, no table lines, whatever the number of CPUs and the table size.
pub proof fn lemma_rank_of_nothing(cpus: nat, top_n: nat)
    ensures
        ranked_rows(Seq::empty(), cpus, top_n) == Seq::<RowText>::empty(),
{
    assert(ranked_rows(Seq::empty(), cpus, top_n) =~= Seq::<RowText>::empty());
}

/// The display order of `shares`, as offsets into it.
fn rank_offsets(shares: &Vec<u64>) -> (order: Vec<usize>)
    ensures
        offsets(order@) == ranking(Seq::new(shares@.len(), |i: int| shares@[i] as nat)),
{
    let ghost goal = Seq::new(shares@.len(), |i: int| shares@[i] as nat);
    let mut order: Vec<usize> = Vec::new();
    let mut next: usize = 0;
    while next < shares.len()
        invariant
            next <= shares.len(),
            goal == Seq::new(shares@.len(), |i: int| shares@[i] as nat),
            is_ranking_of_first(goal, next as int, offsets(order@)),
            forall|q: int| 0 <= q < order@.len() ==> #[trigger] order@[q] < next,
        decreases shares.len() - next,
    {
        let share = shares[next];
        let mut slot: usize = 0;
        while slot < order.len() && shares[order[slot]] > share
            invariant
                next < shares.len(),
                share == shares@[next as int],
                goal == Seq::new(shares@.len(), |i: int| shares@[i] as nat),
                is_ranking_of_first(goal, next as int, offsets(order@)),
                slot <= order.len(),
                forall|q: int| 0 <= q < order@.len() ==> #[trigger] order@[q] < next,
                forall|q: int| 0 <= q < slot ==> goal[#[trigger] offsets(order@)[q]] > goal[next as int],
            decreases order.len() - slot,
        {
            assert(0 <= offsets(order@)[slot as int] < next);
            slot += 1;
        }
        proof {
            if slot < order.len() {
                assert(0 <= offsets(order@)[slot as int] < next);
            }
            lemma_insert_keeps_ranking(goal, offsets(order@), next as int, slot as int);
        }
        let ghost before = offsets(order@);
        order.insert(slot, next);
        assert(offsets(order@) =~= before.insert(slot as int, next as int));
        assert forall|q: int| 0 <= q < order@.len() implies #[trigger] order@[q] <= next by {
            assert(0 <= offsets(order@)[q] < next + 1);
        }
        next += 1;
    }
    proof {
        lemma_ranking_is_unique(goal, offsets(order@));
    }
    order
}

/// Down the whole display order no share rises: no sample stands below, or
/// is left out of the table behind, a sample with a smaller share. The shares
/// that the texts show do not rise either.
pub proof fn lemma_table_is_in_order(samples: Seq<ProcessSample>, cpus: nat)
    requires
        cpus >= 1,
    ensures
        ranking(raw_shares(samples)).len() == samples.len(),
        forall|upper: int, lower: int|
            0 <= upper < lower < samples.len() ==> {
                let above = samples[#[trigger] ranking(raw_shares(samples))[upper]];
                let below = samples[#[trigger] ranking(raw_shares(samples))[lower]];
                &&& above.cpu_share >= below.cpu_share
                &&& normalized_share(above.cpu_share as nat, cpus) >= normalized_share(
                    below.cpu_share as nat,
                    cpus,
                )
            },
{
    let shares = raw_shares(samples);
    let order = ranking(shares);
    lemma_ranking_exists(shares);
    assert forall|upper: int, lower: int| 0 <= upper < lower < samples.len() implies {
        let above = samples[#[trigger] order[upper]];
        let below = samples[#[trigger] order[lower]];
        &&& above.cpu_share >= below.cpu_share
        &&& normalized_share(above.cpu_share as nat, cpus) >= normalized_share(
            below.cpu_share as nat,
            cpus,
        )
    } by {
        assert(outranks(shares, order[upper], order[lower]));
        lemma_normalized_share_is_monotone(
            samples[order[lower]].cpu_share as nat,
            samples[order[upper]].cpu_share as nat,
            cpus,
        );
    }
}

/// The process table of `samples`: the samples are put in ascending order of
/// their share of the machine, which is the measured share divided by the
/// number of logical CPUs, without reordering equal ones, and the last
/// `top_n` of them are returned from the highest down, the share of each as
/// a percentage rounded to two decimals. Without samples the table is empty.
pub fn rank(samples: &Vec<ProcessSample>, logical_cpus: usize, top_n: usize) -> (rows: Vec<
    RankedProcessRow,
>)
    requires
        samples@.len() > 0 ==> logical_cpus >= 1,
    ensures
        rows_text(rows@) == ranked_rows(samples@, logical_cpus as nat, top_n as nat),
        rows@.len() == if top_n < samples@.len() {
            top_n as nat
        } else {
            samples@.len()
        },
{
    let ghost cpus = logical_cpus as nat;
    let mut shares: Vec<u64> = Vec::new();
    let mut i: usize = 0;
    while i < samples.len()
        invariant
            i <= samples.len(),
            shares@.len() == i,
            forall|j: int| 0 <= j < i ==> #[trigger] shares@[j] == samples@[j].cpu_share,
        decreases samples.len() - i,
    {
        shares.push(samples[i].cpu_share);
        i += 1;
    }
    let order = rank_offsets(&shares);
    proof {
        assert(Seq::new(shares@.len(), |i: int| shares@[i] as nat) =~= raw_shares(samples@));
        lemma_ranking_exists(raw_shares(samples@));
    }
    let ghost chosen = ranking(raw_shares(samples@));
    let shown: usize = if top_n < samples.len() {
        top_n
    } else {
        samples.len()
    };
    let mut rows: Vec<RankedProcessRow> = Vec::new();
    let mut k: usize = 0;
    while k < shown
        invariant
            k <= shown <= samples.len(),
            samples@.len() > 0 ==> logical_cpus >= 1,
            order@.len() == samples@.len(),
            offsets(order@) == chosen,
            is_ranking(raw_shares(samples@), chosen),
            cpus == logical_cpus as nat,
            rows@.len() == k,
            forall|j: int| 0 <= j < k ==> (#[trigger] rows@[j])@ == row_text(samples@[chosen[j]], cpus),
        decreases shown - k,
    {
        assert(0 <= chosen[k as int] < samples@.len());
        assert(offsets(order@)[k as int] == order@[k as int] as int);
        let sample = &samples[order[k]];
        let row = RankedProcessRow {
            pid: decimal_string(sample.pid as u64),
            name: sample.name.clone(),
            share: share_string(normalize(sample.cpu_share, logical_cpus)),
        };
        rows.push(row);
        k += 1;
    }
    assert(rows_text(rows@) =~= ranked_rows(samples@, cpus, top_n as nat));
    rows
}

} // verus!
