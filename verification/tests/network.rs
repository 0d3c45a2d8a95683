use sysmon::network::{aggregate, InterfaceCounters, NetworkTotals};

fn interface(name: &str, received: u64, transmitted: u64) -> InterfaceCounters {
    InterfaceCounters { name: name.to_string(), received, transmitted }
}

#[test]
fn aggregate_of_no_interface_is_zero() {
    assert_eq!(aggregate(&Vec::new()), NetworkTotals { received: 0, transmitted: 0 });
    assert_eq!(aggregate(&Vec::new()), NetworkTotals::zero());
}

#[test]
fn aggregate_of_one_interface_is_its_counters() {
    let totals = aggregate(&vec![interface("lo", 12, 34)]);
    assert_eq!(totals, NetworkTotals { received: 12, transmitted: 34 });
}

#[test]
fn aggregate_of_two_interfaces_adds_each_side() {
    let (a, b, c, d) = (1_000u64, 20u64, 300u64, 4u64);
    let totals = aggregate(&vec![interface("eth0", a, b), interface("wlan0", c, d)]);
    assert_eq!(totals.received, (a + c) as u128);
    assert_eq!(totals.transmitted, (b + d) as u128);
}

#[test]
fn aggregate_keeps_the_two_sides_apart() {
    let totals = aggregate(&vec![interface("a", 5, 0), interface("b", 0, 7), interface("c", 1, 1)]);
    assert_eq!(totals, NetworkTotals { received: 6, transmitted: 8 });
}

#[test]
fn aggregate_goes_past_sixty_four_bits() {
    let totals = aggregate(&vec![interface("a", u64::MAX, u64::MAX), interface("b", u64::MAX, 1)]);
    assert_eq!(totals.received, 2 * (u64::MAX as u128));
    assert_eq!(totals.transmitted, u64::MAX as u128 + 1);
}

#[test]
fn peak_is_the_larger_total() {
    assert_eq!(NetworkTotals { received: 3, transmitted: 9 }.peak(), 9);
    assert_eq!(NetworkTotals { received: 9, transmitted: 3 }.peak(), 9);
    assert_eq!(NetworkTotals { received: 0, transmitted: 0 }.peak(), 0);
}

#[test]
fn totals_carry_two_labels() {
    assert_eq!(NetworkTotals::received_label(), "Packets In");
    assert_eq!(NetworkTotals::transmitted_label(), "Packets Out");
}
