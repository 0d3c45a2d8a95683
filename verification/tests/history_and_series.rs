use sysmon::history::HistoryBuffer;
use sysmon::series::{materialize, SeriesPoint};

fn filled(capacity: usize, values: &[u64]) -> HistoryBuffer {
    let mut buffer = HistoryBuffer::new(capacity);
    for value in values {
        buffer.push(*value);
    }
    buffer
}

#[test]
fn new_buffer_is_empty() {
    let buffer = HistoryBuffer::new(500);
    assert_eq!(buffer.len(), 0);
    assert!(buffer.is_empty());
    assert_eq!(buffer.capacity(), 500);
    assert_eq!(buffer.latest(), None);
    assert_eq!(buffer.get(0), None);
    assert_eq!(buffer.samples(), &Vec::<u64>::new());
}

#[test]
fn push_appends_at_the_end() {
    let buffer = filled(4, &[7, 8, 9]);
    assert_eq!(buffer.samples(), &vec![7, 8, 9]);
    assert_eq!(buffer.len(), 3);
    assert_eq!(buffer.get(0), Some(7));
    assert_eq!(buffer.get(2), Some(9));
    assert_eq!(buffer.get(3), None);
    assert_eq!(buffer.latest(), Some(9));
    assert!(!buffer.is_empty());
}

#[test]
fn push_never_exceeds_capacity() {
    let mut buffer = HistoryBuffer::new(3);
    for value in 0..50u64 {
        buffer.push(value);
        assert!(buffer.len() <= 3);
        assert_eq!(buffer.len(), std::cmp::min(value as usize + 1, 3));
        assert_eq!(buffer.latest(), Some(value));
    }
}

#[test]
fn push_at_capacity_evicts_exactly_the_oldest() {
    let mut buffer = filled(3, &[1, 2, 3]);
    assert_eq!(buffer.samples(), &vec![1, 2, 3]);
    buffer.push(4);
    assert_eq!(buffer.samples(), &vec![2, 3, 4]);
    buffer.push(5);
    assert_eq!(buffer.samples(), &vec![3, 4, 5]);
}

#[test]
fn overfilled_buffer_holds_the_most_recent_in_order() {
    let values: Vec<u64> = (0..600).collect();
    let buffer = filled(500, &values);
    assert_eq!(buffer.len(), 500);
    assert_eq!(buffer.samples(), &(100..600).collect::<Vec<u64>>());
}

#[test]
fn buffer_of_capacity_one_keeps_the_latest() {
    let buffer = filled(1, &[4, 5, 6]);
    assert_eq!(buffer.samples(), &vec![6]);
}

#[test]
fn buffer_of_capacity_zero_stays_empty() {
    let buffer = filled(0, &[4, 5, 6]);
    assert_eq!(buffer.len(), 0);
    assert_eq!(buffer.latest(), None);
}

#[test]
fn materialize_of_empty_buffer_is_empty() {
    let buffer = HistoryBuffer::new(10);
    assert_eq!(materialize(&buffer), Vec::<SeriesPoint>::new());
}

#[test]
fn materialize_counts_positions_from_one() {
    let buffer = filled(10, &[30, 10, 20]);
    assert_eq!(
        materialize(&buffer),
        vec![
            SeriesPoint { position: 1, value: 30 },
            SeriesPoint { position: 2, value: 10 },
            SeriesPoint { position: 3, value: 20 },
        ]
    );
}

#[test]
fn materialize_after_eviction_starts_at_one_again() {
    let buffer = filled(3, &[1, 2, 3, 4, 5, 6, 7]);
    let series = materialize(&buffer);
    assert_eq!(
        series,
        vec![
            SeriesPoint { position: 1, value: 5 },
            SeriesPoint { position: 2, value: 6 },
            SeriesPoint { position: 3, value: 7 },
        ]
    );
}

#[test]
fn materialize_positions_are_contiguous_for_every_length() {
    let mut buffer = HistoryBuffer::new(20);
    for round in 0..60u64 {
        buffer.push(round * 3);
        let series = materialize(&buffer);
        assert_eq!(series.len(), buffer.len());
        for (offset, point) in series.iter().enumerate() {
            assert_eq!(point.position, offset + 1);
            assert_eq!(Some(point.value), buffer.get(offset));
        }
    }
}
