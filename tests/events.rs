use zeta::{BufferSnapshot, Event, EventRing, Zeta};

fn snap(buffer_id: u64, version: u64) -> BufferSnapshot {
    BufferSnapshot::new(buffer_id, version, None, Vec::new())
}

fn change(buffer_id: u64, from: u64, to: u64, at: u64) -> Event {
    Event::buffer_change(snap(buffer_id, from), snap(buffer_id, to), at)
}

#[test]
fn changes_in_quick_succession_coalesce() {
    let mut ring = EventRing::new();
    ring.push(change(7, 0, 1, 0));
    ring.push(change(7, 1, 2, 500));
    ring.push(change(7, 2, 3, 900));
    assert_eq!(ring.len(), 1);
    let events = ring.snapshot();
    assert_eq!(events[0].old_snapshot.version, 0);
    assert_eq!(events[0].new_snapshot.version, 3);
    assert_eq!(events[0].timestamp, 900);
}

#[test]
fn changes_far_apart_do_not_coalesce() {
    let mut ring = EventRing::new();
    ring.push(change(7, 0, 1, 0));
    ring.push(change(7, 1, 2, 1001));
    assert_eq!(ring.len(), 2);
}

#[test]
fn change_exactly_one_second_later_coalesces() {
    let mut ring = EventRing::new();
    ring.push(change(7, 0, 1, 0));
    ring.push(change(7, 1, 2, 1000));
    assert_eq!(ring.len(), 1);
}

#[test]
fn changes_of_other_buffers_or_versions_do_not_coalesce() {
    let mut ring = EventRing::new();
    ring.push(change(7, 0, 1, 0));
    ring.push(change(8, 1, 2, 10));
    ring.push(change(8, 5, 6, 20));
    assert_eq!(ring.len(), 3);
}

#[test]
fn ring_drops_older_half_when_full() {
    let mut ring = EventRing::new();
    for i in 0..15u64 {
        ring.push(change(i, 0, 1, i * 10_000));
        assert!(ring.len() <= 16);
    }
    assert_eq!(ring.len(), 15);
    ring.push(change(100, 0, 1, 1_000_000));
    assert_eq!(ring.len(), 8);
    let events = ring.snapshot();
    assert_eq!(events[0].old_snapshot.buffer_id, 8);
    assert_eq!(events[7].old_snapshot.buffer_id, 100);
}

#[test]
fn ring_stays_bounded_over_many_pushes() {
    let mut ring = EventRing::new();
    for i in 0..100u64 {
        ring.push(change(i % 3, i, i + 1, i * 5_000));
        assert!(ring.len() <= 16);
    }
}

#[test]
fn clear_empties_the_ring() {
    let mut ring = EventRing::new();
    ring.push(change(1, 0, 1, 0));
    ring.clear();
    assert_eq!(ring.len(), 0);
}

#[test]
fn engine_records_changes_between_versions() {
    let mut zeta = Zeta::new();
    let s = zeta.report_changes_for_buffer(snap(3, 1), 0);
    assert_eq!(s.version, 1);
    assert_eq!(zeta.events().len(), 0);
    zeta.report_changes_for_buffer(snap(3, 2), 10);
    let events = zeta.events();
    assert_eq!(events.len(), 1);
    assert_eq!(events[0].old_snapshot.version, 1);
    assert_eq!(events[0].new_snapshot.version, 2);
    // Same version again: nothing new.
    zeta.report_changes_for_buffer(snap(3, 2), 20);
    assert_eq!(zeta.events().len(), 1);
    zeta.clear_history();
    assert_eq!(zeta.events().len(), 0);
}

#[test]
fn released_buffer_starts_afresh() {
    let mut zeta = Zeta::new();
    zeta.register_buffer(&snap(4, 1));
    zeta.release_buffer(4);
    zeta.report_changes_for_buffer(snap(4, 9), 0);
    assert_eq!(zeta.events().len(), 0);
}

#[test]
fn shown_completions_are_logged_newest_first() {
    let mut zeta = Zeta::new();
    let first = zeta::InlineCompletion {
        id: zeta::InlineCompletionId(uuid::Uuid::from_u128(1)),
        path: "a".chars().collect(),
        edits: vec![zeta::Edit { start: 0, end: 0, text: vec!['x'] }],
        snapshot: snap(1, 1),
    };
    let second = zeta::InlineCompletion {
        id: zeta::InlineCompletionId(uuid::Uuid::from_u128(2)),
        path: "a".chars().collect(),
        edits: Vec::new(),
        snapshot: snap(1, 2),
    };
    zeta.completion_shown(&first);
    zeta.completion_shown(&second);
    assert_eq!(zeta.shown_completions_len(), 2);
    let shown = zeta.shown_completions();
    assert_eq!(shown[0].id, second.id);
    assert_eq!(shown[1].id, first.id);
    assert_eq!(shown[1].edits, first.edits);
}

#[test]
fn upsell_counts_as_dismissed_with_either_key() {
    assert!(zeta::upsell_dismissed(true, false));
    assert!(zeta::upsell_dismissed(false, true));
    assert!(!zeta::upsell_dismissed(false, false));
}
