use i3tracker::i3::{ChangeKind, Normalized, Normalizer};
use i3tracker::i3log::{Event, I3Log, NodeType};
use i3tracker::tracker::Tracker;

fn interval(start: i64, window: u64, title: &str) -> I3Log {
    I3Log {
        start_time: start,
        id: window,
        title: Some(title.to_string()),
        node_type: NodeType::Con,
        output: Some("eDP-1".to_string()),
        class: Some("Alacritty".to_string()),
        role: None,
    }
}

#[test]
fn first_event_opens_without_a_row_and_arms() {
    let mut t = Tracker::new(5);
    let out = t.step_at(Event::I3(interval(100, 7, "Term")), 100);
    assert!(out.row.is_none());
    assert_eq!(out.arm, Some(5));
    assert!(!out.exit);
    assert_eq!(t.next_id, 5);
}

#[test]
fn transition_closes_under_old_id_and_advances() {
    let mut t = Tracker::new(5);
    t.step_at(Event::I3(interval(100, 7, "Term")), 100);
    let out = t.step_at(Event::I3(interval(130, 8, "Editor")), 130);
    let row = out.row.expect("transition must write a row");
    assert_eq!(row.id, 5);
    assert_eq!(row.node_id, 7);
    assert_eq!(row.duration, 30);
    assert_eq!(out.arm, Some(6));
    assert_eq!(t.next_id, 6);
}

#[test]
fn repeated_event_for_same_subject_is_ignored() {
    let mut t = Tracker::new(5);
    t.step_at(Event::I3(interval(100, 7, "Term")), 100);
    let out = t.step_at(Event::I3(interval(120, 7, "Term")), 120);
    assert!(out.row.is_none());
    assert_eq!(out.arm, None);
    assert_eq!(t.next_id, 5);
}

#[test]
fn stale_tick_is_a_no_op() {
    let mut t = Tracker::new(5);
    t.step_at(Event::I3(interval(100, 7, "Term")), 100);
    t.step_at(Event::I3(interval(130, 8, "Editor")), 130);
    let out = t.step_at(Event::Tick(5), 140);
    assert!(out.row.is_none());
    assert_eq!(out.arm, None);
    assert_eq!(t.next_id, 6);
}

#[test]
fn interval_accounting_three_heartbeats_then_transition() {
    let mut t = Tracker::new(9);
    t.step_at(Event::I3(interval(100, 7, "Term")), 100);
    let h1 = t.step_at(Event::Tick(9), 110);
    let h2 = t.step_at(Event::Tick(9), 120);
    let h3 = t.step_at(Event::Tick(9), 130);
    let close = t.step_at(Event::I3(interval(135, 8, "Editor")), 135);
    let r1 = h1.row.expect("first heartbeat row");
    let r2 = h2.row.expect("second heartbeat row");
    let r3 = h3.row.expect("third heartbeat row");
    let r4 = close.row.expect("closing row");
    assert_eq!((r1.id, r2.id, r3.id, r4.id), (9, 9, 9, 9));
    assert_eq!((r1.duration, r2.duration, r3.duration, r4.duration), (10, 10, 10, 5));
    assert_eq!(h1.arm, Some(9));
    assert_eq!(h2.arm, Some(9));
    assert_eq!(h3.arm, Some(9));
    assert_eq!(close.arm, Some(10));
    assert_eq!(t.next_id, 10);
}

#[test]
fn sequence_ids_are_consecutive_across_intervals() {
    let mut t = Tracker::new(5);
    let mut closed: Vec<u32> = Vec::new();
    t.step_at(Event::I3(interval(100, 1, "a")), 100);
    for (k, at) in [(2u64, 110i64), (3, 120), (4, 130)] {
        let out = t.step_at(Event::I3(interval(at, k, "w")), at);
        closed.push(out.row.expect("each transition closes one interval").id);
    }
    assert_eq!(closed, vec![5, 6, 7]);
    let flushed = t.step_at(Event::Flush, 140);
    assert_eq!(flushed.row.expect("flush writes the open interval").id, 8);
    assert!(flushed.exit);
}

#[test]
fn flush_with_no_open_interval_only_exits() {
    let mut t = Tracker::new(1);
    let out = t.step_at(Event::Flush, 50);
    assert!(out.row.is_none());
    assert_eq!(out.arm, None);
    assert!(out.exit);
}

#[test]
fn scenario_phantom_focus_then_editor_retitle() {
    let mut n = Normalizer::new();
    let mut t = Tracker::new(1);
    let mut rows: Vec<i3tracker::i3log::Log> = Vec::new();
    let mut now: i64 = 1000;
    let raw: Vec<(ChangeKind, u64, &str)> = vec![
        (ChangeKind::New, 7, "Scratch"),
        (ChangeKind::Focus, 7, "Scratch"),
        (ChangeKind::New, 7, "Scratch"),
        (ChangeKind::Focus, 8, "Editor"),
        (ChangeKind::Title, 8, "Editor*"),
    ];
    for (kind, window, title) in raw {
        now += 1;
        if let Some(emitted) = n.observe(kind, window) {
            let id = match emitted {
                Normalized::WindowActivated(id) => id,
                Normalized::WindowRetitled(id) => id,
            };
            let out = t.step_at(Event::I3(interval(now, id, title)), now);
            if let Some(row) = out.row {
                rows.push(row);
            }
        }
    }
    now += 1;
    let out = t.step_at(Event::Flush, now);
    if let Some(row) = out.row {
        rows.push(row);
    }
    assert_eq!(rows.len(), 2);
    assert_eq!(rows[0].node_id, 8);
    assert_eq!(rows[0].node_title, Some("Editor".to_string()));
    assert_eq!(rows[1].node_id, 8);
    assert_eq!(rows[1].node_title, Some("Editor*".to_string()));
}

#[test]
fn stepping_with_the_real_clock_measures_from_the_epoch() {
    let mut t = Tracker::new(1);
    t.step_at(Event::I3(interval(0, 7, "Term")), 0);
    let out = t.step(Event::Flush);
    let row = out.row.expect("flush writes the open interval");
    assert!(row.duration > 1_600_000_000);
    assert!(row.duration < 8_796_093_022_208);
    assert!(row.end_time.len() >= 17);
}
