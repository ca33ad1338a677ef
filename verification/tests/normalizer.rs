use i3tracker::i3::{ChangeKind, Normalized, Normalizer};

#[test]
fn no_phantom_activation_for_new_then_focus_same_window() {
    let mut n = Normalizer::new();
    assert_eq!(n.observe(ChangeKind::New, 7), None);
    assert_eq!(n.observe(ChangeKind::Focus, 7), None);
}

#[test]
fn real_activation_for_focus_on_other_window() {
    let mut n = Normalizer::new();
    assert_eq!(n.observe(ChangeKind::New, 7), None);
    assert_eq!(n.observe(ChangeKind::Focus, 8), Some(Normalized::WindowActivated(8)));
}

#[test]
fn focus_without_pending_new_activates() {
    let mut n = Normalizer::new();
    assert_eq!(n.observe(ChangeKind::Focus, 3), Some(Normalized::WindowActivated(3)));
}

#[test]
fn second_focus_after_suppression_activates() {
    let mut n = Normalizer::new();
    n.observe(ChangeKind::New, 7);
    n.observe(ChangeKind::Focus, 7);
    assert_eq!(n.observe(ChangeKind::Focus, 7), Some(Normalized::WindowActivated(7)));
}

#[test]
fn title_emits_even_while_awaiting_confirmation() {
    let mut n = Normalizer::new();
    n.observe(ChangeKind::New, 7);
    assert_eq!(n.observe(ChangeKind::Title, 7), Some(Normalized::WindowRetitled(7)));
}

#[test]
fn title_clears_the_suppression_window() {
    let mut n = Normalizer::new();
    n.observe(ChangeKind::New, 7);
    n.observe(ChangeKind::Title, 9);
    assert_eq!(n.observe(ChangeKind::Focus, 7), Some(Normalized::WindowActivated(7)));
}

#[test]
fn other_kinds_are_dropped_and_keep_state() {
    let mut n = Normalizer::new();
    n.observe(ChangeKind::New, 7);
    assert_eq!(n.observe(ChangeKind::Other, 11), None);
    assert_eq!(n.observe(ChangeKind::Focus, 7), None);
}

#[test]
fn wm_class_prefix_takes_bytes_before_first_nul() {
    let reply: Vec<u8> = b"Navigator\0Firefox\0".to_vec();
    assert_eq!(i3tracker::i3::wm_class_prefix(&reply), b"Navigator".to_vec());
    let no_nul: Vec<u8> = b"xterm".to_vec();
    assert_eq!(i3tracker::i3::wm_class_prefix(&no_nul), b"xterm".to_vec());
    let empty: Vec<u8> = Vec::new();
    assert_eq!(i3tracker::i3::wm_class_prefix(&empty), Vec::<u8>::new());
}
