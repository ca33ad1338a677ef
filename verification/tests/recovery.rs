use i3tracker::i3log::{header_row, initial_event_id, read_last_id, Log, NodeType};

fn row(id: u32, title: &str) -> Log {
    Log {
        id,
        start_time: "2024-01-02 03:04:05".to_string(),
        end_time: "2024-01-02 03:04:47".to_string(),
        duration: 42,
        node_id: 7,
        node_title: Some(title.to_string()),
        node_type: NodeType::Con,
        node_output: None,
        node_class: None,
        node_role: None,
    }
}

fn log_with_rows(ids: &[u32]) -> Vec<u8> {
    let mut bytes = header_row();
    for &id in ids {
        bytes.extend_from_slice(&row(id, "Term").encode_row());
    }
    bytes
}

#[test]
fn recovery_continues_one_past_the_last_row() {
    let bytes = log_with_rows(&[1, 2, 3]);
    assert_eq!(read_last_id(&bytes), Some(3));
    assert_eq!(initial_event_id(Some(&bytes)), 4);
}

#[test]
fn recovery_reads_past_quoted_line_breaks_in_the_last_row() {
    let mut bytes = log_with_rows(&[1]);
    bytes.extend_from_slice(&row(17, "multi\nline,title\"x").encode_row());
    assert_eq!(read_last_id(&bytes), Some(17));
    assert_eq!(initial_event_id(Some(&bytes)), 18);
}

#[test]
fn missing_file_starts_at_one() {
    assert_eq!(initial_event_id(None), 1);
}

#[test]
fn empty_file_starts_at_one() {
    let bytes: Vec<u8> = Vec::new();
    assert_eq!(read_last_id(&bytes), None);
    assert_eq!(initial_event_id(Some(&bytes)), 1);
}

#[test]
fn header_only_file_starts_at_one() {
    let bytes = header_row();
    assert_eq!(read_last_id(&bytes), None);
    assert_eq!(initial_event_id(Some(&bytes)), 1);
}

#[test]
fn malformed_trailing_row_is_treated_as_no_prior_log() {
    let mut bytes = log_with_rows(&[1, 2]);
    bytes.extend_from_slice(b"garbage without an id");
    assert_eq!(read_last_id(&bytes), None);
    assert_eq!(initial_event_id(Some(&bytes)), 1);
}

#[test]
fn unterminated_trailing_row_is_still_the_last_record() {
    let mut bytes = log_with_rows(&[6]);
    bytes.extend_from_slice(b"9,partial");
    assert_eq!(read_last_id(&bytes), Some(9));
    assert_eq!(initial_event_id(Some(&bytes)), 10);
}

#[test]
fn quoted_id_in_a_foreign_row_reads_back() {
    let bytes = b"\"23\",x,y\n".to_vec();
    assert_eq!(read_last_id(&bytes), Some(23));
    assert_eq!(initial_event_id(Some(&bytes)), 24);
}

#[test]
fn id_at_the_counter_ceiling_starts_at_one() {
    let bytes = log_with_rows(&[u32::MAX]);
    assert_eq!(read_last_id(&bytes), Some(u32::MAX));
    assert_eq!(initial_event_id(Some(&bytes)), 1);
}
