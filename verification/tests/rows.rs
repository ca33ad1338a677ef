use i3tracker::digits::{i64_to_dec, parse_u32, u64_to_dec};
use i3tracker::i3log::{header_row, Log, NodeType};

fn plain_row() -> Log {
    Log {
        id: 3,
        start_time: "2024-01-02 03:04:05".to_string(),
        end_time: "2024-01-02 03:04:47".to_string(),
        duration: 42,
        node_id: 7,
        node_title: Some("Term".to_string()),
        node_type: NodeType::Con,
        node_output: Some("eDP-1".to_string()),
        node_class: Some("Alacritty".to_string()),
        node_role: None,
    }
}

#[test]
fn encode_row_writes_ten_columns_and_a_line_feed() {
    let row = plain_row();
    let expected = b"3,2024-01-02 03:04:05,2024-01-02 03:04:47,42,7,Term,con,eDP-1,Alacritty,\n";
    assert_eq!(row.encode_row(), expected.to_vec());
}

#[test]
fn encode_row_quotes_commas_quotes_and_line_breaks() {
    let mut row = plain_row();
    row.node_title = Some("a,b\"c\nd".to_string());
    let expected =
        b"3,2024-01-02 03:04:05,2024-01-02 03:04:47,42,7,\"a,b\"\"c\nd\",con,eDP-1,Alacritty,\n";
    assert_eq!(row.encode_row(), expected.to_vec());
}

#[test]
fn encode_row_writes_negative_durations_with_a_sign() {
    let mut row = plain_row();
    row.duration = -5;
    let encoded = row.encode_row();
    let text = String::from_utf8(encoded).expect("rows of text fields are UTF-8");
    assert!(text.contains(",-5,"));
}

#[test]
fn header_row_names_the_columns() {
    let expected =
        b"id,start_time,end_time,duration,node_id,node_title,node_type,node_output,node_class,node_role\n";
    assert_eq!(header_row(), expected.to_vec());
}

#[test]
fn node_type_labels_match_the_window_manager_tags() {
    assert_eq!(NodeType::Root.label(), "root");
    assert_eq!(NodeType::Output.label(), "output");
    assert_eq!(NodeType::Con.label(), "con");
    assert_eq!(NodeType::FloatingCon.label(), "floating_con");
    assert_eq!(NodeType::Workspace.label(), "workspace");
    assert_eq!(NodeType::Dockarea.label(), "dockarea");
}

#[test]
fn unsigned_decimal_formatting_is_exact() {
    assert_eq!(u64_to_dec(0), b"0".to_vec());
    assert_eq!(u64_to_dec(7), b"7".to_vec());
    assert_eq!(u64_to_dec(1203), b"1203".to_vec());
    assert_eq!(u64_to_dec(u64::MAX), b"18446744073709551615".to_vec());
}

#[test]
fn signed_decimal_formatting_is_exact() {
    assert_eq!(i64_to_dec(0), b"0".to_vec());
    assert_eq!(i64_to_dec(-1), b"-1".to_vec());
    assert_eq!(i64_to_dec(i64::MIN), b"-9223372036854775808".to_vec());
}

#[test]
fn parsing_inverts_formatting_and_rejects_the_rest() {
    assert_eq!(parse_u32(&b"0".to_vec()), Some(0));
    assert_eq!(parse_u32(&b"007".to_vec()), Some(7));
    assert_eq!(parse_u32(&b"4294967295".to_vec()), Some(u32::MAX));
    assert_eq!(parse_u32(&b"4294967296".to_vec()), None);
    assert_eq!(parse_u32(&Vec::new()), None);
    assert_eq!(parse_u32(&b"12a".to_vec()), None);
    assert_eq!(parse_u32(&b"-3".to_vec()), None);
}
