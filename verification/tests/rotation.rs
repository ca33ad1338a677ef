use i3tracker::rotate::{log_file_name, read_log_name, rotate, LogFile};

fn entry(name: &str, age_secs: u64) -> LogFile {
    LogFile { name: name.as_bytes().to_vec(), age_secs }
}

#[test]
fn rotation_file_names_carry_their_index() {
    assert_eq!(log_file_name(0), b"i3tracker.log.0".to_vec());
    assert_eq!(log_file_name(12), b"i3tracker.log.12".to_vec());
    assert_eq!(read_log_name(&log_file_name(7)), Some(7));
}

#[test]
fn foreign_names_are_not_rotation_files() {
    assert_eq!(read_log_name(&b"i3tracker.log.".to_vec()), None);
    assert_eq!(read_log_name(&b"i3tracker.log.3x".to_vec()), None);
    assert_eq!(read_log_name(&b"other.log.3".to_vec()), None);
    assert_eq!(read_log_name(&b"i3tracker.log.99999999999".to_vec()), None);
}

#[test]
fn below_the_limit_the_next_unused_slot_is_taken() {
    let files = vec![
        entry("i3tracker.log.0", 500),
        entry("notes.txt", 9),
        entry("i3tracker.log.1", 100),
    ];
    assert_eq!(rotate(&files, 10), 2);
}

#[test]
fn an_empty_directory_starts_at_slot_zero() {
    let files: Vec<LogFile> = Vec::new();
    assert_eq!(rotate(&files, 10), 0);
}

#[test]
fn at_the_limit_the_oldest_slot_is_reused() {
    let files = vec![
        entry("i3tracker.log.0", 500),
        entry("i3tracker.log.1", 900),
        entry("i3tracker.log.2", 100),
    ];
    assert_eq!(rotate(&files, 3), 1);
}

#[test]
fn ties_for_oldest_go_to_the_first_entry() {
    let files = vec![
        entry("i3tracker.log.4", 900),
        entry("i3tracker.log.5", 900),
        entry("i3tracker.log.6", 1),
    ];
    assert_eq!(rotate(&files, 3), 4);
}

#[test]
fn unrelated_files_do_not_count_toward_the_limit() {
    let files = vec![
        entry("i3tracker.log.0", 500),
        entry("i3tracker.log", 800),
        entry("backup.tar", 10_000),
    ];
    assert_eq!(rotate(&files, 2), 1);
}
