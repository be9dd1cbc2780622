use profile_harvest::profile::Profile;
use profile_harvest::store::{backup_file, current_file, frame_lines, hydrate, reload_step, split_lines, ReloadStep};
use profile_harvest::text::{split_chars, trim_chars};

#[test]
fn file_names_in_directory() {
    assert_eq!(current_file("/var/pool"), "/var/pool/profile.txt");
    assert_eq!(backup_file("/var/pool"), "/var/pool/profile_old.txt");
}

#[test]
fn reload_creates_placeholders_when_absent() {
    assert_eq!(reload_step(false), ReloadStep::CreatePlaceholders);
    assert_eq!(reload_step(true), ReloadStep::ReadThenRotate);
    assert_eq!(hydrate(reload_step(false), Vec::new()), None);
}

#[test]
fn reload_returns_every_record_read() {
    let records = vec![Profile::default_at(1), Profile::default_at(2), Profile::default_at(3)];
    let back = hydrate(reload_step(true), records.clone()).unwrap();
    assert_eq!(back.len(), 3);
    assert_eq!(back, records);
    assert_eq!(hydrate(ReloadStep::CreatePlaceholders, records), None);
}

#[test]
fn records_come_back_one_per_line() {
    let lines = vec!["{\"able\":1}".to_string(), "{\"able\":2}".to_string(), "{}".to_string()];
    let text = frame_lines(&lines);
    assert_eq!(text, "{\"able\":1}\n{\"able\":2}\n{}\n");
    let back = split_lines(&text);
    assert_eq!(back.len(), 3);
    assert_eq!(back, lines);
}

#[test]
fn empty_file_has_no_lines() {
    assert!(split_lines("").is_empty());
    assert_eq!(frame_lines(&Vec::new()), "");
}

#[test]
fn line_reader_rules() {
    assert_eq!(split_lines("a\r\nb"), vec!["a".to_string(), "b".to_string()]);
    assert_eq!(split_lines("a\n\nb\n"), vec!["a".to_string(), "".to_string(), "b".to_string()]);
    assert_eq!(split_lines("a\r"), vec!["a\r".to_string()]);
    assert_eq!(split_lines("x\r\ny\r"), vec!["x".to_string(), "y\r".to_string()]);
}

#[test]
fn text_helpers() {
    let v: Vec<char> = "x;;y".chars().collect();
    let parts = split_chars(&v, ';');
    assert_eq!(parts.len(), 3);
    assert_eq!(parts[2], vec!['y']);
    assert_eq!(trim_chars(&" \u{3000}ab c\t".chars().collect()), vec!['a', 'b', ' ', 'c']);
}
