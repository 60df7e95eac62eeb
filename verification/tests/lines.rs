use pihole_api::lines::{
    contains_entry, push_line, read_entries, remove_entry, write_entries, CR, LF,
};

fn strings(entries: &[&str]) -> Vec<String> {
    entries.iter().map(|e| e.to_string()).collect()
}

#[test]
fn line_end_bytes() {
    assert_eq!(LF, b'\n');
    assert_eq!(CR, b'\r');
}

#[test]
fn read_one_entry_per_line() {
    assert_eq!(read_entries(b"a.com\nb.com\n"), strings(&["a.com", "b.com"]));
    assert_eq!(read_entries(b"example.com\n"), strings(&["example.com"]));
}

#[test]
fn read_nothing_from_an_empty_text() {
    assert_eq!(read_entries(b""), strings(&[]));
}

#[test]
fn read_passes_over_empty_lines() {
    assert_eq!(read_entries(b"\n"), strings(&[]));
    assert_eq!(read_entries(b"\n\n\r\n"), strings(&[]));
    assert_eq!(read_entries(b"\na.com\n\n\nb.com\n\n"), strings(&["a.com", "b.com"]));
}

#[test]
fn read_takes_the_last_line_without_its_line_feed() {
    assert_eq!(read_entries(b"a.com\nb.com"), strings(&["a.com", "b.com"]));
    assert_eq!(read_entries(b"a.com"), strings(&["a.com"]));
}

#[test]
fn read_takes_a_carriage_return_with_the_line_feed() {
    assert_eq!(read_entries(b"a.com\r\nb.com\r\n"), strings(&["a.com", "b.com"]));
    // One only
    assert_eq!(read_entries(b"a.com\r\r\n"), strings(&["a.com\r"]));
    // And only before a line feed
    assert_eq!(read_entries(b"a.com\r"), strings(&["a.com\r"]));
    assert_eq!(read_entries(b"a\rb\n"), strings(&["a\rb"]));
    assert_eq!(read_entries(b"\r"), strings(&["\r"]));
}

#[test]
fn read_does_not_trim() {
    assert_eq!(read_entries(b" a.com \n\tb.com\n \n"), strings(&[" a.com ", "\tb.com", " "]));
}

#[test]
fn read_passes_over_lines_that_are_not_utf8() {
    assert_eq!(read_entries(b"a.com\n\xff\xfe\nb.com\n"), strings(&["a.com", "b.com"]));
    assert_eq!(read_entries(b"\xc3\n"), strings(&[]));
    assert_eq!(read_entries(b"a.com\n\xc3"), strings(&["a.com"]));
    assert_eq!(read_entries("b\u{fc}cher.example\n".as_bytes()), strings(&["b\u{fc}cher.example"]));
}

#[test]
fn read_keeps_entries_that_occur_twice() {
    assert_eq!(read_entries(b"a.com\na.com\n"), strings(&["a.com", "a.com"]));
}

#[test]
fn write_one_entry_per_line() {
    assert_eq!(write_entries(&strings(&["a.com", "b.com"])), b"a.com\nb.com\n".to_vec());
    assert_eq!(write_entries(&strings(&["^.*example.com$"])), b"^.*example.com$\n".to_vec());
    assert_eq!(write_entries(&strings(&[])), b"".to_vec());
}

#[test]
fn what_was_written_is_read_back() {
    let entries = strings(&["a.com", "^(.*\\.)?b\\.com$", "c d", "b\u{fc}cher.example"]);
    assert_eq!(read_entries(&write_entries(&entries)), entries);
}

#[test]
fn push_line_puts_the_line_at_the_end() {
    let mut text = b"a.com\n".to_vec();
    push_line(&mut text, "b.com");
    assert_eq!(text, b"a.com\nb.com\n".to_vec());
    let mut empty = Vec::new();
    push_line(&mut empty, "a.com");
    assert_eq!(empty, b"a.com\n".to_vec());
}

#[test]
fn contains_entry_compares_whole_entries() {
    let entries = strings(&["a.com", "b.com"]);
    assert!(contains_entry(&entries, "a.com"));
    assert!(contains_entry(&entries, "b.com"));
    assert!(!contains_entry(&entries, "c.com"));
    assert!(!contains_entry(&entries, "a.co"));
    assert!(!contains_entry(&entries, "A.com"));
    assert!(!contains_entry(&entries, ""));
    assert!(!contains_entry(&strings(&[]), "a.com"));
}

#[test]
fn remove_entry_takes_every_occurrence() {
    let entries = strings(&["a.com", "b.com", "a.com", "c.com", "a.com"]);
    assert_eq!(remove_entry(entries, "a.com"), strings(&["b.com", "c.com"]));
    assert_eq!(remove_entry(strings(&["a.com"]), "a.com"), strings(&[]));
    assert_eq!(remove_entry(strings(&["a.com", "b.com"]), "c.com"), strings(&["a.com", "b.com"]));
}
