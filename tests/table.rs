use status_bar::table::{find_value, parse_row, parse_table, MemEntry};

fn pairs(entries: &[MemEntry]) -> Vec<(Vec<u8>, Vec<u8>)> {
    entries.iter().map(|e| (e.label.clone(), e.value.clone())).collect()
}

fn pair(label: &str, value: &str) -> (Vec<u8>, Vec<u8>) {
    (label.as_bytes().to_vec(), value.as_bytes().to_vec())
}

#[test]
fn rows_are_label_and_first_word() {
    let e = parse_row(b"MemTotal:       16315092 kB").unwrap();
    assert_eq!(e.label, b"MemTotal".to_vec());
    assert_eq!(e.value, b"16315092".to_vec());
    let e = parse_row(b"HugePages_Total:\t0").unwrap();
    assert_eq!(e.value, b"0".to_vec());
    assert!(parse_row(b"").is_none());
    assert!(parse_row(b"no colon here").is_none());
    assert!(parse_row(b"Empty:   \t").is_none());
}

#[test]
fn parsing_twice_gives_the_same_table() {
    let text = b"MemTotal: 8000000 kB\nMemFree: 2000000 kB\n\nbroken line\nSwapFree: 0 kB\n";
    let a = pairs(&parse_table(text));
    let b = pairs(&parse_table(text));
    assert_eq!(a, b);
    assert_eq!(a, vec![pair("MemTotal", "8000000"), pair("MemFree", "2000000"), pair("SwapFree", "0")]);
}

#[test]
fn malformed_rows_are_skipped() {
    let with = pairs(&parse_table(b"MemTotal: 8 kB\nno colon\nEmpty:\nMemFree: 2 kB\n"));
    let without = pairs(&parse_table(b"MemTotal: 8 kB\nMemFree: 2 kB\n"));
    assert_eq!(with, without);
    assert!(parse_table(b"").is_empty());
    assert!(parse_table(b"\n\n").is_empty());
}

#[test]
fn last_entry_of_a_label_is_found() {
    let t = parse_table(b"A: 1\nB: 2\nA: 3\n");
    assert_eq!(find_value(&t, b"A"), Some(&b"3".to_vec()));
    assert_eq!(find_value(&t, b"B"), Some(&b"2".to_vec()));
    assert_eq!(find_value(&t, b"C"), None);
}
