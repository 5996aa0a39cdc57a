use nova_shell::history::{Direction, HistoryStore};
use nova_shell::text::{bytes_equal, copy_bytes, is_utf8};

fn entries(store: &HistoryStore) -> Vec<Vec<u8>> {
    let mut all = Vec::new();
    for index in 0..store.len() {
        all.push(store.get(index).unwrap());
    }
    all
}

#[test]
fn an_empty_file_gives_an_empty_store() {
    let store = HistoryStore::load(b"");
    assert!(store.is_empty());
    assert_eq!(store.len(), 0);
    assert_eq!(store.get(0), None);
    assert!(HistoryStore::new().is_empty());
}

#[test]
fn each_line_of_the_file_becomes_an_entry() {
    let store = HistoryStore::load(b"ls\npwd\n");
    assert_eq!(entries(&store), vec![b"ls".to_vec(), b"pwd".to_vec()]);
    assert_eq!(store.get(2), None);
}

#[test]
fn a_last_line_without_a_line_feed_counts() {
    let store = HistoryStore::load(b"ls\npwd");
    assert_eq!(entries(&store), vec![b"ls".to_vec(), b"pwd".to_vec()]);
}

#[test]
fn empty_lines_are_entries_and_carriage_returns_go() {
    let store = HistoryStore::load(b"ls\r\n\ncd /\r\n\r");
    assert_eq!(
        entries(&store),
        vec![b"ls".to_vec(), b"".to_vec(), b"cd /".to_vec(), b"\r".to_vec()]
    );
}

#[test]
fn a_line_is_recorded_unless_empty_blank_or_repeated() {
    let mut store = HistoryStore::new();
    assert!(store.should_record(b"ls"));
    assert!(!store.should_record(b""));
    assert!(!store.should_record(b" ls"));
    assert_eq!(store.append(b"ls"), Some(b"ls\n".to_vec()));
    assert!(!store.should_record(b"ls"));
    assert!(store.should_record(b"ls "));
    assert!(store.should_record(b"pwd"));
    assert_eq!(store.append(b"pwd"), Some(b"pwd\n".to_vec()));
    assert!(store.should_record(b"ls"));
    assert_eq!(entries(&store), vec![b"ls".to_vec(), b"pwd".to_vec()]);
}

#[test]
fn the_same_line_twice_is_stored_once() {
    let mut store = HistoryStore::load(b"pwd\n");
    assert_eq!(store.append(b"ls -l"), Some(b"ls -l\n".to_vec()));
    assert_eq!(store.append(b"ls -l"), None);
    assert_eq!(entries(&store), vec![b"pwd".to_vec(), b"ls -l".to_vec()]);
}

#[test]
fn a_line_that_begins_with_a_space_is_not_stored() {
    let mut store = HistoryStore::load(b"pwd\n");
    assert_eq!(store.append(b" secret"), None);
    assert_eq!(store.append(b" "), None);
    assert_eq!(store.append(b""), None);
    assert_eq!(entries(&store), vec![b"pwd".to_vec()]);
}

#[test]
fn what_is_recorded_reads_back_as_it_was() {
    let mut file = b"ls\n".to_vec();
    let mut store = HistoryStore::load(&file);
    for line in [&b"pwd"[..], &b"echo \"a b\" c"[..], &b"pwd"[..]] {
        if let Some(record) = store.append(line) {
            file.extend_from_slice(&record);
        }
    }
    assert_eq!(entries(&HistoryStore::load(&file)), entries(&store));
    assert_eq!(store.len(), 4);
}

#[test]
fn the_sentinel_comes_and_goes() {
    let mut store = HistoryStore::load(b"ls\n");
    assert_eq!(store.push_sentinel(), 1);
    assert_eq!(entries(&store), vec![b"ls".to_vec(), b"".to_vec()]);
    store.keep_in_sentinel(b"typing".to_vec());
    assert_eq!(entries(&store), vec![b"ls".to_vec(), b"typing".to_vec()]);
    store.pop_sentinel();
    assert_eq!(entries(&store), vec![b"ls".to_vec()]);
    let mut empty = HistoryStore::new();
    empty.pop_sentinel();
    empty.keep_in_sentinel(b"x".to_vec());
    assert!(empty.is_empty());
}

#[test]
fn submit_swaps_the_sentinel_for_the_line() {
    let mut store = HistoryStore::load(b"ls\n");
    store.push_sentinel();
    assert_eq!(store.submit(b"pwd"), Some(b"pwd\n".to_vec()));
    assert_eq!(entries(&store), vec![b"ls".to_vec(), b"pwd".to_vec(), b"".to_vec()]);
    assert_eq!(store.submit(b"pwd"), None);
    assert_eq!(store.submit(b" pwd"), None);
    assert_eq!(entries(&store), vec![b"ls".to_vec(), b"pwd".to_vec(), b"".to_vec()]);
}

#[test]
fn browsing_is_clamped_to_the_store() {
    let store = HistoryStore::load(b"a\nb\nc\n");
    assert_eq!(store.navigate(Direction::Older, 2), 1);
    assert_eq!(store.navigate(Direction::Older, 1), 0);
    assert_eq!(store.navigate(Direction::Older, 0), 0);
    assert_eq!(store.navigate(Direction::Newer, 0), 1);
    assert_eq!(store.navigate(Direction::Newer, 1), 2);
    assert_eq!(store.navigate(Direction::Newer, 2), 2);
    assert_eq!(store.navigate(Direction::Newer, 9), 2);
    assert_eq!(store.navigate(Direction::Older, 9), 2);
    assert_eq!(HistoryStore::new().navigate(Direction::Newer, 0), 0);
    assert_eq!(HistoryStore::new().navigate(Direction::Older, 4), 0);
}

#[test]
fn bytes_are_compared_and_copied() {
    assert!(bytes_equal(b"abc", b"abc"));
    assert!(bytes_equal(b"", b""));
    assert!(!bytes_equal(b"abc", b"abd"));
    assert!(!bytes_equal(b"abc", b"ab"));
    assert_eq!(copy_bytes(b"abc"), b"abc".to_vec());
    assert!(is_utf8(b"caf\xc3\xa9"));
    assert!(is_utf8(b""));
    assert!(!is_utf8(b"caf\xc3"));
    assert!(!is_utf8(b"\xff"));
}

#[test]
fn reading_ends_at_a_line_that_is_not_text() {
    let store = HistoryStore::load(b"ls\ncaf\xc3\xa9\n\xff\xfe\npwd\n");
    assert_eq!(entries(&store), vec![b"ls".to_vec(), b"caf\xc3\xa9".to_vec()]);
    let store = HistoryStore::load(b"ls\npwd\xff");
    assert_eq!(entries(&store), vec![b"ls".to_vec()]);
    let store = HistoryStore::load(b"\xff\nls\n");
    assert!(store.is_empty());
}
