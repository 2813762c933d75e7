use lstodo::entry::{Entry, Timestamp};
use lstodo::git::GitContext;
use lstodo::options::{Options, SortByOption};
use lstodo::printer::{short_hash, Printer, SHORT_HASH_LENGTH};
use lstodo::revision::RevisionId;
use std::io::Write;
use std::path::Path;

fn id(first: u8) -> RevisionId {
    let mut bytes = [0u8; 20];
    bytes[0] = first;
    RevisionId::from_bytes(bytes)
}

fn entry(name: &str, first: Option<u8>, last: Option<u8>, secs: i64) -> Entry {
    let history = match (first, last) {
        (Some(a), Some(b)) => Some((id(a), id(b))),
        _ => None,
    };
    Entry::new(name.to_string(), 1, name.to_string(), history, Timestamp { secs, nanos: 0 })
}

fn arrange(entries: Vec<Entry>, sort_by: SortByOption, reverse: bool) -> Vec<String> {
    let options = Options { root_dir: "/".to_string(), sort_by, reverse };
    let printer = Printer::new(entries, GitContext::new(), options).prepare();
    let mut names = Vec::new();
    for at in 0..printer.len() {
        names.push(printer.entry(at).path.clone());
    }
    names
}

fn sample() -> Vec<Entry> {
    vec![
        entry("a", Some(3), Some(1), 30),
        entry("b", Some(1), Some(4), 10),
        entry("c", Some(2), Some(2), 40),
        entry("d", Some(4), Some(3), 20),
    ]
}

#[test]
fn unsorted_keeps_the_order_of_the_scan() {
    assert_eq!(arrange(sample(), SortByOption::Unsorted, false), vec!["a", "b", "c", "d"]);
    assert_eq!(arrange(sample(), SortByOption::Unsorted, true), vec!["d", "c", "b", "a"]);
    assert!(arrange(vec![], SortByOption::Unsorted, true).is_empty());
}

#[test]
fn sorted_by_first_commit() {
    assert_eq!(arrange(sample(), SortByOption::FirstCommit, false), vec!["b", "c", "a", "d"]);
    assert_eq!(arrange(sample(), SortByOption::FirstCommit, true), vec!["d", "a", "c", "b"]);
}

#[test]
fn sorted_by_last_commit() {
    assert_eq!(arrange(sample(), SortByOption::LastCommit, false), vec!["a", "c", "d", "b"]);
    assert_eq!(arrange(sample(), SortByOption::LastCommit, true), vec!["b", "d", "c", "a"]);
}

#[test]
fn sorted_by_last_modified() {
    assert_eq!(arrange(sample(), SortByOption::LastModified, false), vec!["b", "d", "a", "c"]);
}

#[test]
fn reversed_time_order_is_the_ascending_order_backwards() {
    let up = arrange(sample(), SortByOption::LastModified, false);
    let mut down = arrange(sample(), SortByOption::LastModified, true);
    assert_eq!(down, vec!["c", "a", "d", "b"]);
    down.reverse();
    assert_eq!(up, down);
}

#[test]
fn equal_records_keep_their_order() {
    let entries = vec![
        entry("a", None, None, 2),
        entry("b", None, None, 1),
        entry("c", None, None, 2),
        entry("d", None, None, 1),
        entry("e", None, None, 2),
    ];
    assert_eq!(arrange(entries, SortByOption::LastModified, false), vec!["b", "d", "a", "c", "e"]);
    let unknown = vec![entry("x", None, None, 2), entry("y", None, None, 1)];
    assert_eq!(arrange(unknown, SortByOption::FirstCommit, false), vec!["x", "y"]);
}

#[test]
fn sorting_agrees_with_the_standard_sort() {
    let mut expected = sample();
    expected.sort_by(Entry::cmp_last_commit);
    let expected: Vec<String> = expected.iter().map(|e| e.path.clone()).collect();
    assert_eq!(arrange(sample(), SortByOption::LastCommit, false), expected);
    let mut expected = sample();
    expected.sort_by(Entry::cmp_last_modified);
    let expected: Vec<String> = expected.iter().map(|e| e.path.clone()).collect();
    assert_eq!(arrange(sample(), SortByOption::LastModified, false), expected);
}

#[test]
fn short_hash_is_seven_hex_digits() {
    let mut bytes = [0u8; 20];
    bytes[0] = 0xab;
    bytes[1] = 0x01;
    bytes[2] = 0xf0;
    bytes[3] = 0x9c;
    bytes[4] = 0xff;
    let id = RevisionId::from_bytes(bytes);
    assert_eq!(short_hash(&id), "ab01f09");
    assert_eq!(short_hash(&id).len(), SHORT_HASH_LENGTH);
    assert_eq!(short_hash(&RevisionId::from_bytes([0u8; 20])), "0000000");
    let oid = git2::Oid::from_bytes(&bytes).unwrap();
    assert_eq!(short_hash(&id), oid.to_string()[..7]);
}

#[test]
fn label_without_repository_is_absent() {
    let options = Options { root_dir: "/".to_string(), sort_by: SortByOption::Unsorted, reverse: false };
    let mut printer = Printer::new(sample(), GitContext::new(), options);
    assert!(printer.print_commit(0).is_none());
    let (entries, ctx, options) = printer.into_parts();
    assert_eq!(entries.len(), 4);
    assert_eq!(ctx.query_count(), 0);
    assert_eq!(options.root_dir, "/");
}

#[test]
fn label_shows_short_hash_and_summary() {
    let dir = tempfile::tempdir().unwrap().keep();
    let root = Path::new(&dir).to_str().unwrap().to_string();
    let repo = git2::Repository::init(&root).unwrap();
    let mut file = tempfile::Builder::new().prefix("a.rs").rand_bytes(0).tempfile_in(&root).unwrap();
    file.write_all(b"// TODO: fix me\n").unwrap();
    file.flush().unwrap();
    let _ = file.keep().unwrap();
    let mut index = repo.index().unwrap();
    index.add_path(Path::new("a.rs")).unwrap();
    let tree = repo.find_tree(index.write_tree().unwrap()).unwrap();
    let who = git2::Signature::now("tester", "tester@example.org").unwrap();
    let oid = repo.commit(Some("HEAD"), &who, &who, "add a marker", &tree, &[]).unwrap();
    let mut bytes = [0u8; 20];
    bytes.copy_from_slice(oid.as_bytes());
    let first = RevisionId::from_bytes(bytes);

    let mut ctx = GitContext::new();
    ctx.with_dir(&root);
    let entries = vec![
        Entry::new("a.rs".to_string(), 1, "x".to_string(), Some((first, first)), Timestamp { secs: 0, nanos: 0 }),
        Entry::new("b.rs".to_string(), 1, "x".to_string(), None, Timestamp { secs: 0, nanos: 0 }),
        Entry::new("c.rs".to_string(), 1, "x".to_string(), Some((first, first)), Timestamp { secs: 0, nanos: 0 }),
    ];
    let options = Options { root_dir: root, sort_by: SortByOption::Unsorted, reverse: false };
    let mut printer = Printer::new(entries, ctx, options);
    let label = printer.print_commit(0).unwrap();
    assert_eq!(label.short_id, oid.to_string()[..7]);
    assert_eq!(label.id.bytes, first.bytes);
    assert!(printer.git_context().has_repository());
    assert_eq!(label.summary.as_deref(), Some("add a marker"));
    assert!(printer.print_commit(1).is_none());
    let again = printer.print_commit(2).unwrap();
    assert_eq!(again.summary.as_deref(), Some("add a marker"));
    let (_, ctx, _) = printer.into_parts();
    assert_eq!(ctx.query_count(), 1);
}

#[test]
fn sort_can_be_called_in_place() {
    let options = Options { root_dir: "/".to_string(), sort_by: SortByOption::LastModified, reverse: true };
    let mut printer = Printer::new(sample(), GitContext::new(), options);
    printer.sort();
    let times: Vec<i64> = (0..printer.len()).map(|at| printer.entry(at).modified.secs).collect();
    assert_eq!(times, vec![40, 30, 20, 10]);
}
