use lstodo::git::{
    history_verdict, ignore_verdict, revision_pair, tracking_verdict, GitContext,
};
use lstodo::error::LstodoError;
use lstodo::revision::RevisionId;
use std::io::Write;
use std::path::Path;

fn make_dir(parent: &str, name: &str) -> String {
    if let Ok(dir) = tempfile::Builder::new().prefix(name).rand_bytes(0).tempdir_in(parent) {
        let _ = dir.keep();
    }
    format!("{}/{}", parent, name)
}

fn write_file(dir: &str, name: &str, text: &str) {
    if let Ok(mut file) = tempfile::Builder::new().prefix(name).rand_bytes(0).tempfile_in(dir) {
        file.write_all(text.as_bytes()).unwrap();
        file.flush().unwrap();
        let _ = file.keep();
    }
}

fn fresh_dir() -> String {
    let dir = tempfile::tempdir().unwrap().keep();
    let path = Path::new(&dir).to_str().unwrap().to_string();
    match git2::Repository::discover(&path) {
        Ok(_) => panic!("temporary directory lies inside a repository"),
        Err(_) => path,
    }
}

fn commit_all(repo: &git2::Repository, files: &[&str], message: &str) -> git2::Oid {
    let mut index = repo.index().unwrap();
    for file in files {
        index.add_path(Path::new(file)).unwrap();
    }
    index.write().unwrap();
    let tree = repo.find_tree(index.write_tree().unwrap()).unwrap();
    let who = git2::Signature::now("tester", "tester@example.org").unwrap();
    let parents: Vec<git2::Commit> = match repo.head() {
        Ok(head) => vec![head.peel_to_commit().unwrap()],
        Err(_) => vec![],
    };
    let parents: Vec<&git2::Commit> = parents.iter().collect();
    repo.commit(Some("HEAD"), &who, &who, message, &tree, &parents).unwrap()
}

fn id_of(oid: git2::Oid) -> RevisionId {
    let mut bytes = [0u8; 20];
    bytes.copy_from_slice(oid.as_bytes());
    RevisionId::from_bytes(bytes)
}

#[test]
fn blame_file() {
    let mut ctx = GitContext::new();
    ctx.with_dir("/home/wayne/repo/lstodo/src");
    let path = "/home/wayne/repo/lstodo/src/regex.rs";
    assert!(ctx.covers_path(path));

    println!("oid: {:?}", ctx.get_line_history(path, 1));
}

#[test]
fn empty_context_knows_nothing() {
    let mut ctx = GitContext::new();
    assert!(!ctx.has_repository());
    assert_eq!(ctx.is_ignored("/any/where.rs").unwrap(), false);
    assert_eq!(ctx.is_ignored("target").unwrap(), false);
    assert_eq!(ctx.is_ignored("").unwrap(), false);
    assert!(ctx.get_line_history("/any/where.rs", 1).unwrap().is_none());
    assert!(ctx.get_line_history("x", 7).unwrap().is_none());
    assert!(ctx.get_line_history("x", 0).unwrap().is_none());
    assert!(ctx.get_line_history("/any/where.rs", usize::MAX).unwrap().is_none());
    assert!(ctx.find_commit(id_of(git2::Oid::ZERO_SHA1)).is_none());
    assert_eq!(ctx.query_count(), 0);
    assert!(ctx.covers_path("/any/where.rs"));
}

#[test]
fn with_dir_outside_a_repository_stays_empty() {
    let dir = fresh_dir();
    let mut ctx = GitContext::new();
    ctx.with_dir(&dir);
    assert!(!ctx.has_repository());
    assert_eq!(ctx.is_ignored(&format!("{}/a.txt", dir)).unwrap(), false);
}

#[test]
fn with_dir_finds_the_repository_from_below() {
    let dir = fresh_dir();
    let _repo = git2::Repository::init(&dir).unwrap();
    let sub = make_dir(&dir, "deep");
    let mut ctx = GitContext::new();
    ctx.with_dir(&sub);
    assert!(ctx.has_repository());
    assert!(ctx.covers_path(&format!("{}/a.txt", sub)));
    assert!(ctx.covers_path("relative/a.txt"));
    assert!(!ctx.covers_path("/somewhere/else/a.txt"));
}

#[test]
fn ignore_rules_are_followed() {
    let dir = fresh_dir();
    let repo = git2::Repository::init(&dir).unwrap();
    write_file(&dir, ".gitignore", "secret.txt\n");
    write_file(&dir, "secret.txt", "// TODO: hide\n");
    write_file(&dir, "open.txt", "// TODO: show\n");
    commit_all(&repo, &[".gitignore", "open.txt"], "first");
    let mut ctx = GitContext::new();
    ctx.with_dir(&dir);
    assert_eq!(ctx.is_ignored(&format!("{}/secret.txt", dir)).unwrap(), true);
    assert_eq!(ctx.is_ignored(&format!("{}/open.txt", dir)).unwrap(), false);
    assert_eq!(ctx.is_ignored("secret.txt").unwrap(), true);
    assert_eq!(ctx.is_ignored("open.txt").unwrap(), false);
}

#[test]
fn the_working_directory_itself_is_not_ignored() {
    let dir = fresh_dir();
    let _repo = git2::Repository::init(&dir).unwrap();
    let mut ctx = GitContext::new();
    ctx.with_dir(&dir);
    assert!(ctx.covers_path(&dir));
    assert_eq!(ctx.is_ignored(&dir).unwrap(), false);
    assert_eq!(ctx.is_ignored(&format!("{}/", dir)).unwrap(), false);
}

#[test]
fn a_failed_ignore_query_is_an_error() {
    let dir = fresh_dir();
    let _repo = git2::Repository::init(&dir).unwrap();
    let mut ctx = GitContext::new();
    ctx.with_dir(&dir);
    match ctx.is_ignored(&format!("{}/missing.txt", dir)) {
        Err(LstodoError::Git(_)) => {}
        other => panic!("expected a backend error, got {:?}", other),
    }
}

#[test]
fn ignore_verdict_passes_the_answer_on() {
    assert_eq!(ignore_verdict(Ok(true)).unwrap(), true);
    assert_eq!(ignore_verdict(Ok(false)).unwrap(), false);
    match ignore_verdict(Err(git2::Error::from_str("broken"))) {
        Err(LstodoError::Git(e)) => assert_eq!(e.message(), "broken"),
        other => panic!("expected a backend error, got {:?}", other),
    }
}

#[test]
fn line_history_names_the_revision_of_a_line() {
    let dir = fresh_dir();
    let repo = git2::Repository::init(&dir).unwrap();
    write_file(&dir, "a.rs", "fn a() {}\n\n// TODO: fix me\n");
    let first = commit_all(&repo, &["a.rs"], "first");
    let mut ctx = GitContext::new();
    ctx.with_dir(&dir);
    let (orig, last) = ctx.get_line_history(&format!("{}/a.rs", dir), 3).unwrap().unwrap();
    assert_eq!(orig.bytes, id_of(first).bytes);
    assert_eq!(last.bytes, id_of(first).bytes);
    let (orig, last) = ctx.get_line_history("a.rs", 1).unwrap().unwrap();
    assert_eq!(orig.bytes, id_of(first).bytes);
    assert_eq!(last.bytes, id_of(first).bytes);
}

#[test]
fn line_history_is_absent_for_what_is_not_tracked() {
    let dir = fresh_dir();
    let repo = git2::Repository::init(&dir).unwrap();
    write_file(&dir, "a.rs", "one\n");
    commit_all(&repo, &["a.rs"], "first");
    write_file(&dir, "new.rs", "// TODO: later\n");
    let mut ctx = GitContext::new();
    ctx.with_dir(&dir);
    assert!(ctx.get_line_history(&format!("{}/new.rs", dir), 1).unwrap().is_none());
    assert!(ctx.get_line_history(&format!("{}/a.rs", dir), 99).unwrap().is_none());
    assert!(ctx.get_line_history(&format!("{}/a.rs", dir), 1).unwrap().is_some());
    assert!(ctx.get_line_history(&dir, 1).unwrap().is_none());
}

#[test]
fn find_commit_asks_the_backend_once() {
    let dir = fresh_dir();
    let repo = git2::Repository::init(&dir).unwrap();
    write_file(&dir, "a.rs", "one\n");
    let first = id_of(commit_all(&repo, &["a.rs"], "first change\n\nbody text"));
    let mut ctx = GitContext::new();
    ctx.with_dir(&dir);
    assert!(!ctx.is_cached(&first));
    assert_eq!(ctx.query_count(), 0);
    {
        let found = ctx.find_commit(first).unwrap();
        assert_eq!(found.id.bytes, first.bytes);
        assert_eq!(found.summary.as_deref(), Some("first change"));
    }
    assert_eq!(ctx.query_count(), 1);
    assert!(ctx.is_cached(&first));
    {
        let again = ctx.find_commit(first).unwrap();
        assert_eq!(again.id.bytes, first.bytes);
        assert_eq!(again.summary.as_deref(), Some("first change"));
    }
    assert_eq!(ctx.query_count(), 1);
}

#[test]
fn find_commit_of_an_unknown_revision_is_absent() {
    let dir = fresh_dir();
    let repo = git2::Repository::init(&dir).unwrap();
    write_file(&dir, "a.rs", "one\n");
    commit_all(&repo, &["a.rs"], "first");
    let mut ctx = GitContext::new();
    ctx.with_dir(&dir);
    let unknown = RevisionId::from_bytes([7u8; 20]);
    assert!(ctx.find_commit(unknown).is_none());
    assert!(!ctx.is_cached(&unknown));
    assert_eq!(ctx.query_count(), 1);
}

#[test]
fn binding_keeps_the_cache() {
    let dir = fresh_dir();
    let repo = git2::Repository::init(&dir).unwrap();
    write_file(&dir, "a.rs", "one\n");
    let first = id_of(commit_all(&repo, &["a.rs"], "first"));
    let mut ctx = GitContext::new();
    ctx.with_dir(&dir);
    assert!(ctx.find_commit(first).is_some());
    ctx.with_dir(&fresh_dir());
    assert!(ctx.has_repository());
    assert!(ctx.is_cached(&first));
    assert_eq!(ctx.query_count(), 1);
}

#[test]
fn line_history_without_any_revision_is_absent() {
    let dir = fresh_dir();
    let _repo = git2::Repository::init(&dir).unwrap();
    write_file(&dir, "a.rs", "// TODO: first\n");
    let mut ctx = GitContext::new();
    ctx.with_dir(&dir);
    assert!(ctx.get_line_history(&format!("{}/a.rs", dir), 1).unwrap().is_none());
}

#[test]
fn a_failed_history_query_is_an_error() {
    let dir = fresh_dir();
    let repo = git2::Repository::init(&dir).unwrap();
    write_file(&dir, "a.rs", "one\n");
    commit_all(&repo, &["a.rs"], "first");
    let mut ctx = GitContext::new();
    ctx.with_dir(&dir);
    match ctx.get_line_history("../a.rs", 1) {
        Err(LstodoError::Git(_)) => {}
        other => panic!("expected a backend error, got {:?}", other),
    }
}

#[test]
fn history_verdict_tells_no_data_from_failure() {
    let pair = revision_pair(Some(RevisionId::from_bytes([1u8; 20])), Some(RevisionId::from_bytes([2u8; 20])));
    let (first, last) = history_verdict(Ok(pair), false).unwrap().unwrap();
    assert_eq!((first.bytes[0], last.bytes[0]), (1, 2));
    assert!(history_verdict(Ok(None), false).unwrap().is_none());
    assert!(history_verdict(Ok(None), true).unwrap().is_none());
    assert!(history_verdict(Err(git2::Error::from_str("gone")), true).unwrap().is_none());
    match history_verdict(Err(git2::Error::from_str("broken")), false) {
        Err(LstodoError::Git(e)) => assert_eq!(e.message(), "broken"),
        other => panic!("expected a backend error, got {:?}", other),
    }
}

#[test]
fn revisions_pair_up_or_not_at_all() {
    let id = RevisionId::from_bytes([3u8; 20]);
    assert!(revision_pair(Some(id), None).is_none());
    assert!(revision_pair(None, Some(id)).is_none());
    assert!(revision_pair(None, None).is_none());
    assert!(revision_pair(Some(id), Some(id)).is_some());
}

#[test]
fn remember_keeps_what_was_found() {
    let dir = fresh_dir();
    let _repo = git2::Repository::init(&dir).unwrap();
    let mut ctx = GitContext::new();
    ctx.with_dir(&dir);
    let one = RevisionId::from_bytes([1u8; 20]);
    let two = RevisionId::from_bytes([2u8; 20]);
    assert!(ctx.remember(one, None).is_none());
    assert!(!ctx.is_cached(&one));
    {
        let kept = ctx.remember(one, Some(Some("a message".to_string()))).unwrap();
        assert_eq!(kept.id.bytes, one.bytes);
        assert_eq!(kept.summary.as_deref(), Some("a message"));
    }
    {
        let kept = ctx.remember(two, Some(None)).unwrap();
        assert_eq!(kept.id.bytes, two.bytes);
        assert!(kept.summary.is_none());
    }
    assert!(ctx.is_cached(&one) && ctx.is_cached(&two));
    assert_eq!(ctx.find_commit(one).unwrap().summary.as_deref(), Some("a message"));
    assert_eq!(ctx.find_commit(two).unwrap().id.bytes, two.bytes);
    assert_eq!(ctx.query_count(), 0);
}

#[test]
fn an_empty_repository_has_no_history_to_ask_for() {
    assert_eq!(tracking_verdict(Ok(true)).unwrap(), false);
    assert_eq!(tracking_verdict(Ok(false)).unwrap(), true);
    assert!(matches!(
        tracking_verdict(Err(git2::Error::from_str("broken"))),
        Err(LstodoError::Git(_))
    ));
}

#[test]
fn ignore_entry() {
    let dir = fresh_dir();
    let repo = git2::Repository::init(&dir).unwrap();
    let src = make_dir(&dir, "src");
    write_file(&dir, ".gitignore", "target\n");
    write_file(&dir, "target", "built\n");
    write_file(&src, "main.rs", "fn main() {}\n");
    commit_all(&repo, &[".gitignore", "src/main.rs"], "first");
    let mut ctx = GitContext::new();
    ctx.with_dir(&src);
    let path = "target";

    assert_eq!(true, ctx.is_ignored(path).unwrap());
    assert!(matches!(ctx.is_ignored(".git"), Err(LstodoError::Git(_))));
}
