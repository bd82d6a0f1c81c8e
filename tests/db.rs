use synccheck::db::{Db, DbDiffs, Entry};
use synccheck::error::{ChunkError, DiffError};

fn entry(path: &str, chunk: &[&str], size: u64) -> Entry {
    Entry {
        relative_path: path.to_string(),
        chunk: chunk.iter().map(|s| s.to_string()).collect(),
        size,
    }
}

fn db_of(depth: usize, entries: Vec<Entry>) -> Db {
    let mut db = Db::new(depth);
    for e in entries {
        db.insert(e).unwrap();
    }
    db
}

fn paths(es: &[Entry]) -> Vec<String> {
    let mut v: Vec<String> = es.iter().map(|e| e.relative_path.clone()).collect();
    v.sort();
    v
}

fn diff(current: &Db, reference: &Db) -> DbDiffs {
    current.diffs_from(reference).unwrap()
}

#[test]
fn default_index_has_depth_two_and_no_entries() {
    let db = Db::default();
    assert_eq!(db.depth(), 2);
    assert!(db.entries().is_empty());
}

#[test]
fn duplicate_chunk_is_refused_and_first_kept() {
    let mut db = Db::default();
    assert_eq!(db.insert(entry("/one/a/b/f.txt", &["a", "b", "f.txt"], 1)), Ok(()));
    assert_eq!(
        db.insert(entry("/two/a/b/f.txt", &["a", "b", "f.txt"], 2)),
        Err(ChunkError::DuplicateChunk("/two/a/b/f.txt".to_string()))
    );
    assert_eq!(db.entries().len(), 1);
    assert_eq!(db.entries()[0].relative_path, "/one/a/b/f.txt");
    assert_eq!(db.entries()[0].size, 1);
}

#[test]
fn mismatched_depths_cannot_be_diffed() {
    let current = db_of(2, vec![entry("a/b/f1.txt", &["a", "b", "f1.txt"], 10)]);
    let reference = db_of(3, vec![entry("a/b/f1.txt", &["a", "b", "f1.txt"], 10)]);
    assert_eq!(current.diffs_from(&reference).unwrap_err(), DiffError::MismatchedChunks);
    let empty2 = Db::new(2);
    let empty3 = Db::new(3);
    assert_eq!(empty2.diffs_from(&empty3).unwrap_err(), DiffError::MismatchedChunks);
}

#[test]
fn changed_size_is_reported() {
    let reference = db_of(2, vec![
        entry("a/b/f1.txt", &["a", "b", "f1.txt"], 10),
        entry("a/b/f2.txt", &["a", "b", "f2.txt"], 20),
    ]);
    let current = db_of(2, vec![
        entry("a/b/f1.txt", &["a", "b", "f1.txt"], 10),
        entry("a/b/f2.txt", &["a", "b", "f2.txt"], 25),
    ]);
    let d = diff(&current, &reference);
    assert!(d.missing().is_empty());
    assert_eq!(paths(d.mismatched_size()), vec!["a/b/f2.txt".to_string()]);
    assert_eq!(d.mismatched_size()[0].size, 20);
    assert!(d.out_of_sync());
}

#[test]
fn vanished_file_is_missing() {
    let reference = db_of(2, vec![
        entry("a/b/f1.txt", &["a", "b", "f1.txt"], 10),
        entry("a/b/f3.txt", &["a", "b", "f3.txt"], 5),
    ]);
    let current = db_of(2, vec![entry("a/b/f1.txt", &["a", "b", "f1.txt"], 10)]);
    let d = diff(&current, &reference);
    assert_eq!(paths(d.missing()), vec!["a/b/f3.txt".to_string()]);
    assert!(d.mismatched_size().is_empty());
    assert!(d.out_of_sync());
}

#[test]
fn identical_indexes_are_in_sync() {
    let reference = db_of(2, vec![entry("a/b/f1.txt", &["a", "b", "f1.txt"], 10)]);
    let current = db_of(2, vec![entry("x/a/b/f1.txt", &["a", "b", "f1.txt"], 10)]);
    let d = diff(&current, &reference);
    assert!(d.missing().is_empty());
    assert!(d.mismatched_size().is_empty());
    assert!(!d.out_of_sync());
}

#[test]
fn new_file_in_current_is_not_reported() {
    let reference = db_of(2, vec![entry("a/b/f1.txt", &["a", "b", "f1.txt"], 10)]);
    let current = db_of(2, vec![
        entry("a/b/f1.txt", &["a", "b", "f1.txt"], 10),
        entry("a/b/new.txt", &["a", "b", "new.txt"], 99),
    ]);
    let d = diff(&current, &reference);
    assert!(d.missing().is_empty());
    assert!(d.mismatched_size().is_empty());
    assert!(!d.out_of_sync());
}

#[test]
fn parts_round_trip() {
    let db = db_of(3, vec![
        entry("/r/a/b/c/f1.txt", &["a", "b", "c", "f1.txt"], 10),
        entry("/r/a/b/c/f2.txt", &["a", "b", "c", "f2.txt"], 0),
    ]);
    let parts: Vec<Entry> = db.entries().iter().map(|e| e.copy()).collect();
    let back = Db::from_parts(db.depth(), parts).unwrap();
    assert_eq!(back.depth(), 3);
    assert_eq!(back.entries().len(), 2);
    for (a, b) in back.entries().iter().zip(db.entries()) {
        assert_eq!(a.relative_path, b.relative_path);
        assert_eq!(a.chunk, b.chunk);
        assert_eq!(a.size, b.size);
    }
}

#[test]
fn from_parts_refuses_first_duplicate() {
    let r = Db::from_parts(2, vec![
        entry("p1", &["a", "b", "f.txt"], 1),
        entry("p2", &["a", "b", "g.txt"], 2),
        entry("p3", &["a", "b", "f.txt"], 3),
        entry("p4", &["a", "b", "g.txt"], 4),
    ]);
    assert_eq!(r.unwrap_err(), ChunkError::DuplicateChunk("p3".to_string()));
}

#[test]
fn entry_from_path_keys_at_depth() {
    let e = Entry::from_path("/root/thing/whatever/file.txt", 42, 2).unwrap();
    assert_eq!(e.relative_path, "/root/thing/whatever/file.txt");
    assert_eq!(e.chunk, vec!["thing", "whatever", "file.txt"]);
    assert_eq!(e.size, 42);
    assert_eq!(Entry::from_path("/f.txt", 1, 2).unwrap_err(), ChunkError::NoParent);
}

#[test]
fn error_messages() {
    assert_eq!(ChunkError::NoParent.message(), "Parent directory does not exist");
    assert_eq!(ChunkError::NoFileName.message(), "File name does not exist");
    assert_eq!(
        ChunkError::DuplicateChunk("a/b/f.txt".to_string()).message(),
        "Duplicate chunk: \"a/b/f.txt\""
    );
    assert_eq!(
        ChunkError::DuplicateChunk("a/say \"hi\".txt".to_string()).message(),
        "Duplicate chunk: \"a/say \\\"hi\\\".txt\""
    );
    assert_eq!(DiffError::MismatchedChunks.message(), "Diff files have different chunk size");
}

#[test]
fn many_entries_are_found_by_key() {
    let mut db = Db::default();
    for i in 0..3000u64 {
        let name = format!("f{}.txt", i);
        let path = format!("/r/a/b/{}", name);
        assert_eq!(db.insert(entry(&path, &["a", "b", &name], i)), Ok(()));
    }
    for i in 0..3000u64 {
        let name = format!("f{}.txt", i);
        let path = format!("/s/a/b/{}", name);
        assert_eq!(
            db.insert(entry(&path, &["a", "b", &name], i)),
            Err(ChunkError::DuplicateChunk(path.clone()))
        );
    }
    assert_eq!(db.entries().len(), 3000);
    let mut current = Db::default();
    for i in 0..3000u64 {
        if i % 3 == 0 {
            continue;
        }
        let name = format!("f{}.txt", i);
        let size = if i % 5 == 0 { i + 1 } else { i };
        current.insert(entry(&name, &["a", "b", &name], size)).unwrap();
    }
    let d = diff(&current, &db);
    assert_eq!(d.missing().len(), 1000);
    assert!(d.missing().iter().all(|e| e.size % 3 == 0));
    assert_eq!(d.mismatched_size().len(), 400);
    assert!(d.mismatched_size().iter().all(|e| e.size % 5 == 0 && e.size % 3 != 0));
}

#[test]
fn keys_split_differently_are_distinct() {
    let mut db = Db::default();
    assert_eq!(db.insert(entry("p1", &["ab", "c"], 1)), Ok(()));
    assert_eq!(db.insert(entry("p2", &["a", "bc"], 2)), Ok(()));
    assert_eq!(db.insert(entry("p3", &["abc"], 3)), Ok(()));
    assert_eq!(db.insert(entry("p4", &["a", "b", "c"], 4)), Ok(()));
    assert_eq!(db.entries().len(), 4);
}
