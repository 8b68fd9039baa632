use media_dedup::cache::{FileKey, FingerprintCache};
use media_dedup::engine::{analyze, cluster, name_groups, AnalysisError, Progress};
use media_dedup::fingerprint::Fingerprint;
use std::cell::{Cell, RefCell};

fn key(path: &str, size: u64) -> FileKey {
    FileKey::new(path.to_string(), size, 1)
}

fn run(
    files: &Vec<FileKey>,
    contents: &Vec<Vec<u8>>,
    cache: &mut FingerprintCache,
    reads: &Cell<usize>,
    seen: &RefCell<Vec<usize>>,
) -> (Result<Vec<Vec<String>>, AnalysisError>, Progress) {
    let mut progress = Progress::new(files.len());
    let read = |k: usize| -> Result<Vec<u8>, AnalysisError> {
        reads.set(reads.get() + 1);
        Ok(contents[k].clone())
    };
    let sink = |v: usize| seen.borrow_mut().push(v);
    let r = analyze(files, cache, &mut progress, &read, &sink);
    (r, progress)
}

#[test]
fn two_identical_and_one_distinct() {
    let files = vec![key("/m/a.jpg", 3), key("/m/b.jpg", 3), key("/m/c.jpg", 3)];
    let contents = vec![b"xyz".to_vec(), b"abc".to_vec(), b"xyz".to_vec()];
    let mut cache = FingerprintCache::new();
    let reads = Cell::new(0);
    let seen = RefCell::new(vec![]);
    let (r, progress) = run(&files, &contents, &mut cache, &reads, &seen);
    let groups = r.unwrap();
    assert_eq!(groups, vec![
        vec!["/m/a.jpg".to_string(), "/m/c.jpg".to_string()],
        vec!["/m/b.jpg".to_string()],
    ]);
    assert_eq!(progress.done, 3);
    assert_eq!(*seen.borrow(), vec![1, 2, 3]);
}

#[test]
fn empty_directory_gives_no_groups() {
    let files: Vec<FileKey> = vec![];
    let mut cache = FingerprintCache::new();
    let reads = Cell::new(0);
    let seen = RefCell::new(vec![]);
    let (r, progress) = run(&files, &vec![], &mut cache, &reads, &seen);
    assert_eq!(r, Ok(vec![]));
    assert_eq!(progress.done, progress.total);
    assert_eq!(*seen.borrow(), vec![0]);
    assert_eq!(reads.get(), 0);
}

#[test]
fn failed_read_ends_with_its_error() {
    let files = vec![key("/m/a.jpg", 3), key("/m/b.jpg", 3)];
    let mut cache = FingerprintCache::new();
    let mut progress = Progress::new(2);
    let read = |k: usize| -> Result<Vec<u8>, AnalysisError> {
        if k == 1 {
            Err(AnalysisError::Io("cannot read /m/b.jpg".to_string()))
        } else {
            Ok(b"abc".to_vec())
        }
    };
    let sink = |_v: usize| {};
    let r = analyze(&files, &mut cache, &mut progress, &read, &sink);
    assert_eq!(r, Err(AnalysisError::Io("cannot read /m/b.jpg".to_string())));
    assert_eq!(progress.done, 1);
}

#[test]
fn overlapping_analyses_share_the_cache() {
    let mut cache = FingerprintCache::new();
    let first = vec![key("/m/a.jpg", 3), key("/m/b.jpg", 3)];
    let first_contents = vec![b"abc".to_vec(), b"abd".to_vec()];
    let reads = Cell::new(0);
    let seen = RefCell::new(vec![]);
    let (r1, _) = run(&first, &first_contents, &mut cache, &reads, &seen);
    assert_eq!(r1.unwrap(), vec![vec!["/m/a.jpg".to_string()], vec!["/m/b.jpg".to_string()]]);
    assert_eq!(reads.get(), 2);

    let second = vec![key("/m/b.jpg", 3), key("/n/c.jpg", 3), key("/m/a.jpg", 3)];
    let second_contents = vec![b"abd".to_vec(), b"abc".to_vec(), b"abc".to_vec()];
    let reads2 = Cell::new(0);
    let seen2 = RefCell::new(vec![]);
    let (r2, _) = run(&second, &second_contents, &mut cache, &reads2, &seen2);
    assert_eq!(r2.unwrap(), vec![
        vec!["/m/b.jpg".to_string()],
        vec!["/n/c.jpg".to_string(), "/m/a.jpg".to_string()],
    ]);
    assert_eq!(reads2.get(), 1);
}

#[test]
fn stale_entry_is_read_again() {
    let mut cache = FingerprintCache::new();
    let reads = Cell::new(0);
    let seen = RefCell::new(vec![]);
    let (_, _) = run(&vec![key("/m/a.jpg", 3)], &vec![b"abc".to_vec()], &mut cache, &reads, &seen);
    let changed = vec![FileKey::new("/m/a.jpg".to_string(), 3, 2)];
    let (_, _) = run(&changed, &vec![b"xyz".to_vec()], &mut cache, &reads, &seen);
    assert_eq!(reads.get(), 2);
}

#[test]
fn cluster_groups_equal_fingerprints() {
    let f = |d: u64| Fingerprint { length: 1, digest: d };
    let fps = vec![f(5), f(7), f(5), f(9), f(7), f(5)];
    assert_eq!(cluster(&fps), vec![vec![0, 2, 5], vec![1, 4], vec![3]]);
    assert_eq!(cluster(&vec![]), Vec::<Vec<usize>>::new());
}

#[test]
fn same_digest_other_length_is_not_a_duplicate() {
    let fps = vec![Fingerprint { length: 1, digest: 5 }, Fingerprint { length: 2, digest: 5 }];
    assert_eq!(cluster(&fps), vec![vec![0], vec![1]]);
}

#[test]
fn groups_are_named_by_path() {
    let files = vec![key("p", 1), key("q", 1), key("r", 1)];
    let names = name_groups(&vec![vec![0, 2], vec![1]], &files);
    assert_eq!(names, vec![vec!["p".to_string(), "r".to_string()], vec!["q".to_string()]]);
}

#[test]
fn progress_counts_up() {
    let mut p = Progress::new(2);
    assert_eq!(p.advance(), 1);
    assert_eq!(p.advance(), 2);
    assert_eq!(p.done, p.total);
}

#[test]
fn error_messages() {
    assert_eq!(AnalysisError::Io("no such directory".to_string()).message(), "no such directory");
    assert_eq!(AnalysisError::Internal("closed".to_string()).message(), "closed");
}

#[test]
fn concurrent_runs_on_snapshots_agree_with_fresh_runs() {
    let shared = std::sync::Mutex::new(FingerprintCache::new());
    let first = vec![key("/m/a.jpg", 3), key("/m/b.jpg", 3), key("/m/c.jpg", 3)];
    let first_contents = vec![b"abc".to_vec(), b"abc".to_vec(), b"xyz".to_vec()];
    let second = vec![key("/m/c.jpg", 3), key("/n/d.jpg", 3), key("/m/a.jpg", 3)];
    let second_contents = vec![b"xyz".to_vec(), b"xyz".to_vec(), b"abc".to_vec()];
    let mut local1 = shared.lock().unwrap().snapshot();
    let mut local2 = shared.lock().unwrap().snapshot();
    let (reads, seen) = (Cell::new(0), RefCell::new(vec![]));
    let (r1, _) = run(&first, &first_contents, &mut local1, &reads, &seen);
    let (r2, _) = run(&second, &second_contents, &mut local2, &reads, &seen);
    shared.lock().unwrap().absorb(&local1);
    shared.lock().unwrap().absorb(&local2);
    assert_eq!(r1.unwrap(), vec![
        vec!["/m/a.jpg".to_string(), "/m/b.jpg".to_string()],
        vec!["/m/c.jpg".to_string()],
    ]);
    assert_eq!(r2.unwrap(), vec![
        vec!["/m/c.jpg".to_string(), "/n/d.jpg".to_string()],
        vec!["/m/a.jpg".to_string()],
    ]);
    let mut merged = shared.lock().unwrap().snapshot();
    let reads3 = Cell::new(0);
    let (r3, _) = run(&second, &second_contents, &mut merged, &reads3, &seen);
    assert!(r3.is_ok());
    assert_eq!(reads3.get(), 0);
}

#[test]
fn cached_files_are_not_read() {
    let files = vec![key("/m/a.jpg", 3), key("/m/b.jpg", 3)];
    let mut cache = FingerprintCache::new();
    cache.insert(key("/m/a.jpg", 3), Fingerprint { length: 3, digest: 1 });
    let mut progress = Progress::new(2);
    let read = |k: usize| -> Result<Vec<u8>, AnalysisError> {
        assert_eq!(k, 1, "a cached file was read");
        Ok(b"abc".to_vec())
    };
    let sink = |v: usize| assert!(v <= 2);
    let r = analyze(&files, &mut cache, &mut progress, &read, &sink);
    assert_eq!(r.unwrap().len(), 2);
}
