use raw_compressor::batch::{dispatch, exit_code, summarize, BatchError, Summary};
use raw_compressor::outcome::{ErrorKind, Outcome};
use raw_compressor::path::FilePath;
use raw_compressor::protocol::Action;
use raw_compressor::select::{select, AllowList, Candidate, Entry};
use raw_compressor::worker::{Reply, Worker};
use std::collections::{BTreeMap, BTreeSet};
use std::io::Read;

/// A disk in memory, with switches that make single operations fail.
#[derive(Default)]
struct Disk {
    dirs: BTreeSet<String>,
    files: BTreeMap<(String, String), Vec<u8>>,
    unreadable: BTreeSet<String>,
    read_breaks: bool,
    write_breaks: bool,
    flush_breaks: bool,
    move_breaks: bool,
}

fn key(path: &FilePath) -> (String, String) {
    (path.dir.clone(), path.name.clone())
}

impl Disk {
    fn with_dir(dir: &str) -> Disk {
        let mut disk = Disk::default();
        disk.dirs.insert(dir.to_string());
        disk
    }

    fn put(&mut self, dir: &str, name: &str, bytes: &[u8]) {
        self.files.insert((dir.to_string(), name.to_string()), bytes.to_vec());
    }

    fn get(&self, dir: &str, name: &str) -> Option<&Vec<u8>> {
        self.files.get(&(dir.to_string(), name.to_string()))
    }

    fn names(&self, dir: &str) -> Vec<String> {
        self.files.keys().filter(|(d, _)| d == dir).map(|(_, n)| n.clone()).collect()
    }

    fn entries(&self, dir: &str) -> Vec<Entry> {
        self.names(dir)
            .iter()
            .map(|name| Entry { path: FilePath::new(dir, name), is_file: true })
            .collect()
    }

    /// Creates a directory and reports how that went, as the driver does.
    fn create_dir(&mut self, dir: &str) -> Result<(), String> {
        if self.files.keys().any(|(d, n)| format!("{}/{}", d, n) == dir) {
            return Err("a file is in the way".to_string());
        }
        self.dirs.insert(dir.to_string());
        Ok(())
    }
}

/// Performs the worker's actions on the disk until the worker is done.
fn drive(disk: &mut Disk, begun: (Worker, Action)) -> Outcome {
    let (mut worker, mut action) = begun;
    let mut source: Vec<u8> = Vec::new();
    let mut offset = 0;
    let mut archive: Option<(String, String)> = None;
    loop {
        let reply = match action {
            Action::Probe { path } => {
                if disk.files.contains_key(&key(&path)) {
                    Reply::Present
                } else {
                    Reply::Absent
                }
            }
            Action::OpenSource { path } => match disk.files.get(&key(&path)) {
                Some(bytes) if !disk.unreadable.contains(&path.name) => {
                    source = bytes.clone();
                    Reply::Done
                }
                _ => Reply::Failed("permission denied".to_string()),
            },
            Action::CreateArchive { path } => {
                if disk.dirs.contains(&path.dir) {
                    disk.files.insert(key(&path), Vec::new());
                    archive = Some(key(&path));
                    Reply::Done
                } else {
                    Reply::Failed("no such directory".to_string())
                }
            }
            Action::ReadSource => {
                if disk.read_breaks && offset > 0 {
                    Reply::Failed("read error".to_string())
                } else {
                    let end = (offset + 700).min(source.len());
                    let chunk = source[offset..end].to_vec();
                    offset = end;
                    Reply::Data(chunk)
                }
            }
            Action::WriteArchive { bytes } => {
                if disk.write_breaks {
                    Reply::Failed("disk full".to_string())
                } else {
                    disk.files.get_mut(archive.as_ref().unwrap()).unwrap().extend(bytes);
                    Reply::Done
                }
            }
            Action::FinalizeArchive { bytes } => {
                if disk.flush_breaks {
                    Reply::Failed("flush failed".to_string())
                } else {
                    disk.files.get_mut(archive.as_ref().unwrap()).unwrap().extend(bytes);
                    Reply::Done
                }
            }
            Action::MoveOriginal { from, to } => {
                if disk.move_breaks || !disk.dirs.contains(&to.dir) {
                    Reply::Failed("cross-device link".to_string())
                } else {
                    let bytes = disk.files.remove(&key(&from)).unwrap();
                    assert!(disk.files.insert(key(&to), bytes).is_none());
                    Reply::Done
                }
            }
            Action::Finish { outcome } => return outcome,
        };
        action = worker.advance(reply).unwrap();
    }
}

/// A whole run over the files of `input`, as the program makes it.
fn run(disk: &mut Disk, input: &str, originals: &str) -> Result<Vec<Outcome>, BatchError> {
    let created = disk.create_dir(originals);
    let candidates = select(&disk.entries(input), &AllowList::raw_images());
    let jobs = dispatch(&candidates, originals, created)?;
    Ok(jobs.into_iter().map(|job| drive(disk, job)).collect())
}

fn decoded(archive: &[u8]) -> Vec<u8> {
    let mut plain = Vec::new();
    xz2::read::XzDecoder::new(archive).read_to_end(&mut plain).unwrap();
    plain
}

fn raw_bytes(seed: u8) -> Vec<u8> {
    (0..5000u32).map(|i| (i % 251) as u8 ^ seed).collect()
}

fn candidate(dir: &str, name: &str) -> Candidate {
    let entry = Entry { path: FilePath::new(dir, name), is_file: true };
    Candidate::select(&entry, &AllowList::raw_images()).unwrap()
}

#[test]
fn image_is_archived_and_moved_and_the_rest_left_alone() {
    let mut disk = Disk::with_dir("/in");
    disk.put("/in", "img1.CR3", &raw_bytes(1));
    disk.put("/in", "note.txt", b"a note");
    let outcomes = run(&mut disk, "/in", "/originals").unwrap();
    assert_eq!(
        outcomes,
        vec![Outcome::Success {
            candidate: FilePath::new("/in", "img1.CR3"),
            archive: FilePath::new("/in", "img1.CR3.xz"),
            relocated: FilePath::new("/originals", "img1.CR3"),
        }]
    );
    assert!(disk.dirs.contains("/originals"));
    assert_eq!(disk.get("/originals", "img1.CR3"), Some(&raw_bytes(1)));
    assert_eq!(disk.get("/in", "img1.CR3"), None);
    let archive = disk.get("/in", "img1.CR3.xz").unwrap();
    assert_eq!(&archive[..6], &[0xFD, b'7', b'z', b'X', b'Z', 0x00]);
    assert_ne!(archive, &raw_bytes(1));
    assert_eq!(decoded(archive), raw_bytes(1));
    assert_eq!(disk.get("/in", "note.txt"), Some(&b"a note".to_vec()));
    assert_eq!(disk.files.len(), 3);
}

#[test]
fn existing_archive_is_not_overwritten() {
    let mut disk = Disk::with_dir("/in");
    disk.put("/in", "photo.raw", &raw_bytes(2));
    disk.put("/in", "photo.raw.xz", b"an older archive");
    let outcomes = run(&mut disk, "/in", "/originals").unwrap();
    assert_eq!(
        outcomes,
        vec![Outcome::Success {
            candidate: FilePath::new("/in", "photo.raw"),
            archive: FilePath::new("/in", "photo.raw-1.xz"),
            relocated: FilePath::new("/originals", "photo.raw"),
        }]
    );
    assert_eq!(disk.get("/in", "photo.raw.xz"), Some(&b"an older archive".to_vec()));
    assert_eq!(decoded(disk.get("/in", "photo.raw-1.xz").unwrap()), raw_bytes(2));
}

#[test]
fn original_of_the_same_name_is_not_overwritten() {
    let mut disk = Disk::with_dir("/in");
    disk.dirs.insert("/originals".to_string());
    disk.put("/in", "img.nef", &raw_bytes(3));
    disk.put("/originals", "img.nef", b"moved earlier");
    let outcomes = run(&mut disk, "/in", "/originals").unwrap();
    assert_eq!(outcomes.len(), 1);
    assert!(outcomes[0].is_success());
    assert_eq!(disk.get("/originals", "img.nef"), Some(&b"moved earlier".to_vec()));
    assert_eq!(disk.get("/originals", "img-1.nef"), Some(&raw_bytes(3)));
}

#[test]
fn run_is_given_up_when_the_holding_directory_cannot_be_made() {
    let mut disk = Disk::with_dir("/in");
    disk.put("/in", "img1.CR3", &raw_bytes(4));
    disk.put("/in", "originals", b"a file, not a directory");
    let before = disk.files.clone();
    let result = run(&mut disk, "/in", "/in/originals");
    assert_eq!(
        result,
        Err(BatchError::DirectoryCreation {
            dir: "/in/originals".to_string(),
            cause: "a file is in the way".to_string(),
        })
    );
    assert_eq!(disk.files, before);
    assert_eq!(exit_code(&result.map(|outcomes| summarize(&outcomes))), 1);
}

#[test]
fn one_unreadable_candidate_does_not_stop_the_others() {
    let mut disk = Disk::with_dir("/in");
    for (i, name) in ["a.cr3", "b.cr3", "c.cr3", "d.cr3"].iter().enumerate() {
        disk.put("/in", name, &raw_bytes(i as u8));
    }
    disk.unreadable.insert("c.cr3".to_string());
    let outcomes = run(&mut disk, "/in", "/originals").unwrap();
    assert_eq!(outcomes.len(), 4);
    let failures: Vec<&Outcome> = outcomes.iter().filter(|o| !o.is_success()).collect();
    assert_eq!(
        failures,
        vec![&Outcome::Failure {
            candidate: FilePath::new("/in", "c.cr3"),
            kind: ErrorKind::Open,
            cause: "permission denied".to_string(),
        }]
    );
    let summary = summarize(&outcomes);
    assert_eq!(summary, Summary { succeeded: 3, failed: 1 });
    assert_eq!(exit_code(&Ok(summary)), 0);
    for name in ["a.cr3", "b.cr3", "d.cr3"] {
        assert!(disk.get("/originals", name).is_some());
        assert!(disk.get("/in", &format!("{}.xz", name)).is_some());
    }
}

#[test]
fn failed_open_leaves_the_disk_as_it_was() {
    let mut disk = Disk::with_dir("/in");
    disk.dirs.insert("/originals".to_string());
    disk.put("/in", "c.cr3", &raw_bytes(5));
    disk.unreadable.insert("c.cr3".to_string());
    let before = disk.files.clone();
    let outcome = drive(&mut disk, Worker::new(candidate("/in", "c.cr3"), "/originals"));
    assert_eq!(outcome.error_kind(), Some(ErrorKind::Open));
    assert_eq!(outcome.candidate(), &FilePath::new("/in", "c.cr3"));
    assert_eq!(disk.files, before);
}

#[test]
fn failed_creation_is_a_create_error() {
    let mut disk = Disk::default();
    disk.dirs.insert("/originals".to_string());
    disk.put("/gone", "a.raw", &raw_bytes(6));
    let outcome = drive(&mut disk, Worker::new(candidate("/gone", "a.raw"), "/originals"));
    assert_eq!(
        outcome,
        Outcome::Failure {
            candidate: FilePath::new("/gone", "a.raw"),
            kind: ErrorKind::Create,
            cause: "no such directory".to_string(),
        }
    );
    assert_eq!(disk.files.len(), 1);
}

#[test]
fn failure_in_mid_stream_is_a_compression_error_and_leaves_the_partial_archive() {
    let mut disk = Disk::with_dir("/in");
    disk.dirs.insert("/originals".to_string());
    disk.put("/in", "a.raw", &raw_bytes(7));
    disk.read_breaks = true;
    let outcome = drive(&mut disk, Worker::new(candidate("/in", "a.raw"), "/originals"));
    assert_eq!(outcome.error_kind(), Some(ErrorKind::Compression));
    assert!(disk.get("/in", "a.raw.xz").is_some());
    assert_eq!(disk.get("/in", "a.raw"), Some(&raw_bytes(7)));

    let mut disk = Disk::with_dir("/in");
    disk.put("/in", "a.raw", &raw_bytes(7));
    disk.write_breaks = true;
    let outcome = drive(&mut disk, Worker::new(candidate("/in", "a.raw"), "/originals"));
    assert_eq!(
        outcome,
        Outcome::Failure {
            candidate: FilePath::new("/in", "a.raw"),
            kind: ErrorKind::Compression,
            cause: "disk full".to_string(),
        }
    );
    assert_eq!(disk.get("/in", "a.raw"), Some(&raw_bytes(7)));
}

#[test]
fn failed_last_write_is_a_finalize_error() {
    let mut disk = Disk::with_dir("/in");
    disk.dirs.insert("/originals".to_string());
    disk.put("/in", "a.raw", &raw_bytes(8));
    disk.flush_breaks = true;
    let outcome = drive(&mut disk, Worker::new(candidate("/in", "a.raw"), "/originals"));
    assert_eq!(outcome.error_kind(), Some(ErrorKind::Finalize));
    assert_eq!(disk.get("/in", "a.raw"), Some(&raw_bytes(8)));
    assert_eq!(disk.get("/originals", "a.raw"), None);
}

#[test]
fn failed_move_is_a_move_error_and_keeps_the_archive() {
    let mut disk = Disk::with_dir("/in");
    disk.dirs.insert("/originals".to_string());
    disk.put("/in", "a.raw", &raw_bytes(9));
    disk.move_breaks = true;
    let outcome = drive(&mut disk, Worker::new(candidate("/in", "a.raw"), "/originals"));
    assert_eq!(
        outcome,
        Outcome::Failure {
            candidate: FilePath::new("/in", "a.raw"),
            kind: ErrorKind::Move,
            cause: "cross-device link".to_string(),
        }
    );
    assert_eq!(decoded(disk.get("/in", "a.raw.xz").unwrap()), raw_bytes(9));
    assert_eq!(disk.get("/in", "a.raw"), Some(&raw_bytes(9)));
}

#[test]
fn empty_file_becomes_a_valid_archive() {
    let mut disk = Disk::with_dir("/in");
    disk.put("/in", "empty.nef", b"");
    let outcomes = run(&mut disk, "/in", "/originals").unwrap();
    assert!(outcomes[0].is_success());
    let archive = disk.get("/in", "empty.nef.xz").unwrap();
    assert!(!archive.is_empty());
    assert_eq!(decoded(archive), Vec::<u8>::new());
}

#[test]
fn empty_batch_makes_no_worker() {
    let jobs = dispatch(&Vec::new(), "/originals", Ok(())).unwrap();
    assert!(jobs.is_empty());
    assert_eq!(summarize(&Vec::new()), Summary { succeeded: 0, failed: 0 });
}
