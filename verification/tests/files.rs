use lun::file::{
    collect_files, compute_hash, compute_md_stamp, compute_mtime_stamp, feed, hash_md,
    hash_mtime, keep_entry, mix_stamps, CollectError, File, FileError, Found, Metadata, Posix,
    Stamp, Xxhash,
};
use lun::git::{file_changed_from_refs, same_bytes, Working};
use lun::staged::{collect_staged_files, get_staged_files};

fn md(len: u64, mtime_ns: Option<u128>) -> Metadata {
    Metadata { len, posix: Some(Posix { uid: 1000, gid: 100, mode: 0o100644 }), mtime_ns }
}

#[test]
fn digest_of_nothing() {
    assert_eq!(compute_hash(b""), Xxhash(0x99aa06d3014798d86001c324468d497f));
}

#[test]
fn digest_depends_on_the_bytes() {
    assert_eq!(compute_hash(b"abc"), compute_hash(b"abc"));
    assert_ne!(compute_hash(b"abc"), compute_hash(b"abd"));
    assert_ne!(compute_hash(b"abc"), Xxhash(0));
}

#[test]
fn feed_appends() {
    let mut buf = vec![1, 2];
    feed(&mut buf, &[3, 4, 5]);
    feed(&mut buf, &[]);
    assert_eq!(buf, vec![1, 2, 3, 4, 5]);
}

#[test]
fn metadata_bytes() {
    let mut buf = Vec::new();
    hash_md("a/b.py", &md(0x0102, Some(5)), &mut buf);
    let mut expected = b"a/b.py".to_vec();
    expected.extend_from_slice(&[2, 1, 0, 0, 0, 0, 0, 0]);
    expected.extend_from_slice(&1000u32.to_le_bytes());
    expected.extend_from_slice(&100u32.to_le_bytes());
    expected.extend_from_slice(&0o100644u32.to_le_bytes());
    assert_eq!(buf, expected);
    assert_eq!(compute_md_stamp("a/b.py", &md(0x0102, Some(5))), Stamp(compute_hash(&expected)));

    let mut plain = Vec::new();
    hash_md("x", &Metadata { len: 1, posix: None, mtime_ns: None }, &mut plain);
    assert_eq!(plain, vec![b'x', 1, 0, 0, 0, 0, 0, 0, 0]);
}

#[test]
fn mtime_bytes() {
    let mut buf = vec![9];
    assert_eq!(hash_mtime(&md(1, Some(0x0a0b)), &mut buf), Ok(()));
    let mut expected = vec![9, 0x0b, 0x0a];
    expected.extend_from_slice(&[0; 14]);
    assert_eq!(buf, expected);
    assert_eq!(
        compute_mtime_stamp(&md(1, Some(0x0a0b))),
        Ok(Stamp(compute_hash(&0x0a0bu128.to_le_bytes())))
    );
    let mut untouched = vec![9];
    assert_eq!(hash_mtime(&md(1, None), &mut untouched), Err(FileError::NoMtime));
    assert_eq!(untouched, vec![9]);
    assert_eq!(compute_mtime_stamp(&md(1, None)), Err(FileError::NoMtime));
}

#[test]
fn new_file() {
    let f = File::new("a.py".to_string(), &md(42, Some(7))).unwrap();
    assert_eq!(f.path, "a.py");
    assert_eq!(f.size, 42);
    assert_eq!(f.metadata_stamp, compute_md_stamp("a.py", &md(42, Some(7))));
    assert_eq!(f.mtime_stamp, compute_mtime_stamp(&md(42, Some(7))).unwrap());
    assert_eq!(f.content_stamp, None);
    assert_eq!(File::new("a.py".to_string(), &md(42, None)).unwrap_err(), FileError::NoMtime);
}

#[test]
fn content_stamp_is_set_once() {
    let mut f = File::new("a.py".to_string(), &md(3, Some(7))).unwrap();
    f.fill_content_stamp(b"abc");
    assert_eq!(f.content_stamp, Some(Stamp(compute_hash(b"abc"))));
    f.fill_content_stamp(b"xyz");
    assert_eq!(f.content_stamp, Some(Stamp(compute_hash(b"abc"))));
}

#[test]
fn stamps_mix_the_metadata() {
    let mut f = File::new("a.py".to_string(), &md(3, Some(7))).unwrap();
    let mtime = f.mtime_stamp();
    assert_eq!(mtime.0 .0, mix_stamps(f.metadata_stamp.0 .0, f.mtime_stamp.0 .0));
    let without = f.content_stamp();
    assert_eq!(without.0, compute_hash(&f.metadata_stamp.0 .0.to_le_bytes()));
    f.fill_content_stamp(b"abc");
    let with = f.content_stamp();
    assert_eq!(with.0 .0, mix_stamps(f.metadata_stamp.0 .0, compute_hash(b"abc").0));
    assert_ne!(with, without);
    assert_ne!(with, mtime);
    let mut both = f.metadata_stamp.0 .0.to_le_bytes().to_vec();
    both.extend_from_slice(&compute_hash(b"abc").0.to_le_bytes());
    assert_eq!(with.0, compute_hash(&both));
    assert_eq!(f.clone().content_stamp(), with);
}

#[test]
fn entries_of_a_walk() {
    let cache = "/project/.lun";
    assert!(keep_entry("./src/a.py", Some("/project/src/a.py"), cache));
    assert!(keep_entry("./.github/x.yml", Some("/project/.github/x.yml"), cache));
    assert!(keep_entry("./a.bck.py", Some("/project/a.bck.py"), cache));
    assert!(!keep_entry("./src/a.bck", Some("/project/src/a.bck"), cache));
    assert!(!keep_entry("./.git", Some("/project/.git"), cache));
    assert!(!keep_entry("./.git/config", Some("/project/.git/config"), cache));
    assert!(!keep_entry(".git/config", Some("/project/.git/config"), cache));
    assert!(keep_entry("./.gitignore", Some("/project/.gitignore"), cache));
    assert!(!keep_entry("./.lun/cache", Some("/project/.lun/cache"), cache));
    assert!(keep_entry("./.lunatic", Some("/project/.lunatic"), cache));
    assert!(!keep_entry("./src/a.py", None, cache));
}

fn found(path: &str, is_dir: bool, metadata: Option<Metadata>, still_there: bool) -> Found {
    Found { path: path.to_string(), is_dir, metadata, still_there }
}

#[test]
fn walk_gives_files() {
    let entries = vec![
        found(".", true, Some(md(0, Some(1))), true),
        found("./a.py", false, Some(md(10, Some(1))), true),
        found("./gone.py", false, Some(md(10, Some(1))), false),
        found("./unknown.py", false, None, true),
        found("./timeless.py", false, Some(md(10, None)), true),
        found("./sub", true, Some(md(0, Some(1))), true),
        found("./sub/b.py", false, Some(md(20, Some(2))), true),
    ];
    let files = collect_files(".", &entries).unwrap();
    let paths: Vec<&str> = files.iter().map(|f| f.path.as_str()).collect();
    assert_eq!(paths, vec!["a.py", "sub/b.py"]);
    assert_eq!(files[1].size, 20);
    assert_eq!(files[1].metadata_stamp, compute_md_stamp("sub/b.py", &md(20, Some(2))));
    assert!(files.iter().all(|f| f.content_stamp.is_none()));
    assert!(collect_files(".", &Vec::new()).unwrap().is_empty());
}

#[test]
fn walk_outside_the_root_is_given_up() {
    let entries = vec![
        found("root/a.py", false, Some(md(10, Some(1))), true),
        found("other/b.py", false, Some(md(10, Some(1))), true),
    ];
    match collect_files("root", &entries) {
        Err(CollectError::NotUnderRoot { path }) => assert_eq!(path, "other/b.py"),
        other => panic!("unexpected {:?}", other),
    }
    // a directory outside does not stop the walk; the first file outside is named
    let entries = vec![
        found("elsewhere", true, None, true),
        found("root/a.py", false, Some(md(10, Some(1))), true),
        found("x/c.py", false, None, false),
        found("y/d.py", false, Some(md(10, Some(1))), true),
    ];
    match collect_files("root", &entries) {
        Err(CollectError::NotUnderRoot { path }) => assert_eq!(path, "x/c.py"),
        other => panic!("unexpected {:?}", other),
    }
}

#[test]
fn staged_paths() {
    assert_eq!(get_staged_files("a.py\nsub/b.py\n"), vec!["a.py", "sub/b.py"]);
    assert_eq!(get_staged_files("a.py\r\n\nb.py"), vec!["a.py", "b.py"]);
    assert_eq!(get_staged_files(""), Vec::<String>::new());
    assert_eq!(get_staged_files("\n\n"), Vec::<String>::new());
}

#[test]
fn staged_files() {
    let entries = vec![
        found("a.py", false, Some(md(10, Some(1))), true),
        found("deleted.py", false, None, false),
        found("b.py", false, Some(md(20, Some(2))), true),
    ];
    let files = collect_staged_files(&entries).unwrap();
    let paths: Vec<&str> = files.iter().map(|f| f.path.as_str()).collect();
    assert_eq!(paths, vec!["a.py", "b.py"]);
    let broken = vec![found("a.py", false, None, true)];
    assert_eq!(collect_staged_files(&broken).unwrap_err(), FileError::NoMetadata);
    let timeless = vec![found("a.py", false, Some(md(1, None)), true)];
    assert_eq!(collect_staged_files(&timeless).unwrap_err(), FileError::NoMtime);
}

#[test]
fn changed_from_refs() {
    assert!(same_bytes(b"abc", b"abc"));
    assert!(!same_bytes(b"abc", b"abd"));
    assert!(!same_bytes(b"abc", b"ab"));
    assert!(same_bytes(b"", b""));
    // not there
    assert!(file_changed_from_refs(None, &vec![Some(b"x".to_vec())]));
    // no ref
    assert!(file_changed_from_refs(Some(b"x"), &vec![]));
    // no ref has it, or has it otherwise
    assert!(file_changed_from_refs(Some(b"x"), &vec![None, Some(b"y".to_vec())]));
    // some ref has it as it is
    assert!(!file_changed_from_refs(Some(b"x"), &vec![None, Some(b"y".to_vec()), Some(b"x".to_vec())]));
    assert!(!file_changed_from_refs(Some(b""), &vec![Some(Vec::new())]));
}

#[test]
fn changed_by_what_was_found() {
    let blobs = vec![None, Some(b"x".to_vec())];
    assert!(lun::git::changed_from_refs(&Working::Missing, &blobs));
    assert!(lun::git::changed_from_refs(&Working::Unreadable, &blobs));
    assert!(!lun::git::changed_from_refs(&Working::Content(b"x".to_vec()), &blobs));
    assert!(lun::git::changed_from_refs(&Working::Content(b"y".to_vec()), &blobs));
    assert!(lun::git::changed_from_refs(&Working::Content(b"x".to_vec()), &Vec::new()));
}
