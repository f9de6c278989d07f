use bread::database::{
    read_header, read_row, split_lines, starts_header, ArtifactFile, Database, DatabaseEntry, Header,
};
use bread::error::Error;

fn entry(name: &str, version: &str, size: u64, checksum: &str) -> DatabaseEntry {
    DatabaseEntry {
        name: name.to_string(),
        version: version.to_string(),
        size,
        checksum: checksum.to_string(),
    }
}

const ABC_SHA512: &str = "ddaf35a193617abacc417349ae20413112e6fa4e89a97ea20a9eeee64b55d39a2192992a274fc1a836ba3c23a3feebbd454d4423643ce80e2a9ac94fa54ca49f";
const EMPTY_SHA512: &str = "cf83e1357eefb8bdf1542850d66d8007d620e4050b5715dc83f4a921d36ce9ce47d0d13c5d85f2b0ff8318d2877eec2f63b931bd47417a81a538327af927da3e";

#[test]
fn new_entry_is_empty() {
    assert_eq!(DatabaseEntry::new(), entry("", "", 0, ""));
}

#[test]
fn parses_header_and_rows() {
    let db = Database::from_string("leopard", "VERSION_1_0\nlibc@2.31 1024 abcdef\nbash@5.0-1 77 0123\n").unwrap();
    assert_eq!(db.name, "leopard");
    assert_eq!(db.entries, vec![entry("libc", "2.31", 1024, "abcdef"), entry("bash", "5.0-1", 77, "0123")]);
}

#[test]
fn parses_without_final_line_feed() {
    let db = Database::from_string("x", "VERSION_1_0\nlibc@2.31 1024 abcdef").unwrap();
    assert_eq!(db.entries, vec![entry("libc", "2.31", 1024, "abcdef")]);
}

#[test]
fn fields_may_be_parted_by_several_spaces() {
    let db = Database::from_string("x", "VERSION_1_7\n  libc@2.31   1024  abcdef  \n").unwrap();
    assert_eq!(db.entries, vec![entry("libc", "2.31", 1024, "abcdef")]);
}

#[test]
fn version_keeps_later_separators() {
    let db = Database::from_string("x", "VERSION_1_0\na@b@c 1 ff\n").unwrap();
    assert_eq!(db.entries, vec![entry("a", "b@c", 1, "ff")]);
}

#[test]
fn empty_document_is_an_empty_index() {
    let db = Database::from_string("x", "").unwrap();
    assert_eq!(db.name, "x");
    assert!(db.entries.is_empty());
    let db = Database::from_string("x", "VERSION_1_0\n").unwrap();
    assert!(db.entries.is_empty());
}

#[test]
fn future_major_version_is_rejected() {
    assert_eq!(Database::from_string("x", "VERSION_2_0\nlibc@2.31 1024 abcdef\n"), Err(Error::UnsupportedDatabaseVersion));
    assert_eq!(Database::from_string("x", "VERSION_17_3"), Err(Error::UnsupportedDatabaseVersion));
    assert_eq!(
        Database::from_string("x", "VERSION_99999999999999999999999_0\n"),
        Err(Error::UnsupportedDatabaseVersion)
    );
    assert_eq!(
        Database::from_string("x", "VERSION_1_0\na@1 1 ff\nVERSION_2_0\n"),
        Err(Error::UnsupportedDatabaseVersion)
    );
}

#[test]
fn row_before_header_is_rejected() {
    assert_eq!(
        Database::from_string("x", "libc@2.31 1024 abcdef\nVERSION_1_0\n"),
        Err(Error::MalformedDatabaseRow { line: 1 })
    );
    assert_eq!(
        Database::from_string("x", "VERSION_0_9\nlibc@2.31 1024 abcdef\n"),
        Err(Error::MalformedDatabaseRow { line: 2 })
    );
}

#[test]
fn malformed_lines_are_named() {
    let cases = [
        ("VERSION_1_0\nlibc@2.31 1024 abcdef\nlibc-2.31 1024 abcdef\n", 3),
        ("VERSION_1_0\nlibc@2.31 10x4 abcdef\n", 2),
        ("VERSION_1_0\nlibc@2.31 1024\n", 2),
        ("VERSION_1_0\n\nlibc@2.31 1024 abcdef\n", 2),
        ("VERSION_1_0\nlibc@2.31 18446744073709551616 abcdef\n", 2),
        ("VERSION_1\n", 1),
        ("VERSION_1_\n", 1),
        ("VERSION__0\n", 1),
        ("VERSION_1_0_0\n", 1),
        ("VERSION_1_0\nVERSION_one_0\n", 2),
    ];
    for (text, line) in cases {
        assert_eq!(Database::from_string("x", text), Err(Error::MalformedDatabaseRow { line }), "{:?}", text);
    }
}

#[test]
fn largest_size_is_read() {
    let db = Database::from_string("x", "VERSION_1_0\na@1 18446744073709551615 ff\nb@2 007 ee\n").unwrap();
    assert_eq!(db.entries[0].size, u64::MAX);
    assert_eq!(db.entries[1].size, 7);
}

#[test]
fn writes_header_then_rows() {
    let db = Database {
        name: "leopard".to_string(),
        entries: vec![entry("libc", "2.31", 1024, "abcdef"), entry("bash", "5.0", 0, "00")],
    };
    assert_eq!(db.to_text(), "VERSION_1_0\nlibc@2.31 1024 abcdef\nbash@5.0 0 00\n");
    let empty = Database { name: "e".to_string(), entries: vec![] };
    assert_eq!(empty.to_text(), "VERSION_1_0\n");
}

#[test]
fn text_round_trip() {
    for n in 0..5u64 {
        let mut entries = Vec::new();
        for i in 0..n {
            entries.push(entry(&format!("pkg{}", i), &format!("{}.{}", i, n), i * 1_000_000_007, ABC_SHA512));
        }
        entries.push(entry("big", "1", u64::MAX, EMPTY_SHA512));
        let db = Database { name: "rt".to_string(), entries };
        let back = Database::from_string("rt", &db.to_text()).unwrap();
        assert_eq!(back, db);
    }
}

#[test]
fn entry_from_artifact_name() {
    let e = DatabaseEntry::from_parts("foo@1.2.3.crumb", 9, "ff".to_string()).unwrap();
    assert_eq!(e, entry("foo", "1.2.3", 9, "ff"));
    assert_eq!(
        DatabaseEntry::from_parts("bad-name.crumb", 9, "ff".to_string()),
        Err(Error::MalformedArtifactName)
    );
    assert_eq!(DatabaseEntry::from_parts("foo@1.0", 1, String::new()).unwrap().version, "1.0");
    assert_eq!(DatabaseEntry::from_parts("foo@.crumb", 1, String::new()).unwrap().version, "");
    assert_eq!(DatabaseEntry::from_parts("foo@1.crumb.crumb", 1, String::new()).unwrap().version, "1.crumb");
    assert_eq!(DatabaseEntry::from_parts("@x@y.crumb", 1, String::new()).unwrap(), entry("", "x@y", 1, ""));
}

#[test]
fn entry_from_artifact_content() {
    let e = DatabaseEntry::from_file("foo@1.2.3.crumb", b"abc").unwrap();
    assert_eq!(e, entry("foo", "1.2.3", 3, ABC_SHA512));
    let e = DatabaseEntry::from_file("z@0.crumb", b"").unwrap();
    assert_eq!(e, entry("z", "0", 0, EMPTY_SHA512));
    assert_eq!(e.checksum.len(), 128);
    assert_eq!(DatabaseEntry::from_file("bad-name.crumb", b"abc"), Err(Error::MalformedArtifactName));
}

#[test]
fn index_from_folder() {
    let files = vec![
        ArtifactFile { file_name: "b@2.crumb".to_string(), content: b"abc".to_vec() },
        ArtifactFile { file_name: "a@1.crumb".to_string(), content: vec![] },
    ];
    let db = Database::from_folder("leopard", Some(files)).unwrap();
    assert_eq!(db.name, "leopard");
    assert_eq!(db.entries, vec![entry("a", "1", 0, EMPTY_SHA512), entry("b", "2", 3, ABC_SHA512)]);
    assert_eq!(Database::from_folder("leopard", None), Err(Error::MissingDirectory));
    let bad = vec![
        ArtifactFile { file_name: "a@1.crumb".to_string(), content: vec![] },
        ArtifactFile { file_name: "README".to_string(), content: vec![] },
    ];
    assert_eq!(Database::from_folder("leopard", Some(bad)), Err(Error::MalformedArtifactName));
    assert!(Database::from_folder("e", Some(Vec::new())).unwrap().entries.is_empty());
}

#[test]
fn query_returns_first_of_equal_names() {
    let db = Database {
        name: "q".to_string(),
        entries: vec![entry("bash", "5", 1, "aa"), entry("libc", "2.31", 2, "bb"), entry("libc", "2.32", 3, "cc")],
    };
    assert_eq!(db.query_s("libc", "x86_64"), Some(&entry("libc", "2.31", 2, "bb")));
    assert_eq!(db.query_s("bash", "x86_64"), Some(&entry("bash", "5", 1, "aa")));
    assert_eq!(db.query_s("zsh", "x86_64"), None);
    assert_eq!(db.query_s("lib", "x86_64"), None);
    let empty = Database { name: "q".to_string(), entries: vec![] };
    assert_eq!(empty.query_s("libc", ""), None);
}

#[test]
fn folder_entries_follow_file_names() {
    let names = ["zlib@1.crumb", "bash@5.crumb", "Bash@1.crumb", "bash@10.crumb", "b@1.crumb", "bash@5.crumb"];
    let files: Vec<ArtifactFile> = names
        .iter()
        .enumerate()
        .map(|(i, n)| ArtifactFile { file_name: n.to_string(), content: vec![0u8; i] })
        .collect();
    let db = Database::from_folder("o", Some(files)).unwrap();
    let got: Vec<(String, String, u64)> =
        db.entries.iter().map(|e| (e.name.clone(), e.version.clone(), e.size)).collect();
    let want: Vec<(String, String, u64)> =
        [("Bash", "1", 2), ("b", "1", 4), ("bash", "10", 3), ("bash", "5", 1), ("bash", "5", 5), ("zlib", "1", 0)]
            .iter()
            .map(|(n, v, s)| (n.to_string(), v.to_string(), *s))
            .collect();
    assert_eq!(got, want);
}

#[test]
fn directories() {
    assert_eq!(Database::crumbs_dir("/srv/mirror", "x86_64"), "/srv/mirror/crumbs/x86_64/");
    assert_eq!(Database::query("/var/bread", "libc", "i686"), "/var/bread/i686");
}

#[test]
fn file_and_address_names() {
    let db = Database { name: "leopard".to_string(), entries: vec![] };
    assert_eq!(db.file_name(), "leopard.db.gz");
    assert_eq!(Database::mirror_url("https://mirror.example", "leopard"), "https://mirror.example/leopard.db.gz");
}

#[test]
fn compressed_round_trip() {
    let db = Database {
        name: "leopard".to_string(),
        entries: vec![entry("libc", "2.31", 1024, ABC_SHA512), entry("bash", "5.0", 0, EMPTY_SHA512)],
    };
    let bytes = db.save_to_file().unwrap();
    assert_eq!(&bytes[..2], &[0x1f, 0x8b]);
    assert_ne!(bytes, db.to_text().into_bytes());
    assert_eq!(db.save_to_file().unwrap(), bytes);
    assert_eq!(Database::from_mirror("leopard", &bytes), Ok(db));
}

#[test]
fn damaged_download_is_an_error() {
    assert_eq!(Database::from_mirror("x", b"VERSION_1_0\n"), Err(Error::Io));
    assert_eq!(Database::from_mirror("x", b""), Err(Error::Io));
}

#[test]
fn downloaded_future_version_is_rejected() {
    let text = "VERSION_3_1\n";
    let db = Database { name: "x".to_string(), entries: vec![] };
    let good = db.save_to_file().unwrap();
    assert!(Database::from_mirror("x", &good).is_ok());
    assert_eq!(Database::from_string("x", text), Err(Error::UnsupportedDatabaseVersion));
}

fn line(s: &str) -> Vec<char> {
    s.chars().collect()
}

#[test]
fn lines_of_a_text() {
    assert_eq!(split_lines(&line("")), Vec::<Vec<char>>::new());
    assert_eq!(split_lines(&line("a")), vec![line("a")]);
    assert_eq!(split_lines(&line("a\n")), vec![line("a")]);
    assert_eq!(split_lines(&line("a\n\nb")), vec![line("a"), line(""), line("b")]);
    assert_eq!(split_lines(&line("\n")), vec![line("")]);
    assert_eq!(split_lines(&line("a\r\nb\n")), vec![line("a\r"), line("b")]);
}

#[test]
fn headers_and_rows() {
    assert!(starts_header(&line("VERSION_1_0")));
    assert!(starts_header(&line("VERSION_")));
    assert!(!starts_header(&line("VERSION")));
    assert!(!starts_header(&line("version_1_0")));
    assert!(!starts_header(&line(" VERSION_1_0")));
    assert_eq!(read_header(&line("VERSION_1_0")), Header::Current);
    assert_eq!(read_header(&line("VERSION_01_99")), Header::Current);
    assert_eq!(read_header(&line("VERSION_0_1")), Header::Inactive);
    assert_eq!(read_header(&line("VERSION_2_0")), Header::Unsupported);
    assert_eq!(read_header(&line("VERSION_2_x")), Header::Malformed);
    assert_eq!(read_header(&line("VERSION_")), Header::Malformed);
    assert_eq!(read_row(&line("a@1 2 ff extra")), Some(entry("a", "1", 2, "ff")));
    assert_eq!(read_row(&line("a@ 2 ff")), Some(entry("a", "", 2, "ff")));
    assert_eq!(read_row(&line("a 2 ff")), None);
    assert_eq!(read_row(&line("")), None);
    assert_eq!(read_row(&line("   ")), None);
}
