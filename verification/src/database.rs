//! The index of the artifacts that a mirror offers: its entries, its text
//! format, and lookups.
//!
//! An index document is text. Its first line is a header, `VERSION_1_0`;
//! each further line is a row, `name@version size checksum`, the fields
//! parted by one or more spaces. At rest the document is gzip-compressed in
//! a file named after the index, with `.db.gz` behind the name.

use vstd::prelude::*;
use vstd::string::*;
use crate::codec::{gunzip, gunzip_text, gzip, gzip_bytes, hex_encode, hex_lower, sha512, sha512_digest};
use crate::error::Error;
use crate::order::{sort_by_name, sorted, Named};
use crate::text::{
    chars_of, dec_digits, dec_value, decimal_of, find_char, index_of, lemma_dec_value_digits, lemma_index_of,
    lemma_run_len, push_decimal, read_decimal, run_len, skip_char, string_of, Decimal,
};

verus! {

/// One artifact of an index.
#[derive(Debug, Clone, PartialEq, Eq)]
pub struct DatabaseEntry {
    pub name: String,
    pub version: String,
    pub size: u64,
    pub checksum: String,
}

/// An index: its name and its entries, in stored order.
#[derive(Debug, Clone, PartialEq, Eq)]
pub struct Database {
    pub name: String,
    pub entries: Vec<DatabaseEntry>,
}

/// An artifact file as read from disk.
#[derive(Debug, Clone, PartialEq, Eq)]
pub struct ArtifactFile {
    pub file_name: String,
    pub content: Vec<u8>,
}

impl Named for ArtifactFile {
    open spec fn label(&self) -> Seq<char> {
        self.file_name@
    }

    fn label_chars(&self) -> (r: Vec<char>) {
        chars_of(self.file_name.as_str())
    }
}

/// What a `DatabaseEntry` stands for.
pub struct EntryView {
    pub name: Seq<char>,
    pub version: Seq<char>,
    pub size: u64,
    pub checksum: Seq<char>,
}

/// What a `Database` stands for.
pub struct DatabaseView {
    pub name: Seq<char>,
    pub entries: Seq<EntryView>,
}

impl View for DatabaseEntry {
    type V = EntryView;

    open spec fn view(&self) -> EntryView {
        EntryView {
            name: self.name@,
            version: self.version@,
            size: self.size,
            checksum: self.checksum@,
        }
    }
}

/// The views of a sequence of entries.
pub open spec fn entry_views(entries: Seq<DatabaseEntry>) -> Seq<EntryView> {
    entries.map_values(|e: DatabaseEntry| e@)
}

impl View for Database {
    type V = DatabaseView;

    open spec fn view(&self) -> DatabaseView {
        DatabaseView { name: self.name@, entries: entry_views(self.entries@) }
    }
}

/// The views of a sequence of lines.
pub open spec fn line_views(lines: Seq<Vec<char>>) -> Seq<Seq<char>> {
    lines.map_values(|l: Vec<char>| l@)
}

/// The lines of a text: what stands between line feeds. A line feed at the
/// very end opens no further line.
pub open spec fn lines_of(s: Seq<char>) -> Seq<Seq<char>>
    decreases s.len(),
{
    if s.len() == 0 {
        Seq::empty()
    } else {
        let e = index_of(s, '\n');
        if 0 <= e < s.len() {
            seq![s.take(e)] + lines_of(s.skip(e + 1))
        } else {
            seq![s]
        }
    }
}

/// The characters that every header line starts with.
pub open spec fn header_prefix() -> Seq<char> {
    seq!['V', 'E', 'R', 'S', 'I', 'O', 'N', '_']
}

/// The line is a header line.
pub open spec fn is_header(line: Seq<char>) -> bool {
    line.len() >= 8 && line.take(8) == header_prefix()
}

/// What a header line declares.
#[derive(Debug, Clone, Copy, PartialEq, Eq, Structural)]
pub enum Header {
    /// Not of the form `VERSION_major_minor` with two decimal numbers.
    Malformed,
    /// A major version above 1.
    Unsupported,
    /// Major version 1: rows may follow.
    Current,
    /// Major version 0: no row grammar belongs to it.
    Inactive,
}

/// What the header line `line` declares.
pub open spec fn header_of(line: Seq<char>) -> Header {
    let rest = line.skip(8);
    let u = index_of(rest, '_');
    let major = dec_value(rest.take(u));
    let minor = dec_value(rest.skip(u + 1));
    if u >= rest.len() || major is None || minor is None {
        Header::Malformed
    } else if major->0 > 1 {
        Header::Unsupported
    } else if major->0 == 1 {
        Header::Current
    } else {
        Header::Inactive
    }
}

/// The first field of `s`, after any spaces before it, and what follows it.
pub open spec fn next_field(s: Seq<char>) -> (Seq<char>, Seq<char>) {
    let t = s.skip(run_len(s, ' '));
    let e = index_of(t, ' ');
    (t.take(e), t.skip(e))
}

/// The entry that a row holds: its first three fields are `name@version`,
/// the size in decimal, and the checksum. `None` where a field is missing,
/// the first holds no `@`, or the size is no number that fits 64 bits.
pub open spec fn row_of(line: Seq<char>) -> Option<EntryView> {
    let (id, r1) = next_field(line);
    let (size, r2) = next_field(r1);
    let (sum, r3) = next_field(r2);
    let at = index_of(id, '@');
    match decimal_of(size) {
        Decimal::Value(n) => if at < id.len() && sum.len() > 0 {
            Some(EntryView { name: id.take(at), version: id.skip(at + 1), size: n, checksum: sum })
        } else {
            None
        },
        _ => None,
    }
}

/// Where the parser stands between two lines: the entries read so far, and
/// whether the last header seen admits rows.
pub struct ParseState {
    pub entries: Seq<EntryView>,
    pub active: bool,
}

/// The parser's state after line `number`, from its state before it.
pub open spec fn parse_step(st: ParseState, line: Seq<char>, number: int) -> Result<
    ParseState,
    Error,
> {
    if is_header(line) {
        match header_of(line) {
            Header::Malformed => Err(Error::MalformedDatabaseRow { line: number as usize }),
            Header::Unsupported => Err(Error::UnsupportedDatabaseVersion),
            Header::Current => Ok(ParseState { entries: st.entries, active: true }),
            Header::Inactive => Ok(ParseState { entries: st.entries, active: false }),
        }
    } else if !st.active {
        Err(Error::MalformedDatabaseRow { line: number as usize })
    } else {
        match row_of(line) {
            None => Err(Error::MalformedDatabaseRow { line: number as usize }),
            Some(e) => Ok(ParseState { entries: st.entries.push(e), active: true }),
        }
    }
}

/// The parser's state after the first `n` lines, or the first error among
/// them.
pub open spec fn parse_lines(lines: Seq<Seq<char>>, n: int) -> Result<ParseState, Error>
    decreases n,
{
    if n <= 0 {
        Ok(ParseState { entries: Seq::empty(), active: false })
    } else {
        match parse_lines(lines, n - 1) {
            Err(e) => Err(e),
            Ok(st) => parse_step(st, lines[n - 1], n),
        }
    }
}

/// The entries of an index document, or why it is refused: a header that is
/// malformed or declares a major version above 1, a row before any header of
/// major version 1, or a malformed row.
pub open spec fn parse_text(text: Seq<char>) -> Result<Seq<EntryView>, Error> {
    let lines = lines_of(text);
    match parse_lines(lines, lines.len() as int) {
        Ok(st) => Ok(st.entries),
        Err(e) => Err(e),
    }
}

/// The header line that is written: `VERSION_1_0`.
pub open spec fn header_line() -> Seq<char> {
    header_prefix() + seq!['1', '_', '0']
}

/// The row of an entry, without its line feed.
pub open spec fn row_line(e: EntryView) -> Seq<char> {
    e.name + seq!['@'] + e.version + seq![' '] + dec_digits(e.size as nat) + seq![' ']
        + e.checksum
}

/// The rows of the entries, each closed by a line feed.
pub open spec fn rows_text(es: Seq<EntryView>) -> Seq<char>
    decreases es.len(),
{
    if es.len() == 0 {
        Seq::empty()
    } else {
        rows_text(es.drop_last()) + row_line(es.last()) + seq!['\n']
    }
}

/// The index document of the entries.
pub open spec fn document(es: Seq<EntryView>) -> Seq<char> {
    header_line() + seq!['\n'] + rows_text(es)
}

/// The file that holds the index named `name`.
pub open spec fn index_file_name(name: Seq<char>) -> Seq<char> {
    name + seq!['.', 'd', 'b', '.', 'g', 'z']
}

/// The directory under `root` that holds the artifacts of `architecture`:
/// `root/crumbs/architecture/`.
pub open spec fn artifact_dir(root: Seq<char>, architecture: Seq<char>) -> Seq<char> {
    root + seq!['/', 'c', 'r', 'u', 'm', 'b', 's', '/'] + architecture + seq!['/']
}

/// The address of the index `name` on the mirror at `mirror`.
pub open spec fn index_address(mirror: Seq<char>, name: Seq<char>) -> Seq<char> {
    mirror + seq!['/'] + index_file_name(name)
}

/// A field found by scanning is the field that the grammar speaks of.
pub proof fn lemma_field_at(s: Seq<char>, from: int, a: int, b: int)
    requires
        0 <= from <= a <= b <= s.len(),
        forall|j: int| from <= j < a ==> s[j] == ' ',
        a == s.len() || s[a] != ' ',
        forall|j: int| a <= j < b ==> s[j] != ' ',
        b == s.len() || s[b] == ' ',
    ensures
        next_field(s.skip(from)) == (s.subrange(a, b), s.skip(b)),
{
    let u = s.skip(from);
    assert forall|j: int| 0 <= j < a - from implies u[j] == ' ' by {
        assert(u[j] == s[from + j]);
    }
    lemma_run_len(u, ' ', a - from);
    let t = u.skip(a - from);
    assert(t =~= s.skip(a));
    assert forall|j: int| 0 <= j < b - a implies t[j] != ' ' by {
        assert(t[j] == s[a + j]);
    }
    lemma_index_of(t, ' ', b - a);
    assert(t.take(b - a) =~= s.subrange(a, b));
    assert(t.skip(b - a) =~= s.skip(b));
}

/// Splits a text into its lines.
pub fn split_lines(text: &Vec<char>) -> (lines: Vec<Vec<char>>)
    ensures
        line_views(lines@) == lines_of(text@),
{
    let n = text.len();
    let mut lines: Vec<Vec<char>> = Vec::new();
    let mut pos: usize = 0;
    proof {
        assert(text@.skip(0) =~= text@);
        assert(line_views(lines@) =~= Seq::empty());
    }
    while pos < n
        invariant
            n == text.len(),
            pos <= n,
            lines_of(text@) == line_views(lines@) + lines_of(text@.skip(pos as int)),
        decreases n - pos,
    {
        let end = find_char(text, pos, n, '\n');
        let mut line: Vec<char> = Vec::new();
        let mut i: usize = pos;
        while i < end
            invariant
                pos <= i <= end <= n,
                n == text.len(),
                line@ == text@.subrange(pos as int, i as int),
            decreases end - i,
        {
            line.push(text[i]);
            i = i + 1;
            proof {
                assert(line@ =~= text@.subrange(pos as int, i as int));
            }
        }
        let next: usize = if end < n {
            end + 1
        } else {
            n
        };
        proof {
            let s = text@.skip(pos as int);
            assert forall|j: int| 0 <= j < end - pos implies s[j] != '\n' by {
                assert(s[j] == text@[pos + j]);
            }
            lemma_index_of(s, '\n', end - pos);
            assert(s.take(end - pos) =~= line@);
            if end < n {
                assert(s.skip(end - pos + 1) =~= text@.skip(next as int));
            } else {
                assert(s =~= line@);
                assert(text@.skip(next as int) =~= Seq::<char>::empty());
            }
            assert(lines_of(s) =~= seq![line@] + lines_of(text@.skip(next as int)));
            assert(line_views(lines@.push(line)) =~= line_views(lines@) + seq![line@]);
        }
        lines.push(line);
        pos = next;
    }
    proof {
        assert(text@.skip(pos as int) =~= Seq::<char>::empty());
        assert(line_views(lines@) + Seq::<Seq<char>>::empty() =~= line_views(lines@));
    }
    lines
}

/// Tells whether a line is a header line.
pub fn starts_header(line: &Vec<char>) -> (r: bool)
    ensures
        r == is_header(line@),
{
    let r = line.len() >= 8 && line[0] == 'V' && line[1] == 'E' && line[2] == 'R' && line[3]
        == 'S' && line[4] == 'I' && line[5] == 'O' && line[6] == 'N' && line[7] == '_';
    proof {
        if line.len() >= 8 {
            let t = line@.take(8);
            let p = header_prefix();
            assert(t[0] == line@[0] && t[1] == line@[1] && t[2] == line@[2] && t[3] == line@[3]);
            assert(t[4] == line@[4] && t[5] == line@[5] && t[6] == line@[6] && t[7] == line@[7]);
            assert(p[0] == 'V' && p[1] == 'E' && p[2] == 'R' && p[3] == 'S');
            assert(p[4] == 'I' && p[5] == 'O' && p[6] == 'N' && p[7] == '_');
            if r {
                assert(t =~= p);
            }
        }
    }
    r
}

/// Reads what a header line declares.
pub fn read_header(line: &Vec<char>) -> (r: Header)
    requires
        is_header(line@),
    ensures
        r == header_of(line@),
{
    let n = line.len();
    let u = find_char(line, 8, n, '_');
    proof {
        let rest = line@.skip(8);
        assert forall|j: int| 0 <= j < u - 8 implies rest[j] != '_' by {
            assert(rest[j] == line@[8 + j]);
        }
        lemma_index_of(rest, '_', u - 8);
        assert(rest.take(u - 8) =~= line@.subrange(8, u as int));
        if u < n {
            assert(rest.skip(u - 8 + 1) =~= line@.subrange(u + 1, n as int));
        }
    }
    if u >= n {
        return Header::Malformed;
    }
    let major = read_decimal(line, 8, u);
    let minor = read_decimal(line, u + 1, n);
    proof {
        let rest = line@.skip(8);
        lemma_dec_value_digits(rest.take(u - 8));
    }
    match minor {
        Decimal::Invalid => Header::Malformed,
        _ => match major {
            Decimal::Invalid => Header::Malformed,
            Decimal::TooLarge => Header::Unsupported,
            Decimal::Value(m) => if m > 1 {
                Header::Unsupported
            } else if m == 1 {
                Header::Current
            } else {
                Header::Inactive
            },
        },
    }
}

/// Reads the entry that a row holds.
pub fn read_row(line: &Vec<char>) -> (r: Option<DatabaseEntry>)
    ensures
        match row_of(line@) {
            Some(e) => r is Some && r->0@ == e,
            None => r is None,
        },
{
    let n = line.len();
    let a1 = skip_char(line, 0, n, ' ');
    let b1 = find_char(line, a1, n, ' ');
    let a2 = skip_char(line, b1, n, ' ');
    let b2 = find_char(line, a2, n, ' ');
    let a3 = skip_char(line, b2, n, ' ');
    let b3 = find_char(line, a3, n, ' ');
    let at = find_char(line, a1, b1, '@');
    proof {
        let s = line@;
        assert(s.skip(0) =~= s);
        lemma_field_at(s, 0, a1 as int, b1 as int);
        lemma_field_at(s, b1 as int, a2 as int, b2 as int);
        lemma_field_at(s, b2 as int, a3 as int, b3 as int);
        let id = s.subrange(a1 as int, b1 as int);
        assert forall|j: int| 0 <= j < at - a1 implies id[j] != '@' by {
            assert(id[j] == s[a1 + j]);
        }
        lemma_index_of(id, '@', at - a1);
        assert(id.take(at - a1) =~= s.subrange(a1 as int, at as int));
        if at < b1 {
            assert(id.skip(at - a1 + 1) =~= s.subrange(at + 1, b1 as int));
        }
    }
    if at >= b1 || a3 >= b3 {
        return None;
    }
    match read_decimal(line, a2, b2) {
        Decimal::Value(size) => Some(
            DatabaseEntry {
                name: string_of(line, a1, at),
                version: string_of(line, at + 1, b1),
                size,
                checksum: string_of(line, a3, b3),
            },
        ),
        _ => None,
    }
}

/// The characters that end the file name of a packaged artifact.
pub open spec fn crumb_suffix() -> Seq<char> {
    seq!['.', 'c', 'r', 'u', 'm', 'b']
}

/// `s` without `suffix` at its end, or `s` itself where it does not end so.
pub open spec fn strip_suffix(s: Seq<char>, suffix: Seq<char>) -> Seq<char> {
    if s.len() >= suffix.len() && s.skip(s.len() - suffix.len()) == suffix {
        s.take(s.len() - suffix.len())
    } else {
        s
    }
}

/// The entry of an artifact file: the name is what stands before the first
/// `@` of the file's name, the version what stands behind it, without the
/// package suffix at its end. `None` where the file's name holds no `@`.
pub open spec fn artifact_entry(file_name: Seq<char>, size: u64, checksum: Seq<char>) -> Option<
    EntryView,
> {
    let at = index_of(file_name, '@');
    if at >= file_name.len() {
        None
    } else {
        Some(
            EntryView {
                name: file_name.take(at),
                version: strip_suffix(file_name.skip(at + 1), crumb_suffix()),
                size,
                checksum,
            },
        )
    }
}

/// The entry derived from an artifact file's name and content.
pub open spec fn derived_entry(file_name: Seq<char>, content: Seq<u8>) -> Option<EntryView> {
    artifact_entry(file_name, content.len() as u64, hex_lower(sha512_digest(content)))
}

/// The entries derived from the files, in their order: `None` where one of
/// the file names holds no `@`.
pub open spec fn derived_entries(files: Seq<ArtifactFile>) -> Option<Seq<EntryView>> {
    if forall|i: int|
        0 <= i < files.len() ==> (#[trigger] derived_entry(
            files[i].file_name@,
            files[i].content@,
        )) is Some {
        Some(
            Seq::new(
                files.len(),
                |i: int| derived_entry(files[i].file_name@, files[i].content@)->0,
            ),
        )
    } else {
        None
    }
}

/// `k` is the place of the first entry named `name`.
pub open spec fn is_first_named(es: Seq<EntryView>, name: Seq<char>, k: int) -> bool {
    &&& 0 <= k < es.len()
    &&& es[k].name == name
    &&& forall|j: int| 0 <= j < k ==> es[j].name != name
}

/// Once a line is refused, the document is refused with that error.
pub proof fn lemma_error_stays(lines: Seq<Seq<char>>, i: int, n: int)
    requires
        0 <= i <= n,
        parse_lines(lines, i) is Err,
    ensures
        parse_lines(lines, n) == parse_lines(lines, i),
    decreases n - i,
{
    if n > i {
        lemma_error_stays(lines, i, n - 1);
    }
}

impl DatabaseEntry {
    /// An entry with empty texts and size 0.
    pub fn new() -> (r: DatabaseEntry)
        ensures
            r@ == (EntryView {
                name: Seq::empty(),
                version: Seq::empty(),
                size: 0,
                checksum: Seq::empty(),
            }),
    {
        DatabaseEntry {
            name: String::new(),
            version: String::new(),
            checksum: String::new(),
            size: 0,
        }
    }

    /// The entry of the artifact file named `file_name`, whose content has
    /// `size` bytes and the digest `checksum`.
    pub fn from_parts(file_name: &str, size: u64, checksum: String) -> (r: Result<
        DatabaseEntry,
        Error,
    >)
        ensures
            match artifact_entry(file_name@, size, checksum@) {
                Some(e) => r is Ok && r->Ok_0@ == e,
                None => r == Err::<DatabaseEntry, Error>(Error::MalformedArtifactName),
            },
    {
        let chars = chars_of(file_name);
        let n = chars.len();
        let at = find_char(&chars, 0, n, '@');
        proof {
            lemma_index_of(chars@, '@', at as int);
        }
        if at >= n {
            return Err(Error::MalformedArtifactName);
        }
        let suffixed = n - (at + 1) >= 6 && chars[n - 6] == '.' && chars[n - 5] == 'c' && chars[n
            - 4] == 'r' && chars[n - 3] == 'u' && chars[n - 2] == 'm' && chars[n - 1] == 'b';
        let end: usize = if suffixed {
            n - 6
        } else {
            n
        };
        proof {
            let rem = chars@.skip(at + 1);
            let p = crumb_suffix();
            assert(p[0] == '.' && p[1] == 'c' && p[2] == 'r' && p[3] == 'u' && p[4] == 'm' && p[5]
                == 'b');
            if rem.len() >= 6 {
                let tail = rem.skip(rem.len() - 6);
                assert(tail[0] == chars@[n - 6] && tail[1] == chars@[n - 5] && tail[2] == chars@[n
                    - 4]);
                assert(tail[3] == chars@[n - 3] && tail[4] == chars@[n - 2] && tail[5] == chars@[n
                    - 1]);
                if suffixed {
                    assert(tail =~= p);
                    assert(rem.take(rem.len() - 6) =~= chars@.subrange(at + 1, end as int));
                }
            }
            if !suffixed {
                assert(rem =~= chars@.subrange(at + 1, end as int));
            }
            assert(chars@.take(at as int) =~= chars@.subrange(0, at as int));
        }
        Ok(
            DatabaseEntry {
                name: string_of(&chars, 0, at),
                version: string_of(&chars, at + 1, end),
                size,
                checksum,
            },
        )
    }

    /// The entry of the artifact file named `file_name` with the content
    /// `content`: its size is the content's length, its checksum the
    /// lower-case hexadecimal SHA-512 digest of the content.
    pub fn from_file(file_name: &str, content: &[u8]) -> (r: Result<DatabaseEntry, Error>)
        ensures
            match derived_entry(file_name@, content@) {
                Some(e) => r is Ok && r->Ok_0@ == e,
                None => r == Err::<DatabaseEntry, Error>(Error::MalformedArtifactName),
            },
            r is Ok ==> r->Ok_0@.checksum.len() == 128,
    {
        let digest = sha512(content);
        let checksum = hex_encode(digest.as_slice());
        DatabaseEntry::from_parts(file_name, content.len() as u64, checksum)
    }
}

impl Database {
    /// Reads an index document. The index gets the name `name` and the
    /// entries of the document's rows, in their order.
    pub fn from_string(name: &str, data: &str) -> (r: Result<Database, Error>)
        ensures
            match parse_text(data@) {
                Ok(es) => r is Ok && r->Ok_0@ == (DatabaseView { name: name@, entries: es }),
                Err(e) => r == Err::<Database, Error>(e),
            },
    {
        let text = chars_of(data);
        let lines = split_lines(&text);
        let ghost lv = line_views(lines@);
        let mut entries: Vec<DatabaseEntry> = Vec::new();
        let mut active = false;
        let mut i: usize = 0;
        proof {
            assert(entry_views(entries@) =~= Seq::empty());
        }
        while i < lines.len()
            invariant
                i <= lines.len(),
                lv == line_views(lines@),
                lv == lines_of(data@),
                parse_lines(lv, i as int) == Ok::<ParseState, Error>(
                    ParseState { entries: entry_views(entries@), active },
                ),
            decreases lines.len() - i,
        {
            let line = &lines[i];
            let number: usize = i + 1;
            proof {
                assert(lv[i as int] == line@);
            }
            if starts_header(line) {
                match read_header(line) {
                    Header::Malformed => {
                        proof {
                            lemma_error_stays(lv, number as int, lv.len() as int);
                        }
                        return Err(Error::MalformedDatabaseRow { line: number });
                    },
                    Header::Unsupported => {
                        proof {
                            lemma_error_stays(lv, number as int, lv.len() as int);
                        }
                        return Err(Error::UnsupportedDatabaseVersion);
                    },
                    Header::Current => {
                        active = true;
                    },
                    Header::Inactive => {
                        active = false;
                    },
                }
            } else if !active {
                proof {
                    lemma_error_stays(lv, number as int, lv.len() as int);
                }
                return Err(Error::MalformedDatabaseRow { line: number });
            } else {
                match read_row(line) {
                    None => {
                        proof {
                            lemma_error_stays(lv, number as int, lv.len() as int);
                        }
                        return Err(Error::MalformedDatabaseRow { line: number });
                    },
                    Some(entry) => {
                        proof {
                            assert(entry_views(entries@.push(entry)) =~= entry_views(
                                entries@,
                            ).push(entry@));
                        }
                        entries.push(entry);
                    },
                }
            }
            i = number;
        }
        Ok(Database { name: String::from_str(name), entries })
    }

    /// The index document of this index: the header `VERSION_1_0`, then one
    /// row for each entry, in stored order.
    pub fn to_text(&self) -> (s: String)
        ensures
            s@ == document(self@.entries),
    {
        let mut s = String::from_str("VERSION_1_0\n");
        let ghost es = entry_views(self.entries@);
        proof {
            reveal_strlit("VERSION_1_0\n");
            assert(s@ =~= header_line() + seq!['\n']);
            assert(es.take(0) =~= Seq::empty());
            assert(s@ =~= header_line() + seq!['\n'] + rows_text(es.take(0)));
        }
        let mut i: usize = 0;
        while i < self.entries.len()
            invariant
                i <= self.entries.len(),
                es == entry_views(self.entries@),
                s@ == header_line() + seq!['\n'] + rows_text(es.take(i as int)),
            decreases self.entries.len() - i,
        {
            let e = &self.entries[i];
            let ghost prev = s@;
            s.append(e.name.as_str());
            s.push('@');
            s.append(e.version.as_str());
            s.push(' ');
            push_decimal(&mut s, e.size);
            s.push(' ');
            s.append(e.checksum.as_str());
            s.push('\n');
            proof {
                let t = es.take(i + 1);
                assert(t.drop_last() =~= es.take(i as int));
                assert(t.last() == e@);
                assert(s@ =~= prev + row_line(e@) + seq!['\n']);
                assert(s@ =~= header_line() + seq!['\n'] + rows_text(t));
            }
            i = i + 1;
        }
        proof {
            assert(es.take(i as int) =~= es);
        }
        s
    }

    /// The name of the file that holds this index: the index's name, then
    /// `.db.gz`.
    pub fn file_name(&self) -> (r: String)
        ensures
            r@ == index_file_name(self@.name),
    {
        let mut r = self.name.clone();
        r.append(".db.gz");
        proof {
            reveal_strlit(".db.gz");
            assert(r@ =~= index_file_name(self@.name));
        }
        r
    }

    /// The bytes to store in the index's file: the index document,
    /// compressed at the highest level. `Io` where the compressor fails.
    pub fn save_to_file(&self) -> (r: Result<Vec<u8>, Error>)
        ensures
            match gzip_bytes(vstd::utf8::encode_utf8(document(self@.entries))) {
                Some(b) => r is Ok && r->Ok_0@ == b,
                None => r == Err::<Vec<u8>, Error>(Error::Io),
            },
    {
        let text = self.to_text();
        match gzip(text.as_str().as_bytes()) {
            Some(bytes) => Ok(bytes),
            None => Err(Error::Io),
        }
    }

    /// The address under which the mirror at `uri` offers the index `name`.
    pub fn mirror_url(uri: &str, name: &str) -> (r: String)
        ensures
            r@ == index_address(uri@, name@),
    {
        let mut r = String::from_str(uri);
        r.push('/');
        r.append(name);
        r.append(".db.gz");
        proof {
            reveal_strlit(".db.gz");
            assert(r@ =~= index_address(uri@, name@));
        }
        r
    }

    /// Reads the index `name` from the bytes that a mirror delivered:
    /// decompresses them and reads the document. `Io` where they do not
    /// decompress to text.
    pub fn from_mirror(name: &str, compressed: &[u8]) -> (r: Result<Database, Error>)
        ensures
            match gunzip_text(compressed@) {
                None => r == Err::<Database, Error>(Error::Io),
                Some(t) => match parse_text(t) {
                    Ok(es) => r is Ok && r->Ok_0@ == (DatabaseView { name: name@, entries: es }),
                    Err(e) => r == Err::<Database, Error>(e),
                },
            },
    {
        match gunzip(compressed) {
            None => Err(Error::Io),
            Some(text) => Database::from_string(name, text.as_str()),
        }
    }

    /// Builds the index `name` from the files of an artifact directory, one
    /// entry for each file, in the order of the file names. `listing` is
    /// `None` where the directory does not exist: that is
    /// `MissingDirectory`. A file whose name holds no `@` is
    /// `MalformedArtifactName`.
    pub fn from_folder(name: &str, listing: Option<Vec<ArtifactFile>>) -> (r: Result<
        Database,
        Error,
    >)
        ensures
            match listing {
                None => r == Err::<Database, Error>(Error::MissingDirectory),
                Some(files) => match derived_entries(sorted(files@)) {
                    Some(es) => r is Ok && r->Ok_0@ == (DatabaseView { name: name@, entries: es }),
                    None => r == Err::<Database, Error>(Error::MalformedArtifactName),
                },
            },
    {
        let files = match listing {
            None => {
                return Err(Error::MissingDirectory);
            },
            Some(files) => sort_by_name(files),
        };
        let mut entries: Vec<DatabaseEntry> = Vec::new();
        let mut i: usize = 0;
        while i < files.len()
            invariant
                i <= files.len(),
                listing is Some,
                files@ == sorted(listing->0@),
                entries@.len() == i,
                forall|j: int|
                    0 <= j < i ==> derived_entry(files@[j].file_name@, files@[j].content@)
                        == Some((#[trigger] entries@[j])@),
            decreases files.len() - i,
        {
            let file = &files[i];
            match DatabaseEntry::from_file(file.file_name.as_str(), file.content.as_slice()) {
                Err(_) => {
                    proof {
                        assert(derived_entry(files@[i as int].file_name@, files@[i as int].content@)
                            is None);
                    }
                    return Err(Error::MalformedArtifactName);
                },
                Ok(entry) => {
                    entries.push(entry);
                },
            }
            i = i + 1;
        }
        proof {
            assert forall|j: int| 0 <= j < files@.len() implies (#[trigger] derived_entry(
                files@[j].file_name@,
                files@[j].content@,
            )) is Some by {
                assert(derived_entry(files@[j].file_name@, files@[j].content@) == Some(
                    entries@[j]@,
                ));
            }
            assert(entry_views(entries@) =~= derived_entries(files@)->0);
        }
        Ok(Database { name: String::from_str(name), entries })
    }

    /// The directory that holds the artifacts from which the index of an
    /// architecture is built.
    pub fn crumbs_dir(root: &str, architecture: &str) -> (r: String)
        ensures
            r@ == artifact_dir(root@, architecture@),
    {
        let mut r = String::from_str(root);
        r.append("/crumbs/");
        r.append(architecture);
        r.push('/');
        proof {
            reveal_strlit("/crumbs/");
            assert(r@ =~= artifact_dir(root@, architecture@));
        }
        r
    }

    /// The directory under `path` in which the indexes of `architecture`
    /// lie, each in its file: `path/architecture`. The package's name plays
    /// no part in it.
    pub fn query(path: &str, pkg_name: &str, architecture: &str) -> (r: String)
        ensures
            r@ == path@ + seq!['/'] + architecture@,
    {
        let mut r = String::from_str(path);
        r.push('/');
        r.append(architecture);
        r
    }

    /// The first entry, in stored order, whose name is `pkg_name`; the
    /// version is not looked at. `None` where no entry has that name.
    pub fn query_s(&self, pkg_name: &str, architecture: &str) -> (r: Option<&DatabaseEntry>)
        ensures
            match r {
                Some(e) => exists|k: int|
                    is_first_named(self@.entries, pkg_name@, k) && *e == self.entries@[k],
                None => forall|j: int|
                    0 <= j < self@.entries.len() ==> self@.entries[j].name != pkg_name@,
            },
    {
        let wanted = String::from_str(pkg_name);
        let mut i: usize = 0;
        while i < self.entries.len()
            invariant
                i <= self.entries.len(),
                wanted@ == pkg_name@,
                forall|j: int| 0 <= j < i ==> self@.entries[j].name != pkg_name@,
            decreases self.entries.len() - i,
        {
            if self.entries[i].name == wanted {
                proof {
                    assert(is_first_named(self@.entries, pkg_name@, i as int));
                }
                return Some(&self.entries[i]);
            }
            i = i + 1;
        }
        None
    }
}

} // verus!
