//! What holds of the index format and of the packing rule, beyond the
//! contracts of the single functions.

use vstd::prelude::*;
use crate::crumb::{is_packed, packed_names};
use crate::database::{
    document, header_line, header_of, header_prefix, is_header, lemma_error_stays, lemma_field_at,
    lines_of, parse_lines, parse_text, row_line, row_of, EntryView, Header, ParseState,
};
use crate::error::Error;
use crate::net::download::{after_event, batch_after, is_settled, DownloadEvent, DownloadView};
use crate::text::{
    dec_digits, dec_value, decimal_of, digit_num, free_of, index_of, lemma_dec_round_trip,
    lemma_index_of, lemma_index_of_found, Decimal,
};

verus! {

/// The entry can stand in a row and be read back: its name holds no space,
/// line feed or `@` and does not start like a header; its version and its
/// checksum hold no space or line feed; its checksum is not empty.
pub open spec fn row_safe(e: EntryView) -> bool {
    &&& free_of(e.name, ' ')
    &&& free_of(e.name, '\n')
    &&& free_of(e.name, '@')
    &&& !is_header(e.name)
    &&& free_of(e.version, ' ')
    &&& free_of(e.version, '\n')
    &&& free_of(e.checksum, ' ')
    &&& free_of(e.checksum, '\n')
    &&& e.checksum.len() > 0
}

/// The lines of the document of the entries: the header, then the rows.
pub open spec fn document_lines(es: Seq<EntryView>) -> Seq<Seq<char>> {
    seq![header_line()] + Seq::new(es.len(), |i: int| row_line(es[i]))
}

/// A header line that declares the version `major`.`minor`.
pub open spec fn version_line(major: nat, minor: nat) -> Seq<char> {
    header_prefix() + dec_digits(major) + seq!['_'] + dec_digits(minor)
}

/// The row of an entry that can stand in a row is read back as that entry;
/// it is no header and holds no line feed.
pub proof fn lemma_row_round_trip(e: EntryView)
    requires
        row_safe(e),
    ensures
        row_of(row_line(e)) == Some(e),
        !is_header(row_line(e)),
        free_of(row_line(e), '\n'),
{
    let d = dec_digits(e.size as nat);
    lemma_dec_round_trip(e.size as nat);
    let p1 = e.name + seq!['@'];
    let p2 = p1 + e.version;
    let p3 = p2 + seq![' '];
    let p4 = p3 + d;
    let p5 = p4 + seq![' '];
    let s = p5 + e.checksum;
    assert(s == row_line(e));
    let n1 = e.name.len() as int;
    let b1 = p2.len() as int;
    let a2 = b1 + 1;
    let b2 = a2 + d.len();
    let a3 = b2 + 1;
    let b3 = s.len() as int;
    assert forall|j: int| 0 <= j < d.len() implies d[j] != ' ' && d[j] != '\n' by {
        assert(digit_num(d[j]) >= 0);
    }
    assert forall|j: int| 0 <= j < b1 implies s[j] != ' ' && s[j] != '\n' by {
        assert(s[j] == p2[j]);
        if j < n1 {
            assert(p2[j] == e.name[j]);
        } else if j == n1 {
            assert(p2[j] == '@');
        } else {
            assert(p2[j] == e.version[j - n1 - 1]);
        }
    }
    assert(s[b1] == ' ');
    assert forall|j: int| a2 <= j < b2 implies s[j] != ' ' && s[j] != '\n' by {
        assert(s[j] == d[j - a2]);
    }
    assert(s[b2] == ' ');
    assert forall|j: int| a3 <= j < b3 implies s[j] != ' ' && s[j] != '\n' by {
        assert(s[j] == e.checksum[j - a3]);
    }
    assert(s.skip(0) =~= s);
    lemma_field_at(s, 0, 0, b1);
    lemma_field_at(s, b1, a2, b2);
    lemma_field_at(s, b2, a3, b3);
    let id = s.subrange(0, b1);
    assert(id =~= p2);
    assert forall|j: int| 0 <= j < n1 implies id[j] != '@' by {
        assert(id[j] == e.name[j]);
    }
    assert(id[n1] == '@');
    lemma_index_of(id, '@', n1);
    assert(id.take(n1) =~= e.name);
    assert(id.skip(n1 + 1) =~= e.version);
    assert(s.subrange(a2, b2) =~= d);
    assert(decimal_of(d) == Decimal::Value(e.size));
    assert(s.subrange(a3, b3) =~= e.checksum);
    assert(row_of(s) == Some(e));
    if is_header(s) {
        let p = header_prefix();
        let t = s.take(8);
        if n1 >= 8 {
            assert(e.name.take(8) =~= t);
        } else {
            assert(t[n1] == s[n1]);
            assert(s[n1] == '@');
            assert(p[0] != '@' && p[1] != '@' && p[2] != '@' && p[3] != '@' && p[4] != '@' && p[5]
                != '@' && p[6] != '@' && p[7] != '@');
        }
    }
}

/// A line added behind a text that is empty or ends in a line feed is one
/// more line of the text.
pub proof fn lemma_lines_append(a: Seq<char>, l: Seq<char>)
    requires
        a.len() == 0 || a.last() == '\n',
        free_of(l, '\n'),
    ensures
        lines_of(a + l + seq!['\n']) == lines_of(a).push(l),
    decreases a.len(),
{
    let s = a + l + seq!['\n'];
    if a.len() == 0 {
        assert forall|j: int| 0 <= j < l.len() implies s[j] != '\n' by {
            assert(s[j] == l[j]);
        }
        assert(s[l.len() as int] == '\n');
        lemma_index_of(s, '\n', l.len() as int);
        assert(s.take(l.len() as int) =~= l);
        assert(s.skip(l.len() as int + 1) =~= Seq::<char>::empty());
        assert(lines_of(s) =~= seq![l] + lines_of(Seq::<char>::empty()));
        assert(lines_of(a) =~= Seq::<Seq<char>>::empty());
        assert(lines_of(s) =~= lines_of(a).push(l));
    } else {
        lemma_index_of_found(a, '\n');
        let e = index_of(a, '\n');
        if e >= a.len() {
            assert(a[a.len() - 1] != '\n');
        }
        assert forall|j: int| 0 <= j < e implies s[j] != '\n' by {
            assert(s[j] == a[j]);
        }
        assert(s[e] == a[e]);
        lemma_index_of(s, '\n', e);
        let rest = a.skip(e + 1);
        assert(s.take(e) =~= a.take(e));
        assert(s.skip(e + 1) =~= rest + l + seq!['\n']);
        if rest.len() > 0 {
            assert(rest.last() == a.last());
        }
        lemma_lines_append(rest, l);
        assert(lines_of(a) == seq![a.take(e)] + lines_of(rest));
        assert(lines_of(s) == seq![s.take(e)] + lines_of(s.skip(e + 1)));
        assert(lines_of(s) =~= lines_of(a).push(l));
    }
}

/// The header line that is written declares the current version.
pub proof fn lemma_header_line()
    ensures
        is_header(header_line()),
        header_of(header_line()) == Header::Current,
        free_of(header_line(), '\n'),
{
    let h = header_line();
    assert(h.take(8) =~= header_prefix());
    let rest = h.skip(8);
    assert(rest =~= seq!['1', '_', '0']);
    lemma_index_of(rest, '_', 1);
    assert(rest.take(1) =~= seq!['1']);
    assert(rest.skip(2) =~= seq!['0']);
    assert(dec_value(seq!['1']) == Some(1int));
    assert(dec_value(seq!['0']) == Some(0int));
    assert forall|j: int| 0 <= j < h.len() implies h[j] != '\n' by {
        if j < 8 {
            assert(h[j] == header_prefix()[j]);
        } else {
            assert(h[j] == rest[j - 8]);
        }
    }
}

/// The lines of a written document are its header and its rows.
pub proof fn lemma_document_lines(es: Seq<EntryView>)
    requires
        forall|i: int| 0 <= i < es.len() ==> row_safe(#[trigger] es[i]),
    ensures
        lines_of(document(es)) == document_lines(es),
        document(es).len() > 0,
        document(es).last() == '\n',
    decreases es.len(),
{
    lemma_header_line();
    if es.len() == 0 {
        let empty = Seq::<char>::empty();
        assert(document(es) =~= empty + header_line() + seq!['\n']);
        lemma_lines_append(empty, header_line());
        assert(lines_of(empty) =~= Seq::<Seq<char>>::empty());
        assert(document_lines(es) =~= Seq::<Seq<char>>::empty().push(header_line()));
    } else {
        let before = es.drop_last();
        let e = es.last();
        assert forall|i: int| 0 <= i < before.len() implies row_safe(#[trigger] before[i]) by {
            assert(before[i] == es[i]);
        }
        lemma_document_lines(before);
        lemma_row_round_trip(e);
        assert(document(es) =~= document(before) + row_line(e) + seq!['\n']);
        lemma_lines_append(document(before), row_line(e));
        assert(document_lines(es) =~= document_lines(before).push(row_line(e)));
    }
}

/// Reading the written header and the first `k` rows gives the first `k`
/// entries.
pub proof fn lemma_parse_document(es: Seq<EntryView>, k: int)
    requires
        forall|i: int| 0 <= i < es.len() ==> row_safe(#[trigger] es[i]),
        0 <= k <= es.len(),
    ensures
        parse_lines(document_lines(es), k + 1) == Ok::<ParseState, Error>(
            ParseState { entries: es.take(k), active: true },
        ),
    decreases k,
{
    let lines = document_lines(es);
    lemma_header_line();
    if k == 0 {
        assert(lines[0] == header_line());
        assert(parse_lines(lines, 0) == Ok::<ParseState, Error>(
            ParseState { entries: Seq::empty(), active: false },
        ));
        assert(es.take(0) =~= Seq::<EntryView>::empty());
    } else {
        lemma_parse_document(es, k - 1);
        let e = es[k - 1];
        assert(row_safe(e));
        lemma_row_round_trip(e);
        assert(lines[k] == row_line(e));
        assert(es.take(k - 1).push(e) =~= es.take(k));
    }
}

/// Reading back the document that was written for a sequence of entries
/// gives the same entries in the same order, and so the same multiset of
/// entries, whenever each entry can stand in a row.
pub proof fn lemma_round_trip(es: Seq<EntryView>)
    requires
        forall|i: int| 0 <= i < es.len() ==> row_safe(#[trigger] es[i]),
    ensures
        parse_text(document(es)) == Ok::<Seq<EntryView>, Error>(es),
        parse_text(document(es))->Ok_0.to_multiset() == es.to_multiset(),
{
    lemma_document_lines(es);
    lemma_parse_document(es, es.len() as int);
    assert(es.take(es.len() as int) =~= es);
}

/// A header line that declares a major version above 1 is unsupported,
/// whatever minor version it declares.
pub proof fn lemma_future_version(major: nat, minor: nat)
    requires
        major > 1,
    ensures
        is_header(version_line(major, minor)),
        header_of(version_line(major, minor)) == Header::Unsupported,
        free_of(version_line(major, minor), '\n'),
{
    let h = version_line(major, minor);
    let dm = dec_digits(major);
    let dn = dec_digits(minor);
    lemma_dec_round_trip(major);
    lemma_dec_round_trip(minor);
    assert(h.take(8) =~= header_prefix());
    let rest = h.skip(8);
    assert(rest =~= dm + seq!['_'] + dn);
    assert forall|j: int| 0 <= j < dm.len() implies rest[j] != '_' by {
        assert(rest[j] == dm[j]);
        assert(digit_num(dm[j]) >= 0);
    }
    assert(rest[dm.len() as int] == '_');
    lemma_index_of(rest, '_', dm.len() as int);
    assert(rest.take(dm.len() as int) =~= dm);
    assert(rest.skip(dm.len() as int + 1) =~= dn);
    assert forall|j: int| 0 <= j < h.len() implies h[j] != '\n' by {
        if j < 8 {
            assert(h[j] == header_prefix()[j]);
        } else if j < 8 + dm.len() {
            assert(h[j] == dm[j - 8]);
            assert(digit_num(dm[j - 8]) >= 0);
        } else if j == 8 + dm.len() {
            assert(h[j] == '_');
        } else {
            assert(h[j] == dn[j - 9 - dm.len()]);
            assert(digit_num(dn[j - 9 - dm.len()]) >= 0);
        }
    }
}

/// A document is refused as of an unsupported version as soon as one of its
/// lines is a header that declares a major version above 1 and no line
/// before it is refused.
pub proof fn lemma_unsupported_refused(text: Seq<char>, k: int)
    requires
        0 <= k < lines_of(text).len(),
        parse_lines(lines_of(text), k) is Ok,
        is_header(lines_of(text)[k]),
        header_of(lines_of(text)[k]) == Header::Unsupported,
    ensures
        parse_text(text) == Err::<Seq<EntryView>, Error>(Error::UnsupportedDatabaseVersion),
{
    let lines = lines_of(text);
    assert(parse_lines(lines, k + 1) == Err::<ParseState, Error>(
        Error::UnsupportedDatabaseVersion,
    ));
    lemma_error_stays(lines, k + 1, lines.len() as int);
}

/// A document whose first line declares a major version above 1 is refused
/// as of an unsupported version, whatever follows the line.
pub proof fn lemma_header_rejection(major: nat, minor: nat, rest: Seq<char>)
    requires
        major > 1,
    ensures
        parse_text(version_line(major, minor) + seq!['\n'] + rest) == Err::<
            Seq<EntryView>,
            Error,
        >(Error::UnsupportedDatabaseVersion),
{
    let h = version_line(major, minor);
    let text = h + seq!['\n'] + rest;
    lemma_future_version(major, minor);
    assert forall|j: int| 0 <= j < h.len() implies text[j] != '\n' by {
        assert(text[j] == h[j]);
    }
    assert(text[h.len() as int] == '\n');
    lemma_index_of(text, '\n', h.len() as int);
    assert(text.take(h.len() as int) =~= h);
    assert(lines_of(text)[0] == h);
    lemma_unsupported_refused(text, 0);
}

/// Exactly the listed names that are not the archive, not ignored and not
/// the payload directory that went in whole are packed.
pub proof fn lemma_packed_exactly(
    names: Seq<Seq<char>>,
    archive: Seq<char>,
    ignore: Seq<Seq<char>>,
    source: bool,
    name: Seq<char>,
)
    ensures
        packed_names(names, archive, ignore, source).contains(name) <==> names.contains(name)
            && is_packed(name, archive, ignore, source),
    decreases names.len(),
{
    if names.len() > 0 {
        let before = names.drop_last();
        let kept = packed_names(before, archive, ignore, source);
        lemma_packed_exactly(before, archive, ignore, source, name);
        if names.contains(name) {
            let i = choose|i: int| 0 <= i < names.len() && names[i] == name;
            if i < before.len() {
                assert(before[i] == name);
            }
        }
        if before.contains(name) {
            let i = choose|i: int| 0 <= i < before.len() && before[i] == name;
            assert(names[i] == name);
        }
        assert(names[names.len() - 1] == names.last());
        if is_packed(names.last(), archive, ignore, source) {
            let all = kept.push(names.last());
            assert(all[kept.len() as int] == names.last());
            if kept.contains(name) {
                let i = choose|i: int| 0 <= i < kept.len() && kept[i] == name;
                assert(all[i] == name);
            }
            if all.contains(name) {
                let i = choose|i: int| 0 <= i < all.len() && all[i] == name;
                if i < kept.len() {
                    assert(kept[i] == name);
                }
            }
        }
    }
}

/// A download that is complete or has failed stays as it is, whatever
/// comes after.
pub proof fn lemma_settled_stays(d: DownloadView, event: DownloadEvent)
    requires
        is_settled(d),
    ensures
        after_event(d, event) == d,
{
}

/// Events for two different downloads of a batch give the same batch in
/// either order: what a download comes to does not depend on when the
/// others move.
pub proof fn lemma_events_commute(
    batch: Seq<DownloadView>,
    i: int,
    first: DownloadEvent,
    j: int,
    second: DownloadEvent,
)
    requires
        i != j,
    ensures
        batch_after(batch_after(batch, i, first), j, second) == batch_after(
            batch_after(batch, j, second),
            i,
            first,
        ),
{
    assert(batch_after(batch_after(batch, i, first), j, second) =~= batch_after(
        batch_after(batch, j, second),
        i,
        first,
    ));
}

/// An event for one download of a batch leaves the number of downloads and
/// every other download as they were.
pub proof fn lemma_event_is_local(batch: Seq<DownloadView>, i: int, event: DownloadEvent, j: int)
    requires
        0 <= j < batch.len(),
        i != j,
    ensures
        batch_after(batch, i, event).len() == batch.len(),
        batch_after(batch, i, event)[j] == batch[j],
{
}

} // verus!
