use vstd::prelude::*;

use quick_xml::events::Event;
use zip::ZipArchive;

use crate::text::{
    ascii_lower, chars_of, join, join_strings, push_char, push_str, seq_contains, seq_ends_with,
    seq_starts_with, spec_parse_unsigned, str_contains, str_eq, string_of, string_views,
    collapse_whitespace, spec_collapse_ws,
};
use crate::text::{bytes_eq, opt_string_view, parse_u64};

verus! {

// ---------------------------------------------------------------------------
// Dropping <script> and <style> blocks
// ---------------------------------------------------------------------------
//
// The patterns searched for are ASCII and begin with '<', a byte that never
// occurs inside a multi-byte UTF-8 sequence, so every match in the UTF-8 bytes
// of a text is a match at a character of that text. The functions below
// therefore walk the characters of the text.

/// `p` occurs at position `i` of `s`, ignoring ASCII case.
pub open spec fn ci_match_at(s: Seq<char>, p: Seq<char>, i: int) -> bool {
    &&& 0 <= i
    &&& i + p.len() <= s.len()
    &&& forall|j: int| 0 <= j < p.len() ==> ascii_lower(#[trigger] s[i + j]) == ascii_lower(p[j])
}

/// The first position at or after `from` where `p` occurs in `s`, ignoring ASCII case.
pub open spec fn spec_find_from(s: Seq<char>, from: int, p: Seq<char>) -> Option<int>
    decreases s.len() - from,
{
    if p.len() == 0 {
        Some(from)
    } else if from < 0 || from + p.len() > s.len() {
        None
    } else if ci_match_at(s, p, from) {
        Some(from)
    } else {
        spec_find_from(s, from + 1, p)
    }
}

/// A match found at or after `from` lies at or after `from` and inside `s`.
pub proof fn lemma_find_from_bounds(s: Seq<char>, from: int, p: Seq<char>)
    ensures
        spec_find_from(s, from, p) matches Some(i) ==> from <= i && (p.len() > 0 ==> i + p.len()
            <= s.len()),
    decreases s.len() - from,
{
    if p.len() > 0 && 0 <= from && from + p.len() <= s.len() && !ci_match_at(s, p, from) {
        lemma_find_from_bounds(s, from + 1, p);
    }
}

/// Whether `pat` occurs at position `i` of `s`, ignoring ASCII case.
fn starts_with(s: &Vec<char>, i: usize, pat: &Vec<char>) -> (b: bool)
    ensures
        b == ci_match_at(s@, pat@, i as int),
{
    if i > s.len() || pat.len() > s.len() - i {
        return false;
    }
    let mut k: usize = 0;
    while k < pat.len()
        invariant
            i + pat.len() <= s.len(),
            k <= pat.len(),
            forall|j: int| 0 <= j < k ==> ascii_lower(#[trigger] s@[i + j]) == ascii_lower(pat@[j]),
        decreases pat.len() - k,
    {
        if lower_ascii(s[i + k]) != lower_ascii(pat[k]) {
            return false;
        }
        k = k + 1;
    }
    true
}

/// The ASCII lowercase of `c`.
fn lower_ascii(c: char) -> (r: char)
    ensures
        r == ascii_lower(c),
{
    if 'A' <= c && c <= 'Z' {
        ((c as u8) + 32) as char
    } else {
        c
    }
}

/// The first position at or after `from` where `pat` occurs, ignoring ASCII case.
fn find_from(s: &Vec<char>, from: usize, pat: &Vec<char>) -> (r: Option<usize>)
    requires
        from <= s.len(),
    ensures
        match r {
            Some(i) => spec_find_from(s@, from as int, pat@) == Some(i as int),
            None => spec_find_from(s@, from as int, pat@) is None,
        },
        r matches Some(i) ==> from <= i && i + pat@.len() <= s@.len(),
{
    if pat.len() == 0 {
        return Some(from);
    }
    let mut i = from;
    while i <= s.len() && pat.len() <= s.len() - i
        invariant
            from <= i,
            pat@.len() > 0,
            spec_find_from(s@, from as int, pat@) == spec_find_from(s@, i as int, pat@),
        decreases s.len() - i,
    {
        if starts_with(s, i, pat) {
            return Some(i);
        }
        i = i + 1;
    }
    None
}

/// `s[i..]` with `<script>` and `<style>` blocks (up to the `>` of their end
/// tag) each dropped; a block without an end tag turns its `<` into a space.
pub open spec fn strip_from(s: Seq<char>, i: int) -> Seq<char>
    decreases s.len() - i,
{
    if i < 0 || i >= s.len() {
        seq![]
    } else if s.len() - i >= 7 && (ci_match_at(s, "<script"@, i) || ci_match_at(s, "<style"@, i)) {
        let end_tag = if ci_match_at(s, "<script"@, i) {
            "</script"@
        } else {
            "</style"@
        };
        match spec_find_from(s, i + 1, end_tag) {
            Some(end) => match spec_find_from(s, end + 1, ">"@) {
                Some(close) => {
                    proof {
                        reveal_strlit(">");
                        lemma_find_from_bounds(s, i + 1, end_tag);
                        lemma_find_from_bounds(s, end + 1, ">"@);
                    }
                    strip_from(s, close + 1)
                },
                None => seq![' '] + strip_from(s, i + 1),
            },
            None => seq![' '] + strip_from(s, i + 1),
        }
    } else {
        seq![s[i]] + strip_from(s, i + 1)
    }
}

/// The text of an HTML document without its `<script>` and `<style>` blocks.
pub open spec fn spec_strip_script_style(html: Seq<char>) -> Seq<char> {
    strip_from(html, 0)
}

/// Drop `<script>` and `<style>` blocks from an HTML document.
pub fn strip_script_style(html: &str) -> (out: String)
    ensures
        out@ == spec_strip_script_style(html@),
{
    let s = chars_of(html);
    let script = chars_of("<script");
    let style = chars_of("<style");
    let end_script = chars_of("</script");
    let end_style = chars_of("</style");
    let gt = chars_of(">");
    let mut out: Vec<char> = Vec::new();
    let mut i: usize = 0;
    while i < s.len()
        invariant
            i <= s.len(),
            s@ == html@,
            script@ == "<script"@,
            style@ == "<style"@,
            end_script@ == "</script"@,
            end_style@ == "</style"@,
            gt@ == ">"@,
            strip_from(s@, 0) == out@ + strip_from(s@, i as int),
        decreases s.len() - i,
    {
        let ghost before = out@;
        if s.len() - i >= 7 && (starts_with(&s, i, &script) || starts_with(&s, i, &style)) {
            let end_tag = if starts_with(&s, i, &script) {
                &end_script
            } else {
                &end_style
            };
            proof {
                reveal_strlit(">");
                reveal_strlit("</script");
                reveal_strlit("</style");
            }
            let ghost tag = if ci_match_at(s@, "<script"@, i as int) {
                "</script"@
            } else {
                "</style"@
            };
            assert(end_tag@ == tag);
            match find_from(&s, i + 1, end_tag) {
                Some(end) => {
                    assert(spec_find_from(s@, i + 1, tag) == Some(end as int));
                    match find_from(&s, end + 1, &gt) {
                        Some(close) => {
                            assert(spec_find_from(s@, end + 1, ">"@) == Some(close as int));
                            assert(strip_from(s@, i as int) == strip_from(s@, close + 1));
                            i = close + 1;
                        },
                        None => {
                            assert(spec_find_from(s@, end + 1, ">"@) is None);
                            out.push(' ');
                            assert(strip_from(s@, i as int) =~= seq![' '] + strip_from(s@, i + 1));
                            assert(before + strip_from(s@, i as int) =~= out@ + strip_from(
                                s@,
                                i + 1,
                            ));
                            i = i + 1;
                        },
                    }
                },
                None => {
                    assert(spec_find_from(s@, i + 1, tag) is None);
                    out.push(' ');
                    assert(strip_from(s@, i as int) =~= seq![' '] + strip_from(s@, i + 1));
                    assert(before + strip_from(s@, i as int) =~= out@ + strip_from(s@, i + 1));
                    i = i + 1;
                },
            }
        } else {
            out.push(s[i]);
            assert(strip_from(s@, i as int) =~= seq![s@[i as int]] + strip_from(s@, i + 1));
            assert(before + strip_from(s@, i as int) =~= out@ + strip_from(s@, i + 1));
            i = i + 1;
        }
    }
    assert(out@ + strip_from(s@, i as int) =~= out@);
    string_of(&out)
}

} // verus!

verus! {

// ---------------------------------------------------------------------------
// XML events
// ---------------------------------------------------------------------------

/// One event of an XML reader, as plain values.
#[derive(Debug, Clone)]
pub enum XmlEvent {
    /// A text node; `None` when its entities could not be unescaped.
    Text(Option<String>),
    /// An opening tag: its name and its attributes, `None` for an attribute
    /// that did not parse.
    Start(Vec<u8>, Vec<Option<(Vec<u8>, Vec<u8>)>>),
    /// A closing tag and its name.
    End(Vec<u8>),
    /// Any other event (comments, empty elements, declarations, ...).
    Other,
}

/// The events that `quick_xml::Reader` reads from `xml`, up to (and not
/// counting) its end of input or its first error.
pub uninterp spec fn spec_xml_events(xml: Seq<char>) -> Seq<XmlEvent>;

#[verifier::external_type_specification]
#[verifier::external_body]
#[verifier::reject_recursive_types(R)]
pub struct ExXmlReader<R>(quick_xml::Reader<R>);

/// The document an XML reader reads.
pub uninterp spec fn spec_xml_source(r: quick_xml::Reader<&[u8]>) -> Seq<char>;

/// How many times an XML reader has been asked for its next event.
pub uninterp spec fn spec_xml_read(r: quick_xml::Reader<&[u8]>) -> nat;

/// Calls `quick_xml::Reader::from_str`: a reader of `xml` that has not been
/// asked for an event yet.
#[verifier::external_body]
fn xml_reader<'a>(xml: &'a str) -> (r: quick_xml::Reader<&'a [u8]>)
    ensures
        spec_xml_source(r) == xml@,
        spec_xml_read(r) == 0,
{
    quick_xml::Reader::from_str(xml)
}

/// Calls `Reader::read_event_into` once (with `buf` as its scratch space,
/// which the caller empties first), and hands the event out as an
/// `XmlEvent` (text unescaped with `BytesText::unescape`, tag names and
/// attributes as raw bytes); `None` at the end of input or at an error.
/// The events handed out before the first `None` are named
/// `spec_xml_events`. After an error the reader would go on reading, so a
/// reader is not asked again once it has answered `None`.
#[verifier::external_body]
fn xml_next(reader: &mut quick_xml::Reader<&[u8]>, buf: &mut Vec<u8>) -> (e: Option<XmlEvent>)
    requires
        spec_xml_read(*old(reader)) <= spec_xml_events(spec_xml_source(*old(reader))).len(),
    ensures
        spec_xml_source(*final(reader)) == spec_xml_source(*old(reader)),
        spec_xml_read(*final(reader)) == spec_xml_read(*old(reader)) + 1,
        spec_xml_read(*old(reader)) < spec_xml_events(spec_xml_source(*old(reader))).len() ==> e
            == Some(spec_xml_events(spec_xml_source(*old(reader)))[spec_xml_read(*old(reader)) as int]),
        spec_xml_read(*old(reader)) == spec_xml_events(spec_xml_source(*old(reader))).len() ==> e
            is None,
{
    match reader.read_event_into(buf) {
        Ok(Event::Text(e)) => Some(XmlEvent::Text(e.unescape().ok().map(|t| t.into_owned()))),
        Ok(Event::Start(e)) => Some(XmlEvent::Start(e.name().0.to_vec(), e.attributes().map(
            |a| a.ok().map(|a| (a.key.0.to_vec(), a.value.to_vec())),
        ).collect())),
        Ok(Event::End(e)) => Some(XmlEvent::End(e.name().0.to_vec())),
        Ok(Event::Eof) | Err(_) => None,
        Ok(_) => Some(XmlEvent::Other),
    }
}

/// The events of `xml`, read to its end or its first error.
fn xml_events(xml: &str) -> (r: Vec<XmlEvent>)
    ensures
        r@ == spec_xml_events(xml@),
{
    let mut reader = xml_reader(xml);
    let mut buf: Vec<u8> = Vec::new();
    let mut out: Vec<XmlEvent> = Vec::new();
    loop
        invariant_except_break
            spec_xml_source(reader) == xml@,
            spec_xml_read(reader) <= spec_xml_events(xml@).len(),
            out@ == spec_xml_events(xml@).take(spec_xml_read(reader) as int),
        ensures
            out@ == spec_xml_events(xml@),
        decreases spec_xml_events(xml@).len() - spec_xml_read(reader),
    {
        let ghost k = spec_xml_read(reader);
        buf.clear();
        match xml_next(&mut reader, &mut buf) {
            Some(e) => {
                out.push(e);
                assert(spec_xml_events(xml@).take(k + 1int) =~= spec_xml_events(xml@).take(k as int).push(e));
            },
            None => {
                assert(spec_xml_events(xml@).take(k as int) =~= spec_xml_events(xml@));
                break;
            },
        }
    }
    out
}

/// The text nodes of the events, each followed by a space.
pub open spec fn events_text(evs: Seq<XmlEvent>) -> Seq<char>
    decreases evs.len(),
{
    if evs.len() == 0 {
        seq![]
    } else {
        events_text(evs.drop_last()) + match evs.last() {
            XmlEvent::Text(Some(t)) => t@ + seq![' '],
            _ => seq![],
        }
    }
}

/// The plain text of an XML or HTML document: its text nodes, unescaped,
/// each followed by a space.
pub open spec fn spec_strip_xml(xml: Seq<char>) -> Seq<char> {
    events_text(spec_xml_events(xml))
}

/// Strip XML or HTML tags, decoding entities, returning plain text.
pub fn strip_xml(xml: &str) -> (out: String)
    ensures
        out@ == spec_strip_xml(xml@),
{
    let evs = xml_events(xml);
    let mut out = String::new();
    let mut i: usize = 0;
    while i < evs.len()
        invariant
            i <= evs.len(),
            evs@ == spec_xml_events(xml@),
            out@ == events_text(evs@.take(i as int)),
        decreases evs.len() - i,
    {
        assert(evs@.take(i + 1).drop_last() =~= evs@.take(i as int));
        match &evs[i] {
            XmlEvent::Text(Some(t)) => {
                push_str(&mut out, t.as_str());
                push_char(&mut out, ' ');
            },
            _ => {},
        }
        i = i + 1;
    }
    assert(evs@.take(evs@.len() as int) =~= evs@);
    out
}

} // verus!

verus! {

// ---------------------------------------------------------------------------
// ZIP containers (Office documents and EPUB books)
// ---------------------------------------------------------------------------

#[verifier::external_type_specification]
#[verifier::external_body]
#[verifier::reject_recursive_types(T)]
pub struct ExCursor<T>(std::io::Cursor<T>);

#[verifier::external_type_specification]
#[verifier::external_body]
#[verifier::reject_recursive_types(R)]
pub struct ExZipArchive<R>(ZipArchive<R>);

/// The number of entries of the ZIP archive in `bytes`; `None` when
/// `ZipArchive::new` refuses it.
pub uninterp spec fn spec_zip_len(bytes: Seq<u8>) -> Option<nat>;

/// The name of entry `index` of the ZIP archive in `bytes`; `None` when
/// `by_index` cannot open the entry.
pub uninterp spec fn spec_zip_name(bytes: Seq<u8>, index: int) -> Option<Seq<char>>;

/// The text of entry `index` of the ZIP archive in `bytes`; `None` when the
/// entry cannot be opened, decompressed or read as UTF-8.
pub uninterp spec fn spec_zip_entry_read(bytes: Seq<u8>, index: int) -> Option<Seq<char>>;

/// The bytes of entry `index` of the ZIP archive in `bytes`; `None` when the
/// entry cannot be opened, decompressed or read.
pub uninterp spec fn spec_zip_entry_bytes(bytes: Seq<u8>, index: int) -> Option<Seq<u8>>;

/// Looking up the entry called `name` in the ZIP archive in `bytes`: `None`
/// when there is no such entry, `Some(None)` when it cannot be read as UTF-8
/// text, `Some(Some(text))` otherwise.
pub uninterp spec fn spec_zip_named_read(bytes: Seq<u8>, name: Seq<char>) -> Option<
    Option<Seq<char>>,
>;

/// The bytes an open archive reads.
pub uninterp spec fn spec_zip_source(a: ZipArchive<std::io::Cursor<&[u8]>>) -> Seq<u8>;

/// The names of the entries of the ZIP archive in `bytes`, in index order;
/// `None` when the archive or one of its entries cannot be opened.
pub open spec fn spec_zip_names(bytes: Seq<u8>) -> Option<Seq<Seq<char>>> {
    match spec_zip_len(bytes) {
        None => None,
        Some(n) => if forall|i: int| 0 <= i < n ==> #[trigger] spec_zip_name(bytes, i) is Some {
            Some(Seq::new(n, |i: int| spec_zip_name(bytes, i)->0))
        } else {
            None
        },
    }
}

/// The text of entry `index` of the ZIP archive in `bytes`; `None` when the
/// archive or the entry cannot be read.
pub open spec fn spec_zip_entry_text(bytes: Seq<u8>, index: int) -> Option<Seq<char>> {
    match spec_zip_len(bytes) {
        None => None,
        Some(_) => spec_zip_entry_read(bytes, index),
    }
}

/// Looking up the entry called `name` in the ZIP archive in `bytes`;
/// `None` as well when the archive cannot be read.
pub open spec fn spec_zip_named_text(bytes: Seq<u8>, name: Seq<char>) -> Option<Option<Seq<char>>> {
    match spec_zip_len(bytes) {
        None => None,
        Some(_) => spec_zip_named_read(bytes, name),
    }
}

/// Calls `zip::ZipArchive::new` on a cursor over `bytes`; `None` exactly
/// when it refuses them.
#[verifier::external_body]
pub(crate) fn zip_open<'a>(bytes: &'a [u8]) -> (r: Option<ZipArchive<std::io::Cursor<&'a [u8]>>>)
    ensures
        r is Some <==> spec_zip_len(bytes@) is Some,
        r matches Some(a) ==> spec_zip_source(a) == bytes@,
{
    ZipArchive::new(std::io::Cursor::new(bytes)).ok()
}

/// Calls `ZipArchive::len`: the number of entries.
#[verifier::external_body]
pub(crate) fn zip_len(a: &ZipArchive<std::io::Cursor<&[u8]>>) -> (n: usize)
    ensures
        spec_zip_len(spec_zip_source(*a)) == Some(n as nat),
{
    a.len()
}

/// Calls `ZipArchive::by_index` and `ZipFile::name`.
#[verifier::external_body]
pub(crate) fn zip_name(a: &mut ZipArchive<std::io::Cursor<&[u8]>>, index: usize) -> (r: Option<String>)
    ensures
        spec_zip_source(*final(a)) == spec_zip_source(*old(a)),
        opt_string_view(r) == spec_zip_name(spec_zip_source(*old(a)), index as int),
{
    match a.by_index(index) {
        Ok(f) => Some(f.name().to_string()),
        Err(_) => None,
    }
}

/// Calls `ZipArchive::by_index` and `Read::read_to_string`.
#[verifier::external_body]
fn zip_read(a: &mut ZipArchive<std::io::Cursor<&[u8]>>, index: usize) -> (r: Option<String>)
    ensures
        spec_zip_source(*final(a)) == spec_zip_source(*old(a)),
        opt_string_view(r) == spec_zip_entry_read(spec_zip_source(*old(a)), index as int),
{
    let mut content = String::new();
    match a.by_index(index) {
        Ok(mut f) => match std::io::Read::read_to_string(&mut f, &mut content) {
            Ok(_) => Some(content),
            Err(_) => None,
        },
        Err(_) => None,
    }
}

/// Calls `ZipArchive::by_index` and `Read::read_to_end`.
#[verifier::external_body]
pub(crate) fn zip_read_bytes(a: &mut ZipArchive<std::io::Cursor<&[u8]>>, index: usize) -> (r: Option<Vec<u8>>)
    ensures
        spec_zip_source(*final(a)) == spec_zip_source(*old(a)),
        match r {
            Some(v) => spec_zip_entry_bytes(spec_zip_source(*old(a)), index as int) == Some(v@),
            None => spec_zip_entry_bytes(spec_zip_source(*old(a)), index as int) is None,
        },
{
    let mut content = Vec::new();
    match a.by_index(index) {
        Ok(mut f) => match std::io::Read::read_to_end(&mut f, &mut content) {
            Ok(_) => Some(content),
            Err(_) => None,
        },
        Err(_) => None,
    }
}

/// Calls `ZipArchive::by_name` and `Read::read_to_string`.
#[verifier::external_body]
fn zip_read_named(a: &mut ZipArchive<std::io::Cursor<&[u8]>>, name: &str) -> (r: Option<Option<String>>)
    ensures
        spec_zip_source(*final(a)) == spec_zip_source(*old(a)),
        opt_opt_view(r) == spec_zip_named_read(spec_zip_source(*old(a)), name@),
{
    let mut content = String::new();
    match a.by_name(name) {
        Ok(mut f) => match std::io::Read::read_to_string(&mut f, &mut content) {
            Ok(_) => Some(Some(content)),
            Err(_) => Some(None),
        },
        Err(_) => None,
    }
}

/// The contents of an optional optional string.
pub open spec fn opt_opt_view(r: Option<Option<String>>) -> Option<Option<Seq<char>>> {
    match r {
        Some(Some(s)) => Some(Some(s@)),
        Some(None) => Some(None),
        None => None,
    }
}

/// The names of the entries of the ZIP archive in `bytes`.
fn zip_entry_names(bytes: &[u8]) -> (r: Option<Vec<String>>)
    ensures
        match r {
            Some(v) => spec_zip_names(bytes@) == Some(string_views(v@)),
            None => spec_zip_names(bytes@) is None,
        },
{
    let mut a = match zip_open(bytes) {
        Some(a) => a,
        None => return None,
    };
    let n = zip_len(&a);
    let mut names: Vec<String> = Vec::new();
    let mut i: usize = 0;
    while i < n
        invariant
            i <= n,
            spec_zip_source(a) == bytes@,
            spec_zip_len(bytes@) == Some(n as nat),
            forall|k: int| 0 <= k < i ==> #[trigger] spec_zip_name(bytes@, k) is Some,
            string_views(names@) == Seq::new(i as nat, |k: int| spec_zip_name(bytes@, k)->0),
        decreases n - i,
    {
        match zip_name(&mut a, i) {
            Some(s) => {
                let ghost prev = string_views(names@);
                let ghost sv = s@;
                assert(spec_zip_name(bytes@, i as int) == Some(sv));
                names.push(s);
                assert(string_views(names@) =~= prev.push(sv));
                assert(string_views(names@) =~= Seq::new(
                    (i + 1) as nat,
                    |k: int| spec_zip_name(bytes@, k)->0,
                ));
            },
            None => {
                assert(spec_zip_name(bytes@, i as int) is None);
                return None;
            },
        }
        i = i + 1;
    }
    Some(names)
}

/// The text of entry `index` of the ZIP archive in `bytes`.
fn zip_entry_text(bytes: &[u8], index: usize) -> (r: Option<String>)
    ensures
        opt_string_view(r) == spec_zip_entry_text(bytes@, index as int),
{
    let mut a = match zip_open(bytes) {
        Some(a) => a,
        None => return None,
    };
    zip_read(&mut a, index)
}

/// Looking up the entry called `name` in the ZIP archive in `bytes`.
fn zip_named_text(bytes: &[u8], name: &str) -> (r: Option<Option<String>>)
    ensures
        opt_opt_view(r) == spec_zip_named_text(bytes@, name@),
{
    let mut a = match zip_open(bytes) {
        Some(a) => a,
        None => return None,
    };
    zip_read_named(&mut a, name)
}

/// The kinds of ZIP-based documents whose text is read entry by entry.
#[derive(Debug, Clone, Copy, PartialEq, Eq)]
pub enum ZipDoc {
    Docx,
    Pptx,
    Epub,
}

/// Whether the entry called `name` holds text of the document.
pub open spec fn entry_selected(kind: ZipDoc, name: Seq<char>) -> bool {
    match kind {
        ZipDoc::Docx => name == "word/document.xml"@,
        ZipDoc::Pptx => seq_starts_with(name, "ppt/slides/slide"@) && seq_ends_with(name, ".xml"@),
        ZipDoc::Epub => (seq_ends_with(name, ".xhtml"@) || seq_ends_with(name, ".html"@)
            || seq_ends_with(name, ".htm"@)) && !seq_contains(name, "container"@),
    }
}

/// The plain text of an entry's content.
pub open spec fn entry_plain_text(kind: ZipDoc, content: Seq<char>) -> Seq<char> {
    match kind {
        ZipDoc::Epub => spec_strip_xml(spec_strip_script_style(content)),
        _ => spec_strip_xml(content),
    }
}

/// What separates the texts of two entries.
pub open spec fn doc_separator(kind: ZipDoc) -> Seq<char> {
    match kind {
        ZipDoc::Pptx => "\n\n--- slide ---\n\n"@,
        _ => "\n\n"@,
    }
}

/// The texts of the selected entries among the first `k`, or `None` when one
/// of them cannot be read.
pub open spec fn doc_texts(bytes: Seq<u8>, names: Seq<Seq<char>>, kind: ZipDoc, k: int) -> Option<
    Seq<Seq<char>>,
>
    decreases k,
{
    if k <= 0 {
        Some(seq![])
    } else {
        match doc_texts(bytes, names, kind, k - 1) {
            None => None,
            Some(ts) => if entry_selected(kind, names[k - 1]) {
                match spec_zip_entry_text(bytes, k - 1) {
                    Some(c) => Some(ts.push(entry_plain_text(kind, c))),
                    None => None,
                }
            } else {
                Some(ts)
            },
        }
    }
}

/// The text of a DOCX, PPTX or EPUB file: the plain text of each selected
/// entry in archive order, joined by the kind's separator; `None` when the
/// archive or a selected entry cannot be read, or no entry is selected.
pub open spec fn spec_parse_zip_doc(bytes: Seq<u8>, kind: ZipDoc) -> Option<Seq<char>> {
    match spec_zip_names(bytes) {
        None => None,
        Some(names) => match doc_texts(bytes, names, kind, names.len() as int) {
            None => None,
            Some(ts) => if ts.len() == 0 {
                None
            } else {
                Some(join(ts, doc_separator(kind)))
            },
        },
    }
}

/// Whether the entry called `name` holds text of the document.
fn is_entry_selected(kind: ZipDoc, name: &String) -> (b: bool)
    ensures
        b == entry_selected(kind, name@),
{
    let n = chars_of(name.as_str());
    match kind {
        ZipDoc::Docx => str_eq(name.as_str(), "word/document.xml"),
        ZipDoc::Pptx => {
            let p = chars_of("ppt/slides/slide");
            let x = chars_of(".xml");
            crate::text::starts_with_vec(&n, &p) && crate::text::ends_with_vec(&n, &x)
        },
        ZipDoc::Epub => {
            let a = chars_of(".xhtml");
            let b = chars_of(".html");
            let c = chars_of(".htm");
            (crate::text::ends_with_vec(&n, &a) || crate::text::ends_with_vec(&n, &b)
                || crate::text::ends_with_vec(&n, &c)) && !str_contains(name.as_str(), "container")
        },
    }
}

/// Read the text of a DOCX, PPTX or EPUB file from its bytes.
pub fn parse_zip_doc(bytes: &[u8], kind: ZipDoc) -> (r: Option<String>)
    ensures
        match r {
            Some(t) => spec_parse_zip_doc(bytes@, kind) == Some(t@),
            None => spec_parse_zip_doc(bytes@, kind) is None,
        },
{
    let names = match zip_entry_names(bytes) {
        Some(n) => n,
        None => return None,
    };
    let ghost nv = string_views(names@);
    let mut texts: Vec<String> = Vec::new();
    let mut i: usize = 0;
    while i < names.len()
        invariant
            i <= names.len(),
            spec_zip_names(bytes@) == Some(nv),
            nv == string_views(names@),
            doc_texts(bytes@, nv, kind, i as int) == Some(string_views(texts@)),
        decreases names.len() - i,
    {
        assert(nv[i as int] == names[i as int]@);
        if is_entry_selected(kind, &names[i]) {
            let content = match zip_entry_text(bytes, i) {
                Some(c) => c,
                None => {
                    assert(doc_texts(bytes@, nv, kind, i + 1) is None);
                    proof {
                        lemma_doc_texts_none(bytes@, nv, kind, i + 1, nv.len() as int);
                    }
                    return None;
                },
            };
            let text = match kind {
                ZipDoc::Epub => {
                    let cleaned = strip_script_style(content.as_str());
                    strip_xml(cleaned.as_str())
                },
                _ => strip_xml(content.as_str()),
            };
            let ghost old_t = string_views(texts@);
            texts.push(text);
            assert(string_views(texts@) =~= old_t.push(text@));
        }
        i = i + 1;
    }
    if texts.len() == 0 {
        None
    } else {
        let sep = match kind {
            ZipDoc::Pptx => "\n\n--- slide ---\n\n",
            _ => "\n\n",
        };
        Some(join_strings(&texts, sep))
    }
}

/// Once an entry cannot be read, the document cannot be read.
proof fn lemma_doc_texts_none(bytes: Seq<u8>, names: Seq<Seq<char>>, kind: ZipDoc, k: int, m: int)
    requires
        0 <= k <= m,
        doc_texts(bytes, names, kind, k) is None,
    ensures
        doc_texts(bytes, names, kind, m) is None,
    decreases m - k,
{
    if k < m {
        lemma_doc_texts_none(bytes, names, kind, k + 1, m);
    }
}

} // verus!

verus! {

// ---------------------------------------------------------------------------
// XLSX workbooks
// ---------------------------------------------------------------------------

/// The tag names that matter in a workbook: `t` (a string), `c` (a cell),
/// `row`.
pub open spec fn tag_t() -> Seq<u8> {
    seq!['t' as u8]
}

pub open spec fn tag_c() -> Seq<u8> {
    seq!['c' as u8]
}

pub open spec fn tag_row() -> Seq<u8> {
    seq!['r' as u8, 'o' as u8, 'w' as u8]
}

/// State while reading shared strings: strings so far, the current string,
/// and whether a `<t>` element is open.
pub type SharedState = (Seq<Seq<char>>, Seq<char>, bool);

/// One event of the shared-strings part: each `<t>...</t>` element gives one
/// string, made of its text nodes.
pub open spec fn shared_step(st: SharedState, ev: XmlEvent) -> SharedState {
    let (shared, cur, in_t) = st;
    match ev {
        XmlEvent::Start(name, _) => if name@ == tag_t() {
            (shared, cur, true)
        } else {
            st
        },
        XmlEvent::End(name) => if name@ == tag_t() {
            (shared.push(cur), seq![], false)
        } else {
            st
        },
        XmlEvent::Text(t) => if in_t {
            match t {
                Some(t) => (shared, cur + t@, in_t),
                None => st,
            }
        } else {
            st
        },
        XmlEvent::Other => st,
    }
}

/// The state after the first `k` events.
pub open spec fn shared_upto(evs: Seq<XmlEvent>, k: int) -> SharedState
    decreases k,
{
    if k <= 0 {
        (seq![], seq![], false)
    } else {
        shared_step(shared_upto(evs, k - 1), evs[k - 1])
    }
}

/// The shared strings of a workbook's `sharedStrings.xml`.
pub open spec fn spec_shared_strings(evs: Seq<XmlEvent>) -> Seq<Seq<char>> {
    shared_upto(evs, evs.len() as int).0
}

/// An attribute list says `t="s"`: the cell holds an index into the shared strings.
pub open spec fn has_shared_attr(attrs: Seq<Option<(Vec<u8>, Vec<u8>)>>) -> bool {
    exists|j: int| 0 <= j < attrs.len() && is_shared_attr(#[trigger] attrs[j])
}

/// The attribute `t="s"`.
pub open spec fn is_shared_attr(a: Option<(Vec<u8>, Vec<u8>)>) -> bool {
    match a {
        Some((k, v)) => k@ == tag_t() && v@ == seq!['s' as u8],
        None => false,
    }
}

/// The text that a finished cell contributes.
pub open spec fn cell_text(shared: Seq<Seq<char>>, is_shared: bool, v: Seq<char>) -> Seq<char> {
    if is_shared {
        match spec_parse_unsigned(v, usize::MAX as int) {
            Some(i) => if i < shared.len() {
                shared[i]
            } else {
                seq![]
            },
            None => seq![],
        }
    } else {
        v
    }
}

/// State while reading a sheet: the value of the open cell, whether it is a
/// shared string, the cells of the open row, and the rows so far.
pub type SheetState = (Option<Seq<char>>, bool, Seq<Seq<char>>, Seq<Seq<char>>);

/// One event of a sheet: a non-empty cell text joins its row; a row with
/// cells joins the rows as its cells separated by tabs.
pub open spec fn sheet_step(shared: Seq<Seq<char>>, st: SheetState, ev: XmlEvent) -> SheetState {
    let (cell, is_shared, row, rows) = st;
    match ev {
        XmlEvent::Start(name, attrs) => if name@ == tag_c() {
            (None, has_shared_attr(attrs@), row, rows)
        } else {
            st
        },
        XmlEvent::End(name) => if name@ == tag_c() {
            match cell {
                Some(v) => {
                    let text = cell_text(shared, is_shared, v);
                    (None, is_shared, if text.len() > 0 {
                        row.push(text)
                    } else {
                        row
                    }, rows)
                },
                None => st,
            }
        } else if name@ == tag_row() {
            (cell, is_shared, seq![], if row.len() > 0 {
                rows.push(join(row, "\t"@))
            } else {
                rows
            })
        } else {
            st
        },
        XmlEvent::Text(t) => match t {
            Some(t) => (Some(t@), is_shared, row, rows),
            None => st,
        },
        XmlEvent::Other => st,
    }
}

/// The sheet state after the first `k` events, starting from the rows `rows0`.
pub open spec fn sheet_upto(
    shared: Seq<Seq<char>>,
    evs: Seq<XmlEvent>,
    rows0: Seq<Seq<char>>,
    k: int,
) -> SheetState
    decreases k,
{
    if k <= 0 {
        (None, false, seq![], rows0)
    } else {
        sheet_step(shared, sheet_upto(shared, evs, rows0, k - 1), evs[k - 1])
    }
}

/// The rows after reading one sheet, starting from the rows `rows0`.
pub open spec fn spec_sheet_rows(
    shared: Seq<Seq<char>>,
    evs: Seq<XmlEvent>,
    rows0: Seq<Seq<char>>,
) -> Seq<Seq<char>> {
    sheet_upto(shared, evs, rows0, evs.len() as int).3
}

/// An entry that holds a worksheet.
pub open spec fn is_sheet_name(name: Seq<char>) -> bool {
    seq_starts_with(name, "xl/worksheets/sheet"@) && seq_ends_with(name, ".xml"@)
}

/// The rows of the sheets among the first `k` entries, or `None` when one of
/// them cannot be read.
pub open spec fn workbook_rows(
    bytes: Seq<u8>,
    names: Seq<Seq<char>>,
    shared: Seq<Seq<char>>,
    k: int,
) -> Option<Seq<Seq<char>>>
    decreases k,
{
    if k <= 0 {
        Some(seq![])
    } else {
        match workbook_rows(bytes, names, shared, k - 1) {
            None => None,
            Some(rows) => if is_sheet_name(names[k - 1]) {
                match spec_zip_entry_text(bytes, k - 1) {
                    Some(c) => Some(spec_sheet_rows(shared, spec_xml_events(c), rows)),
                    None => None,
                }
            } else {
                Some(rows)
            },
        }
    }
}

/// The shared strings of the workbook in `bytes`: none when it has no
/// `xl/sharedStrings.xml`, `None` when that entry cannot be read.
pub open spec fn workbook_shared(bytes: Seq<u8>) -> Option<Seq<Seq<char>>> {
    match spec_zip_named_text(bytes, "xl/sharedStrings.xml"@) {
        None => Some(seq![]),
        Some(None) => None,
        Some(Some(c)) => Some(spec_shared_strings(spec_xml_events(c))),
    }
}

/// The text of an XLSX workbook: one line per non-empty row of every sheet,
/// its cells separated by tabs and shared-string cells resolved; `None` when
/// the archive or a part cannot be read, or there is no row.
pub open spec fn spec_parse_xlsx(bytes: Seq<u8>) -> Option<Seq<char>> {
    match spec_zip_names(bytes) {
        None => None,
        Some(names) => match workbook_shared(bytes) {
            None => None,
            Some(shared) => match workbook_rows(bytes, names, shared, names.len() as int) {
                None => None,
                Some(rows) => if rows.len() == 0 {
                    None
                } else {
                    Some(join(rows, "\n"@))
                },
            },
        },
    }
}

/// Whether an attribute list says `t="s"`.
fn shared_attr(attrs: &Vec<Option<(Vec<u8>, Vec<u8>)>>) -> (b: bool)
    ensures
        b == has_shared_attr(attrs@),
{
    let t = vec!['t' as u8];
    let s = vec!['s' as u8];
    assert(t@ =~= tag_t());
    assert(s@ =~= seq!['s' as u8]);
    let mut i: usize = 0;
    while i < attrs.len()
        invariant
            i <= attrs.len(),
            t@ == tag_t(),
            s@ == seq!['s' as u8],
            forall|j: int| 0 <= j < i ==> !is_shared_attr(#[trigger] attrs@[j]),
        decreases attrs.len() - i,
    {
        match &attrs[i] {
            Some((k, v)) => {
                if bytes_eq(k, &t) && bytes_eq(v, &s) {
                    return true;
                }
            },
            None => {},
        }
        i = i + 1;
    }
    false
}

/// The shared strings of a workbook's `sharedStrings.xml` part.
fn shared_strings(content: &str) -> (r: Vec<String>)
    ensures
        string_views(r@) == spec_shared_strings(spec_xml_events(content@)),
{
    let evs = xml_events(content);
    let t = vec!['t' as u8];
    assert(t@ =~= tag_t());
    let mut shared: Vec<String> = Vec::new();
    let mut cur = String::new();
    let mut in_t = false;
    let mut i: usize = 0;
    while i < evs.len()
        invariant
            i <= evs.len(),
            t@ == tag_t(),
            evs@ == spec_xml_events(content@),
            shared_upto(evs@, i as int) == (string_views(shared@), cur@, in_t),
        decreases evs.len() - i,
    {
        match &evs[i] {
            XmlEvent::Start(name, _) => {
                if bytes_eq(name, &t) {
                    in_t = true;
                }
            },
            XmlEvent::End(name) => {
                if bytes_eq(name, &t) {
                    let ghost old_s = string_views(shared@);
                    shared.push(cur);
                    assert(string_views(shared@) =~= old_s.push(cur@));
                    cur = String::new();
                    in_t = false;
                }
            },
            XmlEvent::Text(Some(text)) => {
                if in_t {
                    push_str(&mut cur, text.as_str());
                }
            },
            _ => {},
        }
        i = i + 1;
    }
    shared
}

/// The text a finished cell contributes.
fn resolve_cell(shared: &Vec<String>, is_shared: bool, v: String) -> (r: String)
    ensures
        r@ == cell_text(string_views(shared@), is_shared, v@),
{
    if is_shared {
        let vc = chars_of(v.as_str());
        match parse_u64(&vc) {
            Some(n) => {
                if n <= usize::MAX as u64 && (n as usize) < shared.len() {
                    assert(string_views(shared@)[n as int] == shared@[n as int]@);
                    shared[n as usize].clone()
                } else {
                    String::new()
                }
            },
            None => String::new(),
        }
    } else {
        v
    }
}

/// Add the rows of one sheet to `rows`.
fn sheet_rows(shared: &Vec<String>, content: &str, rows: &mut Vec<String>)
    ensures
        string_views(final(rows)@) == spec_sheet_rows(
            string_views(shared@),
            spec_xml_events(content@),
            string_views(old(rows)@),
        ),
{
    let evs = xml_events(content);
    let c = vec!['c' as u8];
    let rw = vec!['r' as u8, 'o' as u8, 'w' as u8];
    assert(c@ =~= tag_c());
    assert(rw@ =~= tag_row());
    let ghost sh = string_views(shared@);
    let ghost rows0 = string_views(rows@);
    let mut cell: Option<String> = None;
    let mut is_shared = false;
    let mut row: Vec<String> = Vec::new();
    let mut i: usize = 0;
    assert(string_views(row@) =~= Seq::<Seq<char>>::empty());
    while i < evs.len()
        invariant
            i <= evs.len(),
            c@ == tag_c(),
            rw@ == tag_row(),
            sh == string_views(shared@),
            evs@ == spec_xml_events(content@),
            sheet_upto(sh, evs@, rows0, i as int) == (
                match cell {
                    Some(v) => Some(v@),
                    None => None::<Seq<char>>,
                },
                is_shared,
                string_views(row@),
                string_views(rows@),
            ),
        decreases evs.len() - i,
    {
        match &evs[i] {
            XmlEvent::Start(name, attrs) => {
                if bytes_eq(name, &c) {
                    is_shared = shared_attr(attrs);
                    cell = None;
                }
            },
            XmlEvent::End(name) => {
                if bytes_eq(name, &c) {
                    match cell.take() {
                        Some(v) => {
                            let text = resolve_cell(shared, is_shared, v);
                            if !text.as_str().is_empty() {
                                let ghost old_row = string_views(row@);
                                row.push(text);
                                assert(string_views(row@) =~= old_row.push(text@));
                            }
                        },
                        None => {},
                    }
                } else if bytes_eq(name, &rw) {
                    if row.len() > 0 {
                        let line = join_strings(&row, "\t");
                        let ghost old_rows = string_views(rows@);
                        rows.push(line);
                        assert(string_views(rows@) =~= old_rows.push(line@));
                    }
                    row = Vec::new();
                    assert(string_views(row@) =~= Seq::<Seq<char>>::empty());
                }
            },
            XmlEvent::Text(Some(t)) => {
                cell = Some(t.clone());
            },
            _ => {},
        }
        i = i + 1;
    }
}

/// Read the cell text of an XLSX workbook from its bytes.
pub fn parse_xlsx_bytes(bytes: &[u8]) -> (r: Option<String>)
    ensures
        match r {
            Some(t) => spec_parse_xlsx(bytes@) == Some(t@),
            None => spec_parse_xlsx(bytes@) is None,
        },
{
    let names = match zip_entry_names(bytes) {
        Some(n) => n,
        None => return None,
    };
    let shared = match zip_named_text(bytes, "xl/sharedStrings.xml") {
        None => Vec::new(),
        Some(None) => return None,
        Some(Some(content)) => shared_strings(content.as_str()),
    };
    let ghost nv = string_views(names@);
    let ghost sh = string_views(shared@);
    assert(workbook_shared(bytes@) == Some(sh)) by {
        if spec_zip_named_text(bytes@, "xl/sharedStrings.xml"@) is None {
            assert(sh =~= Seq::<Seq<char>>::empty());
        }
    }
    let mut rows: Vec<String> = Vec::new();
    let mut i: usize = 0;
    assert(string_views(rows@) =~= Seq::<Seq<char>>::empty());
    while i < names.len()
        invariant
            i <= names.len(),
            spec_zip_names(bytes@) == Some(nv),
            nv == string_views(names@),
            sh == string_views(shared@),
            workbook_shared(bytes@) == Some(sh),
            workbook_rows(bytes@, nv, sh, i as int) == Some(string_views(rows@)),
        decreases names.len() - i,
    {
        assert(nv[i as int] == names[i as int]@);
        let n = chars_of(names[i].as_str());
        let p = chars_of("xl/worksheets/sheet");
        let x = chars_of(".xml");
        if crate::text::starts_with_vec(&n, &p) && crate::text::ends_with_vec(&n, &x) {
            let content = match zip_entry_text(bytes, i) {
                Some(c) => c,
                None => {
                    proof {
                        lemma_workbook_rows_none(bytes@, nv, sh, i + 1, nv.len() as int);
                    }
                    return None;
                },
            };
            sheet_rows(&shared, content.as_str(), &mut rows);
        }
        i = i + 1;
    }
    if rows.len() == 0 {
        None
    } else {
        Some(join_strings(&rows, "\n"))
    }
}

/// Reading a sheet only adds rows after those read before it.
proof fn lemma_sheet_keeps_earlier_rows(
    shared: Seq<Seq<char>>,
    evs: Seq<XmlEvent>,
    rows0: Seq<Seq<char>>,
    k: int,
)
    requires
        0 <= k,
    ensures
        sheet_upto(shared, evs, rows0, k).3.len() >= rows0.len(),
        sheet_upto(shared, evs, rows0, k).3.subrange(0, rows0.len() as int) == rows0,
    decreases k,
{
    if k > 0 {
        lemma_sheet_keeps_earlier_rows(shared, evs, rows0, k - 1);
        let prev = sheet_upto(shared, evs, rows0, k - 1).3;
        let cur = sheet_upto(shared, evs, rows0, k).3;
        assert(cur == prev || (cur.len() == prev.len() + 1 && cur.subrange(0, prev.len() as int)
            =~= prev));
        assert(cur.subrange(0, rows0.len() as int) =~= prev.subrange(0, rows0.len() as int));
    }
}

/// Every worksheet of a workbook is read, in archive order: an entry named
/// `xl/worksheets/sheet...xml` (whatever comes between) adds the rows of its
/// text after the rows of the entries before it, so the rows read before
/// stay as they were; an entry of any other name adds nothing; and a
/// worksheet that cannot be read makes the workbook unreadable.
pub proof fn lemma_every_sheet_read_in_order(
    bytes: Seq<u8>,
    names: Seq<Seq<char>>,
    shared: Seq<Seq<char>>,
    k: int,
)
    requires
        0 <= k < names.len(),
    ensures
        ({
            let before = workbook_rows(bytes, names, shared, k);
            let after = workbook_rows(bytes, names, shared, k + 1);
            let name = names[k];
            &&& seq_starts_with(name, "xl/worksheets/sheet"@) && seq_ends_with(name, ".xml"@) ==> match before {
                None => after is None,
                Some(rows) => match spec_zip_entry_text(bytes, k) {
                    None => after is None,
                    Some(c) => after == Some(spec_sheet_rows(shared, spec_xml_events(c), rows))
                        && spec_sheet_rows(shared, spec_xml_events(c), rows).subrange(0, rows.len() as int) == rows,
                },
            }
            &&& !(seq_starts_with(name, "xl/worksheets/sheet"@) && seq_ends_with(name, ".xml"@)) ==> after == before
        }),
{
    match workbook_rows(bytes, names, shared, k) {
        None => {},
        Some(rows) => match spec_zip_entry_text(bytes, k) {
            None => {},
            Some(c) => {
                let evs = spec_xml_events(c);
                lemma_sheet_keeps_earlier_rows(shared, evs, rows, evs.len() as int);
            },
        },
    }
}

/// The text of a workbook is made of the rows of all its entries, walked to
/// the last one: when the archive and its shared strings can be read, the
/// text is the rows after the last entry, one per line, and there is text
/// exactly when some row was read.
pub proof fn lemma_xlsx_text_covers_all_entries(bytes: Seq<u8>)
    requires
        spec_zip_names(bytes) is Some,
        workbook_shared(bytes) is Some,
    ensures
        ({
            let names = spec_zip_names(bytes)->0;
            let shared = workbook_shared(bytes)->0;
            match workbook_rows(bytes, names, shared, names.len() as int) {
                None => spec_parse_xlsx(bytes) is None,
                Some(rows) => (rows.len() > 0 ==> spec_parse_xlsx(bytes) == Some(join(rows, "\n"@)))
                    && (rows.len() == 0 ==> spec_parse_xlsx(bytes) is None),
            }
        }),
{
}

/// Once a sheet cannot be read, the workbook cannot be read.
proof fn lemma_workbook_rows_none(
    bytes: Seq<u8>,
    names: Seq<Seq<char>>,
    shared: Seq<Seq<char>>,
    k: int,
    m: int,
)
    requires
        0 <= k <= m,
        workbook_rows(bytes, names, shared, k) is None,
    ensures
        workbook_rows(bytes, names, shared, m) is None,
    decreases m - k,
{
    if k < m {
        lemma_workbook_rows_none(bytes, names, shared, k + 1, m);
    }
}

} // verus!

verus! {

/// The visible text of an HTML document: `<script>` and `<style>` blocks
/// dropped, tags stripped, entities decoded, white space collapsed.
pub open spec fn spec_html_text(html: Seq<char>) -> Seq<char> {
    spec_collapse_ws(spec_strip_xml(spec_strip_script_style(html)))
}

/// Extract the visible text of an HTML document.
pub fn html_text(html: &str) -> (r: String)
    ensures
        r@ == spec_html_text(html@),
{
    let cleaned = strip_script_style(html);
    let text = strip_xml(cleaned.as_str());
    collapse_whitespace(text.as_str())
}

} // verus!
