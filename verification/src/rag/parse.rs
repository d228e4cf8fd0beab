use vstd::prelude::*;
use vstd::utf8::*;
use vstd::string::StringSliceAdditionalSpecFns;
use vstd::string::StrSliceExecFns;

use crate::text::{
    chars_of, is_alphanumeric, is_uppercase, leading_ws, spec_is_alphanumeric, spec_is_uppercase,
    spec_to_lowercase, to_lowercase, is_ws, lines, push_char, push_str, seq_starts_with, slice_vec, split_lines,
    starts_with_vec, str_eq, string_from_seq_str, string_of, string_of_range, string_views, trim, trim_bounds, trim_start, trimmed, views,
};

verus! {

broadcast use {encode_utf8_valid_utf8, encode_utf8_decode_utf8, is_char_boundary_start_end_of_seq};

// ---------------------------------------------------------------------------
// Sliding-window chunking
// ---------------------------------------------------------------------------

/// The windows `[start, end)` that cut `n` characters into pieces of at
/// most `size` characters, each starting `step` characters after the
/// previous one; the last window ends at `n`.
pub open spec fn windows_from(n: int, size: int, step: int, start: int) -> Seq<(int, int)>
    decreases n - start,
{
    if start >= n || step <= 0 || start < 0 || step > size {
        seq![]
    } else {
        let end = if start + size < n { start + size } else { n };
        if end >= n {
            seq![(start, n)]
        } else {
            seq![(start, end)] + windows_from(n, size, step, start + step)
        }
    }
}

/// The windows in which `chunk_text` cuts `text` (counted in characters of
/// the trimmed text).
pub open spec fn chunk_windows(text: Seq<char>, size: int, overlap: int) -> Seq<(int, int)> {
    windows_from(trim(text).len() as int, size, size - overlap, 0)
}

/// The shape of the windows from `start` on: each is non-empty and at most
/// `size` long, the first starts at `start`, each next one starts `step`
/// after the one before and so overlaps it by `size - step`, and the last
/// ends at `n`.
proof fn lemma_windows_from_shape(n: int, size: int, step: int, start: int)
    requires
        0 < step <= size,
        0 <= start < n,
    ensures
        ({
            let ws = windows_from(n, size, step, start);
            &&& ws.len() > 0
            &&& ws[0].0 == start
            &&& ws.last().1 == n
            &&& forall|k: int|
                0 <= k < ws.len() ==> ws[k].0 < ws[k].1 <= n && #[trigger] ws[k].1 - ws[k].0 <= size
            &&& forall|k: int|
                0 <= k < ws.len() - 1 ==> #[trigger] ws[k + 1].0 == ws[k].0 + step && ws[k].1
                    == ws[k].0 + size
        }),
    decreases n - start,
{
    let end = if start + size < n { start + size } else { n };
    if end < n {
        lemma_windows_from_shape(n, size, step, start + step);
        let rest = windows_from(n, size, step, start + step);
        let ws = windows_from(n, size, step, start);
        assert(ws == seq![(start, end)] + rest);
        assert forall|k: int| 0 <= k < ws.len() - 1 implies #[trigger] ws[k + 1].0 == ws[k].0 + step
            && ws[k].1 == ws[k].0 + size by {
            if k > 0 {
                assert(ws[k] == rest[k - 1]);
                assert(ws[k + 1] == rest[k]);
                let j = k - 1;
                assert(rest[j + 1].0 == rest[j].0 + step && rest[j].1 == rest[j].0 + size);
            } else {
                assert(ws[1] == rest[0]);
            }
        }
        assert forall|k: int| 0 <= k < ws.len() implies ws[k].0 < ws[k].1 <= n && #[trigger] ws[k].1
            - ws[k].0 <= size by {
            if k > 0 {
                assert(ws[k] == rest[k - 1]);
            }
        }
    }
}

/// How `chunk_text` cuts a long text: the trimmed text's characters are
/// split into windows of at most `size` characters (none empty); the first
/// begins at the start and the last reaches the end; each next window begins
/// `size - overlap` characters after the one before, which is a full `size`
/// characters long, so that consecutive chunks share exactly `overlap`
/// characters.
pub proof fn lemma_chunk_windows_shape(text: Seq<char>, size: int, overlap: int)
    requires
        0 <= overlap < size,
        trim(text).len() > size,
    ensures
        ({
            let ws = chunk_windows(text, size, overlap);
            let n = trim(text).len() as int;
            &&& ws.len() > 0
            &&& ws[0].0 == 0
            &&& ws.last().1 == n
            &&& forall|k: int|
                0 <= k < ws.len() ==> ws[k].0 < ws[k].1 <= n && #[trigger] ws[k].1 - ws[k].0 <= size
            &&& forall|k: int|
                0 <= k < ws.len() - 1 ==> #[trigger] ws[k + 1].0 == ws[k].0 + (size - overlap)
                    && ws[k].1 - ws[k + 1].0 == overlap
        }),
{
    lemma_windows_from_shape(trim(text).len() as int, size, size - overlap, 0);
}

/// The inputs on which `chunk_text` does its work: when the text needs
/// cutting, the overlap is smaller than the chunk size (else the window
/// would not move forward).
pub open spec fn chunk_text_admissible(text: Seq<char>, size: int, overlap: int) -> bool {
    trim(text).len() > size ==> overlap < size
}

/// The chunks that `chunk_text` makes of `text`: nothing for blank text, the
/// whole trimmed text when it fits in `size` characters, and otherwise the
/// trimmed text cut into windows of `size` characters that overlap by
/// `overlap` characters.
pub open spec fn spec_chunk_text(text: Seq<char>, size: int, overlap: int) -> Seq<Seq<char>> {
    let t = trim(text);
    if t.len() == 0 {
        seq![]
    } else if t.len() <= size {
        seq![t]
    } else {
        chunk_windows(text, size, overlap).map_values(|w: (int, int)| t.subrange(w.0, w.1))
    }
}

/// Whether `chunk_text` can cut `text` with these sizes: the text fits, or
/// the overlap is smaller than the chunk size.
pub fn chunk_text_accepts(text: &str, chunk_size: usize, overlap: usize) -> (b: bool)
    ensures
        b == chunk_text_admissible(text@, chunk_size as int, overlap as int),
{
    let cv = chars_of(text);
    let (a, e) = trim_bounds(&cv);
    e - a <= chunk_size || overlap < chunk_size
}

/// Split text into chunks of about `chunk_size` characters, consecutive
/// chunks sharing `overlap` characters.
pub fn chunk_text(text: &str, chunk_size: usize, overlap: usize) -> (r: Vec<String>)
    requires
        chunk_text_admissible(text@, chunk_size as int, overlap as int),
    ensures
        string_views(r@) == spec_chunk_text(text@, chunk_size as int, overlap as int),
{
    let cv = chars_of(text);
    let (a, e) = trim_bounds(&cv);
    let ghost t = trim(text@);
    if a == e {
        let r: Vec<String> = Vec::new();
        assert(string_views(r@) =~= Seq::<Seq<char>>::empty());
        return r;
    }
    let n = e - a;
    if n <= chunk_size {
        let mut r: Vec<String> = Vec::new();
        r.push(string_of_range(&cv, a, e));
        assert(string_views(r@) =~= seq![t]);
        return r;
    }
    let ghost size = chunk_size as int;
    let ghost step = (chunk_size - overlap) as int;
    let ghost all = windows_from(n as int, size, step, 0);
    assert(all == chunk_windows(text@, size, overlap as int));
    let ghost f = |w: (int, int)| t.subrange(w.0, w.1);
    let mut chunks: Vec<String> = Vec::new();
    let mut start: usize = 0;
    let ghost mut done: Seq<(int, int)> = seq![];
    loop
        invariant_except_break
            all == done + windows_from(n as int, size, step, start as int),
            string_views(chunks@) == done.map_values(f),
        invariant
            forall|w: (int, int)| #[trigger] f(w) == t.subrange(w.0, w.1),
            t == trim(text@),
            t == cv@.subrange(a as int, e as int),
            a <= e <= cv.len(),
            n == e - a,
            n > chunk_size,
            overlap < chunk_size,
            size == chunk_size,
            step == chunk_size - overlap,
            start < n,
            all == chunk_windows(text@, size, overlap as int),
            all == windows_from(n as int, size, step, 0),
        ensures
            string_views(chunks@) == all.map_values(f),
        decreases n - start,
    {
        let end = if chunk_size < n - start {
            start + chunk_size
        } else {
            n
        };
        let ghost rest = windows_from(n as int, size, step, start as int);
        assert(rest[0] == (start as int, end as int));
        let s = string_of_range(&cv, a + start, a + end);
        assert(s@ =~= t.subrange(start as int, end as int));
        let ghost old_chunks = chunks@;
        chunks.push(s);
        proof {
            assert(string_views(chunks@) =~= string_views(old_chunks).push(s@));
            assert(done.push(rest[0]).map_values(f) =~= done.map_values(f).push(f(rest[0])));
        }
        if end == n {
            proof {
                assert(rest =~= seq![rest[0]]);
                done = done.push(rest[0]);
                assert(all =~= done);
            }
            break;
        }
        proof {
            assert(rest =~= seq![rest[0]] + windows_from(n as int, size, step, start + step));
            done = done.push(rest[0]);
            assert(all =~= done + windows_from(n as int, size, step, start + step));
        }
        start = start + (chunk_size - overlap);
    }
    chunks
}

} // verus!

verus! {

// ---------------------------------------------------------------------------
// Index depth levels
// ---------------------------------------------------------------------------

/// Depth levels of the indexing engine, from coarse to deep.
#[derive(Debug, Clone, Copy, PartialEq, Eq)]
pub enum Level {
    Raw,
    Structure,
    Summaries,
    Dense,
    Rerank,
}

/// The number of a level (1 to 5).
pub open spec fn level_number(l: Level) -> u8 {
    match l {
        Level::Raw => 1,
        Level::Structure => 2,
        Level::Summaries => 3,
        Level::Dense => 4,
        Level::Rerank => 5,
    }
}

impl Level {
    /// The level with number `v`; any number outside 1 to 4 means the deepest level.
    pub fn from_u8(v: u8) -> (l: Level)
        ensures
            1 <= v <= 5 ==> level_number(l) == v,
            (v == 0 || v > 5) ==> l == Level::Rerank,
    {
        match v {
            1 => Level::Raw,
            2 => Level::Structure,
            3 => Level::Summaries,
            4 => Level::Dense,
            _ => Level::Rerank,
        }
    }

    /// The number of this level (1 to 5).
    pub fn as_u8(&self) -> (v: u8)
        ensures
            v == level_number(*self),
    {
        match self {
            Level::Raw => 1,
            Level::Structure => 2,
            Level::Summaries => 3,
            Level::Dense => 4,
            Level::Rerank => 5,
        }
    }
}

/// Different levels have different numbers, so a level read back from its
/// number (`Level::from_u8` of `as_u8`) is the same level.
pub proof fn lemma_level_number_roundtrip(l: Level, m: Level)
    requires
        level_number(l) == level_number(m),
    ensures
        l == m,
{
}

// ---------------------------------------------------------------------------
// Structure-aware chunking
// ---------------------------------------------------------------------------

/// The number of `'#'` characters that `s` begins with.
pub open spec fn count_hashes(s: Seq<char>) -> nat
    decreases s.len(),
{
    if s.len() > 0 && s[0] == '#' {
        1 + count_hashes(s.drop_first())
    } else {
        0
    }
}

/// The title of a markdown heading line (`#`, `##`, ... then a non-blank title).
pub open spec fn markdown_title(t: Seq<char>) -> Seq<char> {
    let rest = t.drop_first();
    trim(rest.subrange(count_hashes(rest) as int, rest.len() as int))
}

/// The section title that `line` opens, if it is a heading: a markdown
/// heading with a non-blank title, or a code or configuration marker line
/// (`// ===`, `/* ===`, `; ===`).
pub open spec fn spec_heading(line: Seq<char>) -> Option<Seq<char>> {
    let t = trim_start(line);
    if t.len() > 0 && t[0] == '#' && markdown_title(t).len() > 0 {
        Some(markdown_title(t))
    } else if seq_starts_with(t, "// ==="@) || seq_starts_with(t, "/* ==="@) || seq_starts_with(
        t,
        "; ==="@,
    ) {
        Some(t)
    } else {
        None
    }
}

/// `n` copies of `'#'`.
pub open spec fn hashes(n: nat) -> Seq<char> {
    Seq::new(n, |i: int| '#')
}

/// `n` hashes in front of a text that does not begin with one count as `n`.
proof fn lemma_count_hashes(n: nat, t: Seq<char>)
    requires
        t.len() == 0 || t[0] != '#',
    ensures
        count_hashes(hashes(n) + t) == n,
    decreases n,
{
    if n > 0 {
        assert((hashes(n) + t).drop_first() =~= hashes((n - 1) as nat) + t);
        lemma_count_hashes((n - 1) as nat, t);
    } else {
        assert(hashes(0) + t =~= t);
    }
}

/// A markdown heading of any level is a heading: a line of one or more `#`
/// followed by a title (with nothing blank around it, and not itself
/// starting with `#`), whatever the number of `#` and however far the line
/// is indented, opens a section named by that title, and the same with
/// blanks between the `#` and the title.
pub proof fn lemma_markdown_heading_any_level(indent: Seq<char>, n: nat, gap: Seq<char>, title: Seq<char>)
    requires
        n >= 1,
        forall|k: int| 0 <= k < indent.len() ==> is_ws(#[trigger] indent[k]),
        forall|k: int| 0 <= k < gap.len() ==> is_ws(#[trigger] gap[k]),
        title.len() > 0,
        title[0] != '#',
        !is_ws(title[0]),
        !is_ws(title.last()),
    ensures
        spec_heading(indent + hashes(n) + gap + title) == Some(title),
    decreases indent.len(),
{
    if indent.len() > 0 {
        let line = indent + hashes(n) + gap + title;
        assert(line.drop_first() =~= indent.drop_first() + hashes(n) + gap + title);
        assert(is_ws(indent[0]));
        assert(trim_start(line) == trim_start(line.drop_first()));
        lemma_markdown_heading_any_level(indent.drop_first(), n, gap, title);
        assert(spec_heading(line) == spec_heading(indent.drop_first() + hashes(n) + gap + title));
    } else {
        let line = indent + hashes(n) + gap + title;
        assert(line =~= hashes(n) + gap + title);
        assert(line[0] == '#');
        assert(!is_ws('#'));
        assert(trim_start(line) == line);
        let rest = line.drop_first();
        assert(rest =~= hashes((n - 1) as nat) + (gap + title));
        let gt = gap + title;
        assert(gt.len() == 0 || gt[0] != '#') by {
            if gap.len() > 0 {
                assert(gt[0] == gap[0]);
                assert(is_ws(gap[0]));
                assert(!is_ws('#'));
            } else {
                assert(gt[0] == title[0]);
            }
        }
        lemma_count_hashes((n - 1) as nat, gt);
        assert(rest.subrange(count_hashes(rest) as int, rest.len() as int) =~= gt);
        lemma_trim_blank_front(gap, title);
        assert(markdown_title(line) == title);
    }
}

/// Blanks in front of a title with nothing blank at either end trim away.
proof fn lemma_trim_blank_front(gap: Seq<char>, title: Seq<char>)
    requires
        forall|k: int| 0 <= k < gap.len() ==> is_ws(#[trigger] gap[k]),
        title.len() > 0,
        !is_ws(title[0]),
        !is_ws(title.last()),
    ensures
        trim(gap + title) == title,
    decreases gap.len(),
{
    if gap.len() > 0 {
        assert((gap + title).drop_first() =~= gap.drop_first() + title);
        assert(is_ws((gap + title)[0]));
        lemma_trim_blank_front(gap.drop_first(), title);
    } else {
        assert(gap + title =~= title);
        assert(trim_start(title) == title);
        assert(crate::text::trim_end(title) == title);
    }
}

/// The number of leading `'#'` characters of `s[from..]`.
fn hashes_from(s: &Vec<char>, from: usize) -> (n: usize)
    requires
        from <= s.len(),
    ensures
        from + n <= s.len(),
        n == count_hashes(s@.subrange(from as int, s@.len() as int)),
{
    let mut i = from;
    while i < s.len() && s[i] == '#'
        invariant
            from <= i <= s.len(),
            count_hashes(s@.subrange(from as int, s@.len() as int)) == (i - from) + count_hashes(
                s@.subrange(i as int, s@.len() as int),
            ),
        decreases s.len() - i,
    {
        assert(s@.subrange(i as int, s@.len() as int).drop_first() =~= s@.subrange(
            i + 1,
            s@.len() as int,
        ));
        i = i + 1;
    }
    i - from
}

/// Detect a markdown or code heading and return its title.
fn heading_of(line: &Vec<char>) -> (h: Option<Vec<char>>)
    ensures
        match h {
            Some(v) => spec_heading(line@) == Some(v@),
            None => spec_heading(line@) is None,
        },
{
    let a = leading_ws(line);
    let t = slice_vec(line, a, line.len());
    assert(t@ == trim_start(line@));
    if t.len() > 0 && t[0] == '#' {
        let rest = slice_vec(&t, 1, t.len());
        assert(rest@ =~= t@.drop_first());
        let k = hashes_from(&rest, 0);
        assert(rest@.subrange(0, rest@.len() as int) =~= rest@);
        let after = slice_vec(&rest, k, rest.len());
        let title = trimmed(&after);
        if title.len() > 0 {
            return Some(title);
        }
    }
    let p1 = chars_of("// ===");
    let p2 = chars_of("/* ===");
    let p3 = chars_of("; ===");
    if starts_with_vec(&t, &p1) || starts_with_vec(&t, &p2) || starts_with_vec(&t, &p3) {
        Some(t)
    } else {
        None
    }
}

/// A chunk tagged with the section it came from.
pub open spec fn section_chunk(section: Seq<char>, buf: Seq<char>) -> Seq<char> {
    "[section: "@ + section + "]\n"@ + buf
}

/// The state of structure-aware chunking: chunks so far, current section
/// title, and the text gathered since the last chunk.
pub type StructState = (Seq<Seq<char>>, Seq<char>, Seq<char>);

/// A buffer of at least this many UTF-8 bytes is cut into a chunk.
pub const SECTION_CHUNK_BYTES: usize = 900;

/// One line of structure-aware chunking.
pub open spec fn structure_step(st: StructState, line: Seq<char>) -> StructState {
    let (chunks, section, buf) = st;
    match spec_heading(line) {
        Some(title) => if trim(buf).len() > 0 {
            (chunks.push(section_chunk(section, buf)), title, seq![])
        } else {
            (chunks, title, buf)
        },
        None => {
            let buf2 = buf + line + "\n"@;
            if encode_utf8(buf2).len() >= SECTION_CHUNK_BYTES {
                (chunks.push(section_chunk(section, buf2)), section, seq![])
            } else {
                (chunks, section, buf2)
            }
        },
    }
}

/// The state after the first `k` lines of `ls`.
pub open spec fn structure_state(ls: Seq<Seq<char>>, k: int) -> StructState
    decreases k,
{
    if k <= 0 {
        (seq![], "(document start)"@, seq![])
    } else {
        structure_step(structure_state(ls, k - 1), ls[k - 1])
    }
}

/// The chunks that structure-aware chunking makes of `text`: each run of
/// lines between headings (cut when it reaches 900 bytes) tagged with its
/// section title; the whole text when no chunk came out.
pub open spec fn spec_chunk_by_structure(text: Seq<char>) -> Seq<Seq<char>> {
    let ls = lines(text);
    let (chunks, section, buf) = structure_state(ls, ls.len() as int);
    let chunks2 = if trim(buf).len() > 0 {
        chunks.push(section_chunk(section, buf))
    } else {
        chunks
    };
    if chunks2.len() == 0 {
        seq![text]
    } else {
        chunks2
    }
}

/// Builds the tagged chunk text for a section.
fn make_section_chunk(section: &Vec<char>, buf: &String) -> (s: String)
    ensures
        s@ == section_chunk(section@, buf@),
{
    let mut s = string_from_seq_str("[section: ");
    let sec = string_of(section);
    push_str(&mut s, sec.as_str());
    push_str(&mut s, "]\n");
    push_str(&mut s, buf.as_str());
    s
}

/// Whether `s` holds only white space.
pub fn is_blank(s: &String) -> (b: bool)
    ensures
        b == (trim(s@).len() == 0),
{
    let v = chars_of(s.as_str());
    let (a, e) = trim_bounds(&v);
    a == e
}

/// Split text on headings; each chunk carries its nearest section title.
fn chunk_by_structure(text: &str) -> (r: Vec<String>)
    ensures
        string_views(r@) == spec_chunk_by_structure(text@),
{
    let tv = chars_of(text);
    let ls = split_lines(&tv);
    let ghost lsv = views(ls@);
    let mut chunks: Vec<String> = Vec::new();
    let mut section: Vec<char> = chars_of("(document start)");
    let mut buf = String::new();
    let mut i: usize = 0;
    while i < ls.len()
        invariant
            i <= ls.len(),
            lsv == views(ls@),
            lsv == lines(text@),
            structure_state(lsv, i as int) == (string_views(chunks@), section@, buf@),
        decreases ls.len() - i,
    {
        let line = &ls[i];
        assert(lsv[i as int] == line@);
        let ghost before = (string_views(chunks@), section@, buf@);
        match heading_of(line) {
            Some(title) => {
                if !is_blank(&buf) {
                    let c = make_section_chunk(&section, &buf);
                    chunks.push(c);
                    buf = String::new();
                }
                section = title;
            },
            None => {
                let l = string_of(line);
                push_str(&mut buf, l.as_str());
                push_char(&mut buf, '\n');
                assert(buf@ =~= before.2 + line@ + "\n"@) by {
                    reveal_strlit("\n");
                }
                if buf.as_str().as_bytes().len() >= SECTION_CHUNK_BYTES {
                    let c = make_section_chunk(&section, &buf);
                    chunks.push(c);
                    buf = String::new();
                }
            },
        }
        assert(string_views(chunks@) =~= structure_state(lsv, i + 1).0);
        i = i + 1;
    }
    if !is_blank(&buf) {
        let c = make_section_chunk(&section, &buf);
        chunks.push(c);
    }
    if chunks.len() == 0 {
        chunks.push(text.to_owned());
    }
    assert(string_views(chunks@) =~= spec_chunk_by_structure(text@));
    chunks
}

/// Chunks of `text` for the requested depth: raw sliding windows at the
/// first level, structure-aware chunks at every deeper level.
pub open spec fn spec_chunk_by_level(text: Seq<char>, level: Level) -> Seq<Seq<char>> {
    match level {
        Level::Raw => spec_chunk_text(text, 1000, 100),
        _ => spec_chunk_by_structure(text),
    }
}

/// Chunk text according to the requested depth level.
pub fn chunk_by_level(text: &str, level: Level) -> (r: Vec<String>)
    ensures
        string_views(r@) == spec_chunk_by_level(text@, level),
{
    match level {
        Level::Raw => chunk_text(text, 1000, 100),
        Level::Structure => chunk_by_structure(text),
        _ => chunk_by_structure(text),
    }
}

} // verus!

verus! {

// ---------------------------------------------------------------------------
// Entity extraction
// ---------------------------------------------------------------------------

/// Characters that separate words: anything neither alphanumeric nor `'\''`.
pub open spec fn is_word_sep(c: char) -> bool {
    !spec_is_alphanumeric(c) && c != '\''
}

/// The pieces of `s[i..]` between separators, as `str::split` with a
/// character predicate yields them (empty pieces included), after the pieces
/// `done` and the piece `cur` that is still open.
pub open spec fn split_from(s: Seq<char>, i: int, cur: Seq<char>, done: Seq<Seq<char>>) -> Seq<
    Seq<char>,
>
    decreases s.len() - i,
{
    if i >= s.len() || i < 0 {
        done.push(cur)
    } else if is_word_sep(s[i]) {
        split_from(s, i + 1, seq![], done.push(cur))
    } else {
        split_from(s, i + 1, cur.push(s[i]), done)
    }
}

/// The words of `s`: the pieces between separator characters.
pub open spec fn words(s: Seq<char>) -> Seq<Seq<char>> {
    split_from(s, 0, seq![], seq![])
}

/// A word that looks like a name: it begins with an upper-case letter, or is
/// all upper case.
pub open spec fn is_entity_like(w: Seq<char>) -> bool {
    (w.len() > 0 && spec_is_uppercase(w[0])) || (forall|j: int|
        0 <= j < w.len() ==> spec_is_uppercase(#[trigger] w[j]))
}

/// The entities found in the first `k` words, and the lowercase forms seen.
pub open spec fn entities_upto(ws: Seq<Seq<char>>, k: int) -> (Seq<Seq<char>>, Set<Seq<char>>)
    decreases k,
{
    if k <= 0 {
        (seq![], Set::empty())
    } else {
        let (out, seen) = entities_upto(ws, k - 1);
        let w = ws[k - 1];
        if w.len() < 3 {
            (out, seen)
        } else if is_entity_like(w) && !seen.contains(spec_to_lowercase(w)) {
            (out.push(w), seen.insert(spec_to_lowercase(w)))
        } else {
            (out, seen)
        }
    }
}

/// At most this many entities are kept per text.
pub const MAX_ENTITIES: usize = 20;

/// The entity-like words of `text` (at least three characters, capitalized
/// or all upper case), each kept the first time its lowercase form appears,
/// and at most twenty of them, in order of appearance.
pub open spec fn spec_extract_entities(text: Seq<char>) -> Seq<Seq<char>> {
    let ws = words(text);
    let out = entities_upto(ws, ws.len() as int).0;
    if out.len() > MAX_ENTITIES {
        out.take(MAX_ENTITIES as int)
    } else {
        out
    }
}

/// What the first `k` words give: the lowercase forms seen are those of the
/// entities kept; no two entities kept share a lowercase form; each is an
/// entity-like word of at least three characters found among those words.
proof fn lemma_entities_upto(ws: Seq<Seq<char>>, k: int)
    requires
        0 <= k <= ws.len(),
    ensures
        ({
            let (out, seen) = entities_upto(ws, k);
            &&& forall|x: Seq<char>|
                seen.contains(x) <==> exists|j: int| 0 <= j < out.len() && #[trigger] spec_to_lowercase(out[j]) == x
            &&& forall|i: int, j: int|
                0 <= i < j < out.len() ==> spec_to_lowercase(#[trigger] out[i]) != spec_to_lowercase(#[trigger] out[j])
            &&& forall|j: int|
                0 <= j < out.len() ==> (#[trigger] out[j]).len() >= 3 && is_entity_like(out[j]) && exists|m: int|
                    0 <= m < k && ws[m] == out[j]
        }),
    decreases k,
{
    if k > 0 {
        lemma_entities_upto(ws, k - 1);
        let (out0, seen0) = entities_upto(ws, k - 1);
        let w = ws[k - 1];
        let (out, seen) = entities_upto(ws, k);
        if w.len() >= 3 && is_entity_like(w) && !seen0.contains(spec_to_lowercase(w)) {
            assert(out == out0.push(w));
            assert(seen == seen0.insert(spec_to_lowercase(w)));
            assert forall|x: Seq<char>|
                seen.contains(x) <==> exists|j: int| 0 <= j < out.len() && #[trigger] spec_to_lowercase(out[j]) == x by {
                if seen0.contains(x) {
                    let j = choose|j: int| 0 <= j < out0.len() && #[trigger] spec_to_lowercase(out0[j]) == x;
                    assert(out[j] == out0[j]);
                }
                if x == spec_to_lowercase(w) {
                    assert(out[out0.len() as int] == w);
                }
                if exists|j: int| 0 <= j < out.len() && #[trigger] spec_to_lowercase(out[j]) == x {
                    let j = choose|j: int| 0 <= j < out.len() && #[trigger] spec_to_lowercase(out[j]) == x;
                    if j < out0.len() {
                        assert(out[j] == out0[j]);
                        assert(seen0.contains(x));
                    }
                }
            }
            assert forall|i: int, j: int|
                0 <= i < j < out.len() implies spec_to_lowercase(#[trigger] out[i]) != spec_to_lowercase(#[trigger] out[j]) by {
                assert(out[i] == out0[i]);
                if j < out0.len() {
                    assert(out[j] == out0[j]);
                } else {
                    assert(out[j] == w);
                    assert(seen0.contains(spec_to_lowercase(out0[i])));
                }
            }
            assert forall|j: int| 0 <= j < out.len() implies (#[trigger] out[j]).len() >= 3 && is_entity_like(out[j])
                && exists|m: int| 0 <= m < k && ws[m] == out[j] by {
                if j < out0.len() {
                    assert(out[j] == out0[j]);
                    let m = choose|m: int| 0 <= m < k - 1 && ws[m] == out0[j];
                    assert(ws[m] == out[j]);
                } else {
                    assert(out[j] == w);
                    assert(ws[k - 1] == out[j]);
                }
            }
        } else {
            assert(out == out0 && seen == seen0);
            assert forall|j: int| 0 <= j < out.len() implies (#[trigger] out[j]).len() >= 3 && is_entity_like(out[j])
                && exists|m: int| 0 <= m < k && ws[m] == out[j] by {
                let m = choose|m: int| 0 <= m < k - 1 && ws[m] == out0[j];
                assert(ws[m] == out[j]);
            }
        }
    }
}

/// The entities of a text are distinct without regard to case: an entity
/// is kept only the first time its lowercase form occurs, so no two
/// entities share one. Each is an entity-like word of the text (at least
/// three characters, capitalized or all upper case), and there are at most
/// twenty.
pub proof fn lemma_entities_distinct(text: Seq<char>)
    ensures
        ({
            let r = spec_extract_entities(text);
            &&& r.len() <= MAX_ENTITIES
            &&& forall|i: int, j: int|
                0 <= i < j < r.len() ==> spec_to_lowercase(#[trigger] r[i]) != spec_to_lowercase(#[trigger] r[j])
            &&& forall|j: int|
                0 <= j < r.len() ==> (#[trigger] r[j]).len() >= 3 && is_entity_like(r[j])
                    && words(text).contains(r[j])
        }),
{
    let ws = words(text);
    lemma_entities_upto(ws, ws.len() as int);
    let out = entities_upto(ws, ws.len() as int).0;
    let r = spec_extract_entities(text);
    assert forall|j: int| 0 <= j < r.len() implies #[trigger] r[j] == out[j] by {}
    assert forall|j: int| 0 <= j < r.len() implies (#[trigger] r[j]).len() >= 3 && is_entity_like(r[j])
        && ws.contains(r[j]) by {
        assert(r[j] == out[j]);
        let m = choose|m: int| 0 <= m < ws.len() && ws[m] == out[j];
        assert(ws[m] == r[j]);
    }
    assert forall|i: int, j: int|
        0 <= i < j < r.len() implies spec_to_lowercase(#[trigger] r[i]) != spec_to_lowercase(#[trigger] r[j]) by {
        assert(r[i] == out[i] && r[j] == out[j]);
    }
}

/// The words of `s`, split at separator characters.
fn split_words(s: &str) -> (r: Vec<Vec<char>>)
    ensures
        views(r@) == words(s@),
{
    let v = chars_of(s);
    let mut r: Vec<Vec<char>> = Vec::new();
    let mut cur: Vec<char> = Vec::new();
    let mut i: usize = 0;
    assert(views(r@) =~= Seq::<Seq<char>>::empty());
    assert(cur@ =~= Seq::<char>::empty());
    while i < v.len()
        invariant
            i <= v.len(),
            words(v@) == split_from(v@, i as int, cur@, views(r@)),
        decreases v.len() - i,
    {
        let c = v[i];
        if !is_alphanumeric(c) && c != '\'' {
            let ghost old_r = views(r@);
            let w = cur;
            r.push(w);
            assert(views(r@) =~= old_r.push(w@));
            cur = Vec::new();
            assert(cur@ =~= Seq::<char>::empty());
        } else {
            cur.push(c);
        }
        i = i + 1;
    }
    let ghost old_r = views(r@);
    r.push(cur);
    assert(views(r@) =~= old_r.push(cur@));
    r
}

/// Whether the word `w` is already among the lowercase forms in `seen`.
fn seen_contains(seen: &Vec<String>, w: &String) -> (b: bool)
    ensures
        b == string_views(seen@).contains(w@),
{
    let mut i: usize = 0;
    while i < seen.len()
        invariant
            i <= seen.len(),
            forall|j: int| 0 <= j < i ==> seen@[j]@ != w@,
        decreases seen.len() - i,
    {
        if seen[i] == *w {
            assert(string_views(seen@)[i as int] == w@);
            return true;
        }
        i = i + 1;
    }
    assert forall|j: int| 0 <= j < string_views(seen@).len() implies string_views(seen@)[j] != w@ by {
        assert(seen@[j]@ != w@);
    }
    false
}

/// Whether every character of `w` is upper case.
fn all_uppercase(w: &Vec<char>) -> (b: bool)
    ensures
        b == (forall|j: int| 0 <= j < w@.len() ==> spec_is_uppercase(#[trigger] w@[j])),
{
    let mut i: usize = 0;
    while i < w.len()
        invariant
            i <= w.len(),
            forall|j: int| 0 <= j < i ==> spec_is_uppercase(#[trigger] w@[j]),
        decreases w.len() - i,
    {
        if !is_uppercase(w[i]) {
            return false;
        }
        i = i + 1;
    }
    true
}

/// Extract simple entity-like keywords (capitalized terms or all-caps words).
pub fn extract_entities(text: &str) -> (r: Vec<String>)
    ensures
        string_views(r@) == spec_extract_entities(text@),
{
    let ws = split_words(text);
    let ghost wsv = views(ws@);
    let mut out: Vec<String> = Vec::new();
    let mut seen: Vec<String> = Vec::new();
    let mut i: usize = 0;
    while i < ws.len()
        invariant
            i <= ws.len(),
            wsv == views(ws@),
            wsv == words(text@),
            entities_upto(wsv, i as int).0 == string_views(out@),
            entities_upto(wsv, i as int).1 == string_views(seen@).to_set(),
        decreases ws.len() - i,
    {
        let w = &ws[i];
        assert(wsv[i as int] == w@);
        if w.len() >= 3 {
            let is_cap = is_uppercase(w[0]);
            let is_all = all_uppercase(w);
            if is_cap || is_all {
                let ws_str = string_of(w);
                let lower = to_lowercase(ws_str.as_str());
                if !seen_contains(&seen, &lower) {
                    let ghost old_seen = string_views(seen@);
                    let ghost old_out = string_views(out@);
                    seen.push(lower);
                    out.push(ws_str);
                    assert(string_views(seen@) =~= old_seen.push(lower@));
                    assert(string_views(out@) =~= old_out.push(w@));
                    assert forall|x: Seq<char>|
                        #![auto]
                        string_views(seen@).contains(x) <==> (old_seen.contains(x) || x
                            == lower@) by {
                        if old_seen.contains(x) {
                            let j = choose|j: int| 0 <= j < old_seen.len() && old_seen[j] == x;
                            assert(string_views(seen@)[j] == x);
                        }
                        if x == lower@ {
                            assert(string_views(seen@)[old_seen.len() as int] == x);
                        }
                        if string_views(seen@).contains(x) {
                            let j = choose|j: int|
                                0 <= j < string_views(seen@).len() && string_views(seen@)[j] == x;
                            if j < old_seen.len() {
                                assert(old_seen[j] == x);
                            }
                        }
                    }
                    assert(string_views(seen@).to_set() =~= old_seen.to_set().insert(lower@));
                }
            }
        }
        i = i + 1;
    }
    if out.len() > MAX_ENTITIES {
        out.truncate(MAX_ENTITIES);
    }
    assert(string_views(out@) =~= spec_extract_entities(text@));
    out
}

} // verus!

verus! {

// ---------------------------------------------------------------------------
// Which reader handles which file
// ---------------------------------------------------------------------------

/// How the text of a document file is read.
#[derive(Debug, Clone, Copy, PartialEq, Eq)]
pub enum DocKind {
    /// Read as UTF-8 text (plain text, markdown, source code, data files).
    Text,
    Pdf,
    Html,
    Docx,
    Xlsx,
    Pptx,
    Epub,
}

/// How a rich-media file is turned into text.
#[derive(Debug, Clone, Copy, PartialEq, Eq)]
pub enum MediaKind {
    /// Described by a vision model.
    Image,
    /// Transcribed.
    Audio,
    /// Frames described, or else the sound track transcribed.
    Video,
}

/// Extensions (lowercase) of files read as plain text.
pub open spec fn is_text_ext(e: Seq<char>) -> bool {
    ||| e == "txt"@ ||| e == "md"@ ||| e == "markdown"@ ||| e == "rs"@ ||| e == "ts"@
    ||| e == "tsx"@ ||| e == "js"@ ||| e == "jsx"@ ||| e == "py"@ ||| e == "c"@
    ||| e == "cpp"@ ||| e == "h"@ ||| e == "hpp"@ ||| e == "go"@ ||| e == "java"@
    ||| e == "json"@ ||| e == "toml"@ ||| e == "yaml"@ ||| e == "yml"@ ||| e == "sh"@
    ||| e == "bat"@ ||| e == "cs"@ ||| e == "php"@ ||| e == "rb"@ ||| e == "sql"@
    ||| e == "csv"@
}

/// The reader for a lowercase extension.
pub open spec fn spec_doc_kind_lower(e: Seq<char>) -> Option<DocKind> {
    if is_text_ext(e) {
        Some(DocKind::Text)
    } else if e == "pdf"@ {
        Some(DocKind::Pdf)
    } else if e == "html"@ || e == "htm"@ {
        Some(DocKind::Html)
    } else if e == "docx"@ {
        Some(DocKind::Docx)
    } else if e == "xlsx"@ {
        Some(DocKind::Xlsx)
    } else if e == "pptx"@ {
        Some(DocKind::Pptx)
    } else if e == "epub"@ {
        Some(DocKind::Epub)
    } else {
        None
    }
}

/// The media kind for a lowercase extension.
pub open spec fn spec_media_kind_lower(e: Seq<char>) -> Option<MediaKind> {
    if e == "png"@ || e == "jpg"@ || e == "jpeg"@ || e == "webp"@ || e == "gif"@ {
        Some(MediaKind::Image)
    } else if e == "mp3"@ || e == "wav"@ || e == "m4a"@ || e == "ogg"@ || e == "flac"@ {
        Some(MediaKind::Audio)
    } else if e == "mp4"@ || e == "mkv"@ || e == "mov"@ || e == "webm"@ || e == "avi"@ {
        Some(MediaKind::Video)
    } else {
        None
    }
}

/// Whether `e` is one of `names`.
fn one_of(e: &str, names: &[&str]) -> (b: bool)
    ensures
        b == exists|i: int| 0 <= i < names@.len() && e@ == (#[trigger] names@[i])@,
{
    let mut i: usize = 0;
    while i < names.len()
        invariant
            i <= names.len(),
            forall|j: int| 0 <= j < i ==> e@ != (#[trigger] names@[j])@,
        decreases names.len() - i,
    {
        if str_eq(e, names[i]) {
            return true;
        }
        i = i + 1;
    }
    false
}

/// Whether the lowercase extension `e` names a plain-text file.
fn text_ext(e: &str) -> (b: bool)
    ensures
        b == is_text_ext(e@),
{
    let names: [&str; 26] = [
        "txt",
        "md",
        "markdown",
        "rs",
        "ts",
        "tsx",
        "js",
        "jsx",
        "py",
        "c",
        "cpp",
        "h",
        "hpp",
        "go",
        "java",
        "json",
        "toml",
        "yaml",
        "yml",
        "sh",
        "bat",
        "cs",
        "php",
        "rb",
        "sql",
        "csv",
    ];
    let b = one_of(e, names.as_slice());
    proof {
        if is_text_ext(e@) {
            let w = if e@ == "txt"@ { 0int } else if e@ == "md"@ { 1 } else if e@ == "markdown"@ { 2 }
            else if e@ == "rs"@ { 3 } else if e@ == "ts"@ { 4 } else if e@ == "tsx"@ { 5 }
            else if e@ == "js"@ { 6 } else if e@ == "jsx"@ { 7 } else if e@ == "py"@ { 8 }
            else if e@ == "c"@ { 9 } else if e@ == "cpp"@ { 10 } else if e@ == "h"@ { 11 }
            else if e@ == "hpp"@ { 12 } else if e@ == "go"@ { 13 } else if e@ == "java"@ { 14 }
            else if e@ == "json"@ { 15 } else if e@ == "toml"@ { 16 } else if e@ == "yaml"@ { 17 }
            else if e@ == "yml"@ { 18 } else if e@ == "sh"@ { 19 } else if e@ == "bat"@ { 20 }
            else if e@ == "cs"@ { 21 } else if e@ == "php"@ { 22 } else if e@ == "rb"@ { 23 }
            else if e@ == "sql"@ { 24 } else { 25 };
            assert(e@ == names@[w]@);
        }
    }
    b
}

/// The reader for a file extension (compared without regard to case).
pub fn document_kind(ext: &str) -> (k: Option<DocKind>)
    ensures
        k == spec_doc_kind_lower(spec_to_lowercase(ext@)),
{
    let l = to_lowercase(ext);
    let e = l.as_str();
    if text_ext(e) {
        Some(DocKind::Text)
    } else if str_eq(e, "pdf") {
        Some(DocKind::Pdf)
    } else if str_eq(e, "html") || str_eq(e, "htm") {
        Some(DocKind::Html)
    } else if str_eq(e, "docx") {
        Some(DocKind::Docx)
    } else if str_eq(e, "xlsx") {
        Some(DocKind::Xlsx)
    } else if str_eq(e, "pptx") {
        Some(DocKind::Pptx)
    } else if str_eq(e, "epub") {
        Some(DocKind::Epub)
    } else {
        None
    }
}

/// The media kind for a file extension (compared without regard to case).
pub fn media_kind(ext: &str) -> (k: Option<MediaKind>)
    ensures
        k == spec_media_kind_lower(spec_to_lowercase(ext@)),
{
    let l = to_lowercase(ext);
    let e = l.as_str();
    if str_eq(e, "png") || str_eq(e, "jpg") || str_eq(e, "jpeg") || str_eq(e, "webp") || str_eq(
        e,
        "gif",
    ) {
        Some(MediaKind::Image)
    } else if str_eq(e, "mp3") || str_eq(e, "wav") || str_eq(e, "m4a") || str_eq(e, "ogg")
        || str_eq(e, "flac") {
        Some(MediaKind::Audio)
    } else if str_eq(e, "mp4") || str_eq(e, "mkv") || str_eq(e, "mov") || str_eq(e, "webm")
        || str_eq(e, "avi") {
        Some(MediaKind::Video)
    } else {
        None
    }
}

/// Whether files with extension `ext` are collected for indexing: those
/// that a document reader or a media reader handles.
pub fn is_supported_ext(ext: &str) -> (b: bool)
    ensures
        b == (spec_doc_kind_lower(spec_to_lowercase(ext@)) is Some || spec_media_kind_lower(
            spec_to_lowercase(ext@),
        ) is Some),
{
    document_kind(ext).is_some() || media_kind(ext).is_some()
}

/// A local tool that turns a media file into text.
#[derive(Debug, Clone, Copy, PartialEq, Eq)]
pub enum MediaTool {
    /// The vision model describes the image.
    DescribeImage,
    /// whisper.cpp transcribes the sound.
    Transcribe,
    /// ffmpeg extracts frames and the vision model describes them.
    DescribeFrames,
}

/// The tools tried, in order, for a media file of the given kind; the
/// first that succeeds gives the text.
pub open spec fn spec_media_tools(k: Option<MediaKind>) -> Seq<MediaTool> {
    match k {
        Some(MediaKind::Image) => seq![MediaTool::DescribeImage],
        Some(MediaKind::Audio) => seq![MediaTool::Transcribe],
        Some(MediaKind::Video) => seq![MediaTool::DescribeFrames, MediaTool::Transcribe],
        None => seq![],
    }
}

/// How a rich-media file with extension `ext` is parsed into text: the
/// tools to try, in order, the first success giving the text (none for a
/// file that is not media). Images are described by the vision model,
/// audio is transcribed, and video frames are described, or else the
/// sound track transcribed.
pub fn parse_media(ext: &str) -> (r: Vec<MediaTool>)
    ensures
        r@ == spec_media_tools(spec_media_kind_lower(spec_to_lowercase(ext@))),
{
    let mut r: Vec<MediaTool> = Vec::new();
    match media_kind(ext) {
        Some(MediaKind::Image) => r.push(MediaTool::DescribeImage),
        Some(MediaKind::Audio) => r.push(MediaTool::Transcribe),
        Some(MediaKind::Video) => {
            r.push(MediaTool::DescribeFrames);
            r.push(MediaTool::Transcribe);
        },
        None => {},
    }
    assert(r@ =~= spec_media_tools(spec_media_kind_lower(spec_to_lowercase(ext@))));
    r
}

} // verus!
