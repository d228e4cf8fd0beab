use vstd::prelude::*;

use vstd::utf8::encode_utf8;

use crate::hardware::HardwareInfo;
use crate::text::{
    push_char, push_str, seq_contains, seq_ends_with, spec_to_lowercase, str_contains, string_views,
    to_lowercase,
};

verus! {

/// How well a model of a given size suits this machine.
#[derive(Debug, Clone, Copy, PartialEq, Eq)]
pub enum Fitness {
    /// Fits comfortably.
    Fits,
    /// Tight: will run but slowly, or may spill to CPU.
    Tight,
    /// Will not fit.
    TooBig,
}

/// Two gibibytes, kept back for the operating system and other processes.
pub const OS_RESERVE_BYTES: u64 = 2147483648;

/// Memory left for a model once the operating system reserve is taken off.
pub open spec fn ram_available(total_ram: u64) -> int {
    if total_ram >= OS_RESERVE_BYTES { total_ram - OS_RESERVE_BYTES } else { 0 }
}

/// The fitness of a model of `size` bytes on a machine with `vram` bytes of
/// video memory (0 when unknown) and `ram` bytes of system memory.
pub open spec fn spec_classify(size: int, vram: int, ram: u64) -> Fitness {
    let avail = ram_available(ram);
    if vram > 0 {
        if size <= vram / 2 {
            Fitness::Fits
        } else if size <= vram {
            Fitness::Tight
        } else if size <= avail {
            Fitness::Tight
        } else {
            Fitness::TooBig
        }
    } else if size <= avail / 2 {
        Fitness::Fits
    } else if size <= avail {
        Fitness::Tight
    } else {
        Fitness::TooBig
    }
}

/// Orders the fitness levels from best to worst.
pub open spec fn fitness_rank(f: Fitness) -> int {
    match f {
        Fitness::Fits => 0,
        Fitness::Tight => 1,
        Fitness::TooBig => 2,
    }
}

/// The video memory a machine reports, 0 when it reports none.
pub open spec fn vram_of(hw: &HardwareInfo) -> int {
    match hw.vram_bytes {
        Some(v) => v as int,
        None => 0,
    }
}

/// Decide how a model of `size_bytes` bytes fits on the machine `hw`.
pub fn classify(size_bytes: u64, hw: &HardwareInfo) -> (f: Fitness)
    ensures
        f == spec_classify(size_bytes as int, vram_of(hw), hw.total_ram_bytes),
{
    let vram = match hw.vram_bytes {
        Some(v) => v,
        None => 0,
    };
    let ram = hw.total_ram_bytes;
    let ram_avail = ram.saturating_sub(OS_RESERVE_BYTES);
    if vram > 0 {
        if size_bytes <= vram / 2 {
            Fitness::Fits
        } else if size_bytes <= vram {
            Fitness::Tight
        } else if size_bytes <= ram_avail {
            Fitness::Tight
        } else {
            Fitness::TooBig
        }
    } else if size_bytes <= ram_avail / 2 {
        Fitness::Fits
    } else if size_bytes <= ram_avail {
        Fitness::Tight
    } else {
        Fitness::TooBig
    }
}

/// A bigger model never fits better than a smaller one on the same machine.
pub proof fn lemma_classify_monotone(s1: int, s2: int, vram: int, ram: u64)
    requires
        0 <= s1 <= s2,
        vram >= 0,
    ensures
        fitness_rank(spec_classify(s1, vram, ram)) <= fitness_rank(spec_classify(s2, vram, ram)),
{
}

// ---------------------------------------------------------------------------
// Searching Hugging Face
// ---------------------------------------------------------------------------

/// A byte that a query keeps as it is: ASCII letters and digits, `-`, `_`,
/// `.` and `~`.
pub open spec fn is_unreserved(b: u8) -> bool {
    (65 <= b <= 90) || (97 <= b <= 122) || (48 <= b <= 57) || b == 45 || b == 95 || b == 46 || b
        == 126
}

/// The uppercase hexadecimal digit of `d` (below 16).
pub open spec fn hex_upper(d: int) -> char {
    if d < 10 {
        ((48 + d) as u8) as char
    } else {
        ((55 + d) as u8) as char
    }
}

/// How one byte of a query is written in a URL.
pub open spec fn url_byte(b: u8) -> Seq<char> {
    if is_unreserved(b) {
        seq![b as char]
    } else if b == 32 {
        seq!['+']
    } else {
        seq!['%', hex_upper(b as int / 16), hex_upper(b as int % 16)]
    }
}

/// How the bytes `bs` of a query are written in a URL.
pub open spec fn url_bytes(bs: Seq<u8>) -> Seq<char>
    decreases bs.len(),
{
    if bs.len() == 0 {
        seq![]
    } else {
        url_bytes(bs.drop_last()) + url_byte(bs.last())
    }
}

/// The uppercase hexadecimal digit of `d`.
fn hex_upper_char(d: u8) -> (c: char)
    requires
        d < 16,
    ensures
        c == hex_upper(d as int),
{
    if d < 10 {
        (48u8 + d) as char
    } else {
        (55u8 + d) as char
    }
}

/// The query `s` written for a URL: each UTF-8 byte kept when unreserved,
/// a space as `+`, any other byte as `%` and two uppercase hex digits.
pub fn urlencode(s: &str) -> (r: String)
    ensures
        r@ == url_bytes(encode_utf8(s@)),
{
    let bs = s.as_bytes();
    let mut out = String::new();
    let mut i: usize = 0;
    while i < bs.len()
        invariant
            i <= bs.len(),
            bs@ == encode_utf8(s@),
            out@ == url_bytes(bs@.take(i as int)),
        decreases bs.len() - i,
    {
        let b = bs[i];
        let ghost before = out@;
        if (65 <= b && b <= 90) || (97 <= b && b <= 122) || (48 <= b && b <= 57) || b == 45 || b
            == 95 || b == 46 || b == 126 {
            push_char(&mut out, b as char);
        } else if b == 32 {
            push_char(&mut out, '+');
        } else {
            push_char(&mut out, '%');
            push_char(&mut out, hex_upper_char(b / 16));
            push_char(&mut out, hex_upper_char(b % 16));
        }
        assert(out@ =~= before + url_byte(b));
        assert(bs@.take(i + 1).drop_last() =~= bs@.take(i as int));
        i = i + 1;
    }
    assert(bs@.take(bs.len() as int) =~= bs@);
    out
}

/// The search request for GGUF models matching `query`.
pub open spec fn spec_search_url(query: Seq<char>) -> Seq<char> {
    "https://huggingface.co/api/models?search="@ + url_bytes(encode_utf8(query))
        + "&filter=gguf&limit=25"@
}

/// The search request for GGUF models matching `query`.
pub fn search_url(query: &str) -> (u: String)
    ensures
        u@ == spec_search_url(query@),
{
    let mut u = "https://huggingface.co/api/models?search=".to_owned();
    let q = urlencode(query);
    push_str(&mut u, q.as_str());
    push_str(&mut u, "&filter=gguf&limit=25");
    u
}

/// The request for the file listing (names and sizes) of the repository `id`.
pub open spec fn spec_listing_url(id: Seq<char>) -> Seq<char> {
    "https://huggingface.co/api/models/"@ + id + "?blobs=true"@
}

/// The request for the file listing (names and sizes) of the repository `id`.
pub fn listing_url(id: &str) -> (u: String)
    ensures
        u@ == spec_listing_url(id@),
{
    let mut u = "https://huggingface.co/api/models/".to_owned();
    push_str(&mut u, id);
    push_str(&mut u, "?blobs=true");
    u
}

/// Some string of `tags`, lowercased, contains `p`.
pub open spec fn any_tag_has(tags: Seq<Seq<char>>, p: Seq<char>) -> bool {
    exists|i: int| 0 <= i < tags.len() && seq_contains(spec_to_lowercase(#[trigger] tags[i]), p)
}

/// Whether some string of `tags`, lowercased, contains `p`.
fn any_tag_contains(tags: &Vec<String>, p: &str) -> (b: bool)
    ensures
        b == any_tag_has(string_views(tags@), p@),
{
    let mut i: usize = 0;
    while i < tags.len()
        invariant
            i <= tags.len(),
            forall|k: int|
                0 <= k < i ==> !seq_contains(spec_to_lowercase(#[trigger] string_views(tags@)[k]), p@),
        decreases tags.len() - i,
    {
        let l = to_lowercase(tags[i].as_str());
        if str_contains(l.as_str(), p) {
            assert(string_views(tags@)[i as int] == tags@[i as int]@);
            return true;
        }
        i = i + 1;
    }
    false
}

/// The kinds of input a model found by search takes: always text, and
/// vision or audio when a tag mentions it. (The tags are matched one by
/// one; a match in their debug listing, which only adds quotes, commas
/// and escapes between and inside them, is the same.)
pub open spec fn spec_modalities(tags: Seq<Seq<char>>) -> Seq<Seq<char>> {
    let m = seq!["text"@];
    let m = if any_tag_has(tags, "vision"@) {
        m.push("vision"@)
    } else {
        m
    };
    if any_tag_has(tags, "audio"@) {
        m.push("audio"@)
    } else {
        m
    }
}

/// The kinds of input a model with `tags` takes.
pub fn infer_modalities(tags: &Vec<String>) -> (r: Vec<String>)
    ensures
        string_views(r@) == spec_modalities(string_views(tags@)),
{
    let mut mods: Vec<String> = Vec::new();
    mods.push("text".to_owned());
    if any_tag_contains(tags, "vision") {
        mods.push("vision".to_owned());
    }
    if any_tag_contains(tags, "audio") {
        mods.push("audio".to_owned());
    }
    assert(string_views(mods@) =~= spec_modalities(string_views(tags@)));
    mods
}

/// A model found by search serves embeddings when a tag or its repository
/// name mentions "embed".
pub open spec fn spec_is_embed_model(tags: Seq<Seq<char>>, repo: Seq<char>) -> bool {
    any_tag_has(tags, "embed"@) || seq_contains(spec_to_lowercase(repo), "embed"@)
}

/// Whether a model found by search serves embeddings.
pub fn is_embed_model(tags: &Vec<String>, repo: &str) -> (b: bool)
    ensures
        b == spec_is_embed_model(string_views(tags@), repo@),
{
    any_tag_contains(tags, "embed") || str_contains(to_lowercase(repo).as_str(), "embed")
}

/// The index of the last `c` in `s`, or -1.
pub open spec fn last_index_of(s: Seq<char>, c: char) -> int
    decreases s.len(),
{
    if s.len() == 0 {
        -1
    } else if s.last() == c {
        s.len() - 1
    } else {
        last_index_of(s.drop_last(), c)
    }
}

/// The file a model's id suggests, for a repository whose listing shows no
/// GGUF file: the part of the id after the last `/`, then `-Q4_K_M.gguf`.
pub open spec fn spec_default_file(id: Seq<char>) -> Seq<char> {
    id.subrange(last_index_of(id, '/') + 1, id.len() as int) + "-Q4_K_M.gguf"@
}

/// Where the last `c` of `s` is.
proof fn lemma_last_index_bounds(s: Seq<char>, c: char)
    ensures
        -1 <= last_index_of(s, c) < s.len(),
        last_index_of(s, c) >= 0 ==> s[last_index_of(s, c)] == c,
        forall|k: int| last_index_of(s, c) < k < s.len() ==> s[k] != c,
    decreases s.len(),
{
    if s.len() > 0 && s.last() != c {
        lemma_last_index_bounds(s.drop_last(), c);
        assert forall|k: int| last_index_of(s, c) < k < s.len() implies s[k] != c by {
            if k < s.len() - 1 {
                assert(s.drop_last()[k] == s[k]);
            }
        }
    }
}

/// The file the id of a model found by search suggests.
pub fn guess_default_file(id: &str) -> (r: String)
    ensures
        r@ == spec_default_file(id@),
{
    let cs = crate::text::chars_of(id);
    let mut start: usize = cs.len();
    while start > 0 && cs[start - 1] != '/'
        invariant
            start <= cs.len(),
            cs@ == id@,
            forall|k: int| start <= k < cs.len() ==> cs@[k] != '/',
        decreases start,
    {
        start = start - 1;
    }
    proof {
        lemma_last_index_bounds(id@, '/');
        let li = last_index_of(id@, '/');
        if start > 0 {
            assert(cs@[start - 1] == '/');
            assert(li >= start - 1);
        }
        if li >= 0 {
            assert(li < start);
        }
        assert(li + 1 == start);
    }
    let mut r = crate::text::string_of_range(&cs, start, cs.len());
    push_str(&mut r, "-Q4_K_M.gguf");
    r
}

/// Whether a file name is that of a GGUF model file.
pub open spec fn is_gguf_name(name: Seq<char>) -> bool {
    seq_ends_with(name, ".gguf"@)
}

/// The files of a repository listing, as names and sizes in bytes.
pub open spec fn file_views(files: Seq<(String, u64)>) -> Seq<(Seq<char>, u64)> {
    files.map_values(|f: (String, u64)| (f.0@, f.1))
}

/// Where the largest GGUF file of a listing is: the first of the largest
/// when several share the size; `None` when the listing has no GGUF file.
pub open spec fn largest_gguf_index(files: Seq<(Seq<char>, u64)>) -> Option<int>
    decreases files.len(),
{
    if files.len() == 0 {
        None
    } else {
        let k = files.len() - 1;
        let best = largest_gguf_index(files.drop_last());
        if is_gguf_name(files[k].0) && match best {
            None => true,
            Some(b) => files[b].1 < files[k].1,
        } {
            Some(k)
        } else {
            best
        }
    }
}

/// The index found is that of a GGUF file no smaller than any other GGUF
/// file of the listing and larger than every GGUF file before it; there is
/// none exactly when the listing has no GGUF file.
pub proof fn lemma_largest_gguf_index(files: Seq<(Seq<char>, u64)>)
    ensures
        match largest_gguf_index(files) {
            None => forall|j: int| 0 <= j < files.len() ==> !is_gguf_name(#[trigger] files[j].0),
            Some(b) => {
                &&& 0 <= b < files.len()
                &&& is_gguf_name(files[b].0)
                &&& forall|j: int|
                    0 <= j < files.len() && is_gguf_name(#[trigger] files[j].0) ==> files[j].1
                        <= files[b].1
                &&& forall|j: int|
                    0 <= j < b && is_gguf_name(#[trigger] files[j].0) ==> files[j].1 < files[b].1
            },
        },
    decreases files.len(),
{
    if files.len() > 0 {
        let k = files.len() - 1;
        let init = files.drop_last();
        lemma_largest_gguf_index(init);
        assert forall|j: int| 0 <= j < init.len() implies #[trigger] init[j] == files[j] by {}
        match largest_gguf_index(init) {
            None => {
                assert forall|j: int| 0 <= j < k implies !is_gguf_name(#[trigger] files[j].0) by {
                    assert(init[j] == files[j]);
                }
            },
            Some(b) => {
                assert(init[b] == files[b]);
                assert forall|j: int|
                    0 <= j < k && is_gguf_name(#[trigger] files[j].0) implies files[j].1
                    <= files[b].1 by {
                    assert(init[j] == files[j]);
                }
                assert forall|j: int|
                    0 <= j < b && is_gguf_name(#[trigger] files[j].0) implies files[j].1
                    < files[b].1 by {
                    assert(init[j] == files[j]);
                }
            },
        }
    }
}

/// The largest GGUF file of a repository listing (names and sizes in
/// bytes), the first of them when several share the largest size; `None`
/// when the listing has no GGUF file.
pub fn largest_gguf(files: &Vec<(String, u64)>) -> (r: Option<String>)
    ensures
        match largest_gguf_index(file_views(files@)) {
            None => r is None,
            Some(b) => r matches Some(name) && name@ == files@[b].0@,
        },
{
    let ghost fv = file_views(files@);
    let suffix = crate::text::chars_of(".gguf");
    let mut best: Option<usize> = None;
    let mut i: usize = 0;
    while i < files.len()
        invariant
            i <= files.len(),
            fv == file_views(files@),
            suffix@ == ".gguf"@,
            match best {
                None => largest_gguf_index(fv.take(i as int)) is None,
                Some(b) => largest_gguf_index(fv.take(i as int)) == Some(b as int) && b < i,
            },
        decreases files.len() - i,
    {
        let ghost pre = fv.take(i as int);
        let ghost next = fv.take(i + 1);
        assert(next.drop_last() =~= pre);
        assert(next[i as int] == fv[i as int]);
        let name = crate::text::chars_of(files[i].0.as_str());
        let gguf = crate::text::ends_with_vec(&name, &suffix);
        let better = match best {
            None => true,
            Some(b) => {
                assert(next[b as int] == fv[b as int]);
                files[b].1 < files[i].1
            },
        };
        if gguf && better {
            best = Some(i);
        }
        i = i + 1;
    }
    assert(fv.take(files.len() as int) =~= fv);
    match best {
        None => None,
        Some(b) => Some(files[b].0.clone()),
    }
}

/// The file a model found by search is offered by default: the largest
/// GGUF file of its repository's listing, or, when the listing has none
/// (or could not be had), the file its id suggests.
pub open spec fn spec_pick_default_file(id: Seq<char>, files: Seq<(Seq<char>, u64)>) -> Seq<char> {
    match largest_gguf_index(files) {
        Some(b) => files[b].0,
        None => spec_default_file(id),
    }
}

/// The default file of the model `id` whose repository lists `files`.
pub fn pick_default_file(id: &str, files: &Vec<(String, u64)>) -> (r: String)
    ensures
        r@ == spec_pick_default_file(id@, file_views(files@)),
{
    let ghost fv = file_views(files@);
    match largest_gguf(files) {
        Some(name) => {
            proof {
                let b = largest_gguf_index(fv).unwrap();
                lemma_largest_gguf_index(fv);
                assert(fv[b].0 == files@[b].0@);
            }
            name
        },
        None => guess_default_file(id),
    }
}

/// The size assumed for a model found by search: half a gibibyte for an
/// embedding model (a tag mentions "embedding"), four gibibytes otherwise.
pub open spec fn spec_estimated_size(tags: Seq<Seq<char>>) -> u64 {
    if any_tag_has(tags, "embedding"@) {
        536870912
    } else {
        4294967296
    }
}

/// The size in bytes assumed for a model found by search.
pub fn estimated_size_bytes(tags: &Vec<String>) -> (n: u64)
    ensures
        n == spec_estimated_size(string_views(tags@)),
{
    if any_tag_contains(tags, "embedding") {
        536870912
    } else {
        4294967296
    }
}

} // verus!
