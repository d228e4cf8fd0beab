//! Downloading a model file: where it comes from, the events it reports,
//! and how its checksum is checked.
use vstd::prelude::*;

use sha2::{Digest, Sha256};

use crate::text::{
    push_str, spec_hex_lower, spec_to_lowercase, str_eq, to_hex_lower, to_lowercase,
};

verus! {

// ---------------------------------------------------------------------------
// SHA-256
// ---------------------------------------------------------------------------

/// A SHA-256 hasher of the `sha2` crate, seen from outside only through
/// the bytes it has been fed.
#[verifier::external_body]
pub struct Sha256Hasher {
    inner: Sha256,
}

/// The bytes fed to a hasher since it was made.
pub uninterp spec fn spec_sha256_input(h: Sha256Hasher) -> Seq<u8>;

/// The SHA-256 digest of `data`.
pub uninterp spec fn spec_sha256(data: Seq<u8>) -> Seq<u8>;

/// Calls `Sha256::new`: a hasher that has been fed nothing.
#[verifier::external_body]
fn sha256_new() -> (h: Sha256Hasher)
    ensures
        spec_sha256_input(h) == Seq::<u8>::empty(),
{
    Sha256Hasher { inner: Sha256::new() }
}

/// Calls `Digest::update`, which feeds `data` after what came before.
#[verifier::external_body]
fn sha256_update(h: &mut Sha256Hasher, data: &[u8])
    ensures
        spec_sha256_input(*final(h)) == spec_sha256_input(*old(h)) + data@,
{
    h.inner.update(data);
}

/// Calls `Digest::finalize`: the 32-byte digest of all that was fed.
#[verifier::external_body]
fn sha256_finalize(h: Sha256Hasher) -> (d: Vec<u8>)
    ensures
        d@ == spec_sha256(spec_sha256_input(h)),
        d@.len() == 32,
{
    h.inner.finalize().to_vec()
}

// ---------------------------------------------------------------------------
// A download
// ---------------------------------------------------------------------------

/// What a download reports, in order.
#[derive(Debug, Clone, PartialEq, Eq)]
pub enum DownloadEvent {
    Started { url: String, total_bytes: u64 },
    Progress { downloaded: u64, total_bytes: u64 },
    Verified { sha256: String },
    Finished { path: String },
    Error { message: String },
}

/// Where a file of a Hugging Face repository is downloaded from.
pub open spec fn spec_download_url(repo: Seq<char>, filename: Seq<char>) -> Seq<char> {
    "https://huggingface.co/"@ + repo + "/resolve/main/"@ + filename
}

/// Where the file `filename` of the Hugging Face repository `repo` is
/// downloaded from.
pub fn download_url(repo: &str, filename: &str) -> (u: String)
    ensures
        u@ == spec_download_url(repo@, filename@),
{
    let mut u = "https://huggingface.co/".to_owned();
    push_str(&mut u, repo);
    push_str(&mut u, "/resolve/main/");
    push_str(&mut u, filename);
    u
}

/// A path separator: `/`, or `\` as on Windows.
pub open spec fn is_separator(c: char) -> bool {
    c == '/' || c == '\\'
}

/// Where the last separator of `s` is, -1 when there is none.
pub open spec fn last_separator(s: Seq<char>) -> int
    decreases s.len(),
{
    if s.len() == 0 {
        -1
    } else if is_separator(s.last()) {
        s.len() - 1
    } else {
        last_separator(s.drop_last())
    }
}

/// Where the last separator of `s` is: after it, no separator.
proof fn lemma_last_separator(s: Seq<char>)
    ensures
        -1 <= last_separator(s) < s.len(),
        last_separator(s) >= 0 ==> is_separator(s[last_separator(s)]),
        forall|k: int| last_separator(s) < k < s.len() ==> !is_separator(#[trigger] s[k]),
    decreases s.len(),
{
    if s.len() > 0 && !is_separator(s.last()) {
        lemma_last_separator(s.drop_last());
        assert forall|k: int| last_separator(s) < k < s.len() implies !is_separator(#[trigger] s[k]) by {
            if k < s.len() - 1 {
                assert(s.drop_last()[k] == s[k]);
            }
        }
    }
}

/// The final component of the path `name`, as the file it names in the
/// models directory: empty components and `.` are passed over; there is
/// none when nothing else is left, or when the final component is `..`.
pub open spec fn spec_final_component(name: Seq<char>) -> Option<Seq<char>>
    decreases name.len(),
{
    let i = last_separator(name);
    let tail = name.subrange(i + 1, name.len() as int);
    if tail.len() == 0 || tail == seq!['.'] {
        if i < 0 || i >= name.len() {
            None
        } else {
            spec_final_component(name.subrange(0, i))
        }
    } else if tail == seq!['.', '.'] {
        None
    } else {
        Some(tail)
    }
}

/// The name under which the requested file `filename` is stored in the
/// models directory: only its final component is kept, so that a name
/// cannot leave that directory; `None` when it names no file there. A name
/// with no component left (such as `""`, `"."` or `"./"`) names no file and
/// is refused, rather than being taken, once joined to the models
/// directory, as that directory's own name.
pub fn destination_name(filename: &str) -> (r: Option<String>)
    ensures
        match spec_final_component(filename@) {
            None => r is None,
            Some(t) => r matches Some(n) && n@ == t,
        },
{
    let cs = crate::text::chars_of(filename);
    let mut end: usize = cs.len();
    assert(cs@.take(end as int) =~= filename@);
    loop
        invariant
            end <= cs.len(),
            cs@ == filename@,
            spec_final_component(cs@.take(end as int)) == spec_final_component(filename@),
        decreases end,
    {
        let ghost s = cs@.take(end as int);
        let mut start: usize = end;
        while start > 0 && cs[start - 1] != '/' && cs[start - 1] != '\\'
            invariant
                start <= end <= cs.len(),
                forall|k: int| start <= k < end ==> !is_separator(#[trigger] cs@[k]),
            decreases start,
        {
            start = start - 1;
        }
        proof {
            lemma_last_separator(s);
            let li = last_separator(s);
            if start > 0 {
                assert(s[start - 1] == cs@[start - 1]);
                assert(li >= start - 1);
            }
            if li >= 0 {
                assert(s[li] == cs@[li]);
                assert(li < start);
            }
            assert(li + 1 == start);
            assert(s.subrange(start as int, end as int) =~= cs@.subrange(start as int, end as int));
        }
        let len = end - start;
        let dot = len == 1 && cs[start] == '.';
        if len == 0 || dot {
            assert(len == 0 || s.subrange(start as int, end as int) =~= seq!['.']);
            if start == 0 {
                return None;
            }
            assert(s.subrange(0, start - 1) =~= cs@.take(start - 1));
            end = start - 1;
        } else {
            if len == 2 && cs[start] == '.' && cs[start + 1] == '.' {
                assert(s.subrange(start as int, end as int) =~= seq!['.', '.']);
                return None;
            }
            proof {
                if s.subrange(start as int, end as int) == seq!['.', '.'] {
                    assert(s.subrange(start as int, end as int)[0] == cs@[start as int]);
                    assert(s.subrange(start as int, end as int)[1] == cs@[start + 1]);
                }
                if s.subrange(start as int, end as int) == seq!['.'] {
                    assert(s.subrange(start as int, end as int)[0] == cs@[start as int]);
                }
            }
            return Some(crate::text::string_of_range(&cs, start, end));
        }
    }
}

/// A download under way: the bytes received so far, hashed as they come,
/// their count, and the size the server announced (0 when unknown).
pub struct DownloadSession {
    hasher: Sha256Hasher,
    downloaded: u64,
    total: u64,
}

/// The message of a download whose checksum does not match.
pub open spec fn mismatch_message() -> Seq<char> {
    "SHA256 mismatch \u{2014} file removed"@
}

impl DownloadSession {
    /// The bytes received so far.
    pub closed spec fn received(&self) -> Seq<u8> {
        spec_sha256_input(self.hasher)
    }

    /// The size the server announced, 0 when unknown.
    pub closed spec fn total(&self) -> u64 {
        self.total
    }

    /// The count of bytes received is the number of bytes hashed.
    pub closed spec fn wf(&self) -> bool {
        self.downloaded == spec_sha256_input(self.hasher).len()
    }

    /// Start a download of `url` whose server announced `total` bytes, and
    /// the event that reports the start.
    pub fn start(url: String, total: u64) -> (r: (DownloadSession, DownloadEvent))
        ensures
            r.0.wf(),
            r.0.received() == Seq::<u8>::empty(),
            r.0.total() == total,
            r.1 == (DownloadEvent::Started { url, total_bytes: total }),
    {
        let s = DownloadSession { hasher: sha256_new(), downloaded: 0, total };
        (s, DownloadEvent::Started { url, total_bytes: total })
    }

    /// Take in the next piece of the file; a progress event with the count
    /// received so far when the size is known.
    pub fn feed(&mut self, chunk: &[u8]) -> (e: Option<DownloadEvent>)
        requires
            old(self).wf(),
            old(self).received().len() + chunk@.len() <= u64::MAX,
        ensures
            final(self).wf(),
            final(self).received() == old(self).received() + chunk@,
            final(self).total() == old(self).total(),
            e == if old(self).total() > 0 {
                Some(
                    DownloadEvent::Progress {
                        downloaded: final(self).received().len() as u64,
                        total_bytes: old(self).total(),
                    },
                )
            } else {
                None::<DownloadEvent>
            },
    {
        sha256_update(&mut self.hasher, chunk);
        self.downloaded = self.downloaded + chunk.len() as u64;
        if self.total > 0 {
            Some(DownloadEvent::Progress { downloaded: self.downloaded, total_bytes: self.total })
        } else {
            None
        }
    }

    /// End the download stored at `path`: with the checksum of what was
    /// received, the `Verified` and `Finished` events; or the error event
    /// when an expected checksum was given (compared without regard to
    /// case) and does not match, in which case the file is to be removed.
    pub fn finish(self, expected: Option<&str>, path: String) -> (r: Result<
        (DownloadEvent, DownloadEvent),
        DownloadEvent,
    >)
        ensures
            ({
                let sha = spec_hex_lower(spec_sha256(self.received()));
                match expected {
                    Some(x) if spec_to_lowercase(x@) != sha => r matches Err(
                        DownloadEvent::Error { message },
                    ) && message@ == mismatch_message(),
                    _ => r matches Ok((DownloadEvent::Verified { sha256 }, f)) && sha256@ == sha
                        && f == (DownloadEvent::Finished { path }),
                }
            }),
    {
        let digest = sha256_finalize(self.hasher);
        let sha = to_hex_lower(digest.as_slice());
        if let Some(x) = expected {
            let lx = to_lowercase(x);
            if !str_eq(lx.as_str(), sha.as_str()) {
                return Err(DownloadEvent::Error { message: "SHA256 mismatch \u{2014} file removed".to_owned() });
            }
        }
        Ok((DownloadEvent::Verified { sha256: sha }, DownloadEvent::Finished { path }))
    }
}

} // verus!
