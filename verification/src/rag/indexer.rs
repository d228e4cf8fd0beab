//! The indexing engine: job control, which files a run covers, how deep each
//! file is indexed, and the progress reports of a run.
use vstd::prelude::*;

use crate::chat::ChatMessage;
use crate::rag::parse::{
    chunk_by_level, extract_entities, is_blank, spec_chunk_by_level,
    spec_extract_entities, Level,
};
use crate::rag::{message_views, rag_messages, spec_rag_messages};
use crate::text::{
    chars_of, join, join_strings, lemma_lex_le_order, lex_le, lex_le_vec, nat_decimal,
    opt_string_view, push_decimal, push_str, string_of, string_views, trim, trimmed,
};

verus! {

broadcast use vstd::seq_lib::group_to_multiset_ensures;

// ---------------------------------------------------------------------------
// Which files a run covers
// ---------------------------------------------------------------------------

/// A file comes after the resume cursor (every file does when there is none).
pub open spec fn after_cursor(f: Seq<char>, cursor: Option<Seq<char>>) -> bool {
    match cursor {
        None => true,
        Some(c) => !lex_le(f, c),
    }
}

/// The paths are in ascending order.
pub open spec fn sorted_lex(s: Seq<Seq<char>>) -> bool {
    forall|i: int, j: int| 0 <= i < j < s.len() ==> lex_le(#[trigger] s[i], #[trigger] s[j])
}

/// The files a run indexes, in path order: all of them on a fresh run, and
/// when resuming, those that come after the cursor (the last file indexed),
/// so that every file up to and including the cursor is skipped.
pub fn files_to_index(files: Vec<String>, cursor: Option<String>) -> (r: Vec<String>)
    ensures
        sorted_lex(string_views(r@)),
        string_views(r@).to_multiset() == string_views(files@).filter(
            |f: Seq<char>| after_cursor(f, opt_string_view(cursor)),
        ).to_multiset(),
{
    let ghost cur = opt_string_view(cursor);
    let ghost p = |f: Seq<char>| after_cursor(f, cur);
    let ghost fv = string_views(files@);
    let cv: Option<Vec<char>> = match &cursor {
        Some(c) => Some(chars_of(c.as_str())),
        None => None,
    };
    let mut out: Vec<String> = Vec::new();
    let mut i: usize = 0;
    assert(fv.take(0).filter(p) =~= Seq::<Seq<char>>::empty());
    assert(string_views(out@) =~= Seq::<Seq<char>>::empty());
    while i < files.len()
        invariant
            i <= files.len(),
            fv == string_views(files@),
            cur == opt_string_view(cursor),
            p == (|f: Seq<char>| after_cursor(f, cur)),
            match cv {
                Some(v) => cur == Some(v@),
                None => cur is None,
            },
            sorted_lex(string_views(out@)),
            string_views(out@).to_multiset() == fv.take(i as int).filter(p).to_multiset(),
        decreases files.len() - i,
    {
        let f = &files[i];
        let fc = chars_of(f.as_str());
        assert(fv[i as int] == fc@);
        assert(fv.take(i + 1) =~= fv.take(i as int).push(fv[i as int]));
        proof {
            fv.take(i as int).lemma_filter_push(fv[i as int], p);
        }
        let keep = match &cv {
            Some(c) => !lex_le_vec(&fc, c),
            None => true,
        };
        if keep {
            let ghost ov = string_views(out@);
            let mut pos: usize = 0;
            while pos < out.len()
                invariant
                    pos <= out.len(),
                    ov == string_views(out@),
                    forall|k: int| 0 <= k < pos ==> !lex_le(fc@, #[trigger] ov[k]),
                ensures
                    pos <= out.len(),
                    forall|k: int| 0 <= k < pos ==> !lex_le(fc@, #[trigger] ov[k]),
                    pos < out.len() ==> lex_le(fc@, ov[pos as int]),
                decreases out.len() - pos,
            {
                let oc = chars_of(out[pos].as_str());
                if lex_le_vec(&fc, &oc) {
                    break;
                }
                pos = pos + 1;
            }
            out.insert(pos, f.clone());
            proof {
                let nv = string_views(out@);
                assert(nv =~= ov.insert(pos as int, fc@));
                assert forall|a: int, b: int| 0 <= a < b < nv.len() implies lex_le(
                    #[trigger] nv[a],
                    #[trigger] nv[b],
                ) by {
                    if a < pos && b < pos {
                        assert(lex_le(ov[a], ov[b]));
                    } else if a < pos && b == pos {
                        lemma_lex_le_order(fc@, ov[a], fc@);
                    } else if a < pos && b > pos {
                        lemma_lex_le_order(ov[a], ov[b - 1], fc@);
                        assert(lex_le(ov[a], ov[b - 1]));
                    } else if a == pos {
                        if b - 1 > pos {
                            assert(lex_le(ov[pos as int], ov[b - 1]));
                        }
                        lemma_lex_le_order(fc@, ov[pos as int], ov[b - 1]);
                    } else {
                        assert(lex_le(ov[a - 1], ov[b - 1]));
                    }
                }
                vstd::seq_lib::to_multiset_insert(ov, pos as int, fc@);
            }
        }
        i = i + 1;
    }
    assert(fv.take(files@.len() as int) =~= fv);
    out
}

} // verus!

verus! {

// ---------------------------------------------------------------------------
// Job control
// ---------------------------------------------------------------------------

/// The controls of one running indexing job.
#[derive(Debug)]
pub struct JobControl {
    pub library_id: String,
    pub paused: bool,
    pub canceled: bool,
}

/// The running indexing jobs, one per library.
pub struct IndexerState {
    jobs: Vec<JobControl>,
}

/// The index of the first job of `lib` among `jobs`, or `jobs.len()`.
pub open spec fn find_job(jobs: Seq<JobControl>, lib: Seq<char>, from: int) -> int
    decreases jobs.len() - from,
{
    if from < 0 || from >= jobs.len() {
        jobs.len() as int
    } else if jobs[from].library_id@ == lib {
        from
    } else {
        find_job(jobs, lib, from + 1)
    }
}

/// Where the next job of `lib` can be.
pub proof fn lemma_find_job_bounds(jobs: Seq<JobControl>, lib: Seq<char>, from: int)
    requires
        0 <= from <= jobs.len(),
    ensures
        from <= find_job(jobs, lib, from) <= jobs.len(),
        find_job(jobs, lib, from) < jobs.len() ==> jobs[find_job(jobs, lib, from)].library_id@
            == lib,
        forall|k: int| from <= k < find_job(jobs, lib, from) ==> jobs[k].library_id@ != lib,
    decreases jobs.len() - from,
{
    if from < jobs.len() && jobs[from].library_id@ != lib {
        lemma_find_job_bounds(jobs, lib, from + 1);
    }
}

/// The controls `(paused, canceled)` of the job of `lib`, if one runs.
pub open spec fn job_of(jobs: Seq<JobControl>, lib: Seq<char>) -> Option<(bool, bool)> {
    let i = find_job(jobs, lib, 0);
    if i < jobs.len() {
        Some((jobs[i].paused, jobs[i].canceled))
    } else {
        None
    }
}

/// The message of a control request for a library without a running job.
pub open spec fn no_job_message(lib: Seq<char>) -> Seq<char> {
    "no active job for '"@ + lib + "'"@
}

impl IndexerState {
    /// The controls of every running job, by library.
    pub closed spec fn job(&self, lib: Seq<char>) -> Option<(bool, bool)> {
        job_of(self.jobs@, lib)
    }

    /// No job runs yet.
    pub fn new() -> (s: IndexerState)
        ensures
            forall|lib: Seq<char>| s.job(lib) is None,
    {
        IndexerState { jobs: Vec::new() }
    }

    /// The index of the job of `lib`, or the number of jobs.
    fn position(&self, lib: &str) -> (i: usize)
        ensures
            i == find_job(self.jobs@, lib@, 0),
            i <= self.jobs.len(),
    {
        proof {
            lemma_find_job_bounds(self.jobs@, lib@, 0);
        }
        let mut i: usize = 0;
        while i < self.jobs.len() && !crate::text::str_eq(self.jobs[i].library_id.as_str(), lib)
            invariant
                i <= self.jobs.len(),
                find_job(self.jobs@, lib@, 0) == find_job(self.jobs@, lib@, i as int),
            decreases self.jobs.len() - i,
        {
            i = i + 1;
        }
        i
    }

    /// Start controlling a job for `lib`, running and not canceled; it takes
    /// the place of an earlier job of the same library.
    pub fn start_job(&mut self, lib: &str)
        ensures
            final(self).job(lib@) == Some((false, false)),
            forall|other: Seq<char>| other != lib@ ==> final(self).job(other) == old(self).job(other),
    {
        let i = self.position(lib);
        let entry = JobControl { library_id: lib.to_owned(), paused: false, canceled: false };
        let ghost old_jobs = self.jobs@;
        proof {
            lemma_find_job_bounds(old_jobs, lib@, 0);
        }
        if i < self.jobs.len() {
            self.jobs.set(i, entry);
            proof {
                assert forall|other: Seq<char>| #[trigger] job_of(self.jobs@, other) == (if other == lib@ {
                    Some((false, false))
                } else {
                    job_of(old_jobs, other)
                }) by {
                    lemma_find_job_update(old_jobs, i as int, entry, other, 0);
                    lemma_find_job_bounds(old_jobs, other, 0);
                }
            }
        } else {
            self.jobs.push(entry);
            proof {
                assert forall|other: Seq<char>| #[trigger] job_of(self.jobs@, other) == (if other == lib@ {
                    Some((false, false))
                } else {
                    job_of(old_jobs, other)
                }) by {
                    lemma_find_job_push(old_jobs, entry, other, 0);
                    lemma_find_job_bounds(old_jobs, other, 0);
                }
            }
        }
    }

    /// Set the pause flag of the job of `lib`; an error when none runs.
    pub fn set_paused(&mut self, lib: &str, paused: bool) -> (r: Result<(), String>)
        ensures
            match old(self).job(lib@) {
                Some((_, c)) => r is Ok && final(self).job(lib@) == Some((paused, c)),
                None => r matches Err(m) && m@ == no_job_message(lib@) && final(self).job(lib@)
                    is None,
            },
            forall|other: Seq<char>| other != lib@ ==> final(self).job(other) == old(self).job(other),
    {
        self.update(lib, Some(paused), false)
    }

    /// Cancel the job of `lib`; an error when none runs.
    pub fn cancel(&mut self, lib: &str) -> (r: Result<(), String>)
        ensures
            match old(self).job(lib@) {
                Some((p, _)) => r is Ok && final(self).job(lib@) == Some((p, true)),
                None => r matches Err(m) && m@ == no_job_message(lib@) && final(self).job(lib@)
                    is None,
            },
            forall|other: Seq<char>| other != lib@ ==> final(self).job(other) == old(self).job(other),
    {
        self.update(lib, None, true)
    }

    /// Set the pause flag (when `paused` is given) or the cancel flag of the
    /// job of `lib`.
    fn update(&mut self, lib: &str, paused: Option<bool>, cancel: bool) -> (r: Result<(), String>)
        ensures
            match old(self).job(lib@) {
                Some((p, c)) => r is Ok && final(self).job(lib@) == Some(
                    (
                        match paused {
                            Some(q) => q,
                            None => p,
                        },
                        c || cancel,
                    ),
                ),
                None => r matches Err(m) && m@ == no_job_message(lib@) && final(self).job(lib@)
                    is None,
            },
            forall|other: Seq<char>| other != lib@ ==> final(self).job(other) == old(self).job(other),
    {
        let i = self.position(lib);
        let ghost old_jobs = self.jobs@;
        proof {
            lemma_find_job_bounds(old_jobs, lib@, 0);
        }
        if i >= self.jobs.len() {
            let mut m = "no active job for '".to_owned();
            push_str(&mut m, lib);
            push_str(&mut m, "'");
            return Err(m);
        }
        let old_entry = &self.jobs[i];
        let entry = JobControl {
            library_id: old_entry.library_id.clone(),
            paused: match paused {
                Some(q) => q,
                None => old_entry.paused,
            },
            canceled: old_entry.canceled || cancel,
        };
        self.jobs.set(i, entry);
        proof {
            assert forall|other: Seq<char>| #[trigger] job_of(self.jobs@, other) == (if other
                == lib@ {
                Some((entry.paused, entry.canceled))
            } else {
                job_of(old_jobs, other)
            }) by {
                lemma_find_job_update(old_jobs, i as int, entry, other, 0);
                lemma_find_job_bounds(old_jobs, other, 0);
            }
        }
        Ok(())
    }

    /// Stop controlling the job of `lib` (it finished or was canceled).
    pub fn remove_job(&mut self, lib: &str)
        ensures
            final(self).job(lib@) is None,
            forall|other: Seq<char>| other != lib@ ==> final(self).job(other) == old(self).job(other),
    {
        let mut kept: Vec<JobControl> = Vec::new();
        let mut i: usize = 0;
        let ghost old_jobs = self.jobs@;
        while i < self.jobs.len()
            invariant
                i <= self.jobs.len(),
                self.jobs@ == old_jobs,
                forall|k: int| 0 <= k < kept.len() ==> kept@[k].library_id@ != lib@,
                forall|other: Seq<char>|
                    other != lib@ ==> #[trigger] job_of(kept@, other) == job_of(
                        old_jobs.take(i as int),
                        other,
                    ),
            decreases self.jobs.len() - i,
        {
            let ghost prev = kept@;
            let ghost t = old_jobs.take(i as int);
            let e = &self.jobs[i];
            let skip = crate::text::str_eq(e.library_id.as_str(), lib);
            if !skip {
                kept.push(
                    JobControl {
                        library_id: e.library_id.clone(),
                        paused: e.paused,
                        canceled: e.canceled,
                    },
                );
            }
            proof {
                let x = old_jobs[i as int];
                assert(old_jobs.take(i + 1) =~= t.push(x));
                if !skip {
                    assert(kept@ =~= prev.push(x));
                }
                assert forall|other: Seq<char>| other != lib@ implies #[trigger] job_of(kept@, other)
                    == job_of(old_jobs.take(i + 1), other) by {
                    assert(job_of(prev, other) == job_of(t, other));
                    lemma_find_job_push(prev, x, other, 0);
                    lemma_find_job_push(t, x, other, 0);
                    lemma_find_job_bounds(prev, other, 0);
                    lemma_find_job_bounds(t, other, 0);
                }
            }
            i = i + 1;
        }
        proof {
            assert(old_jobs.take(old_jobs.len() as int) =~= old_jobs);
            lemma_find_job_bounds(kept@, lib@, 0);
        }
        self.jobs = kept;
    }

    /// Whether the job of `lib` is paused.
    pub fn is_paused(&self, lib: &str) -> (b: bool)
        ensures
            b == (self.job(lib@) matches Some((p, _)) && p),
    {
        let i = self.position(lib);
        i < self.jobs.len() && self.jobs[i].paused
    }

    /// Whether the job of `lib` was canceled.
    pub fn is_canceled(&self, lib: &str) -> (b: bool)
        ensures
            b == (self.job(lib@) matches Some((_, c)) && c),
    {
        let i = self.position(lib);
        i < self.jobs.len() && self.jobs[i].canceled
    }
}

/// Where the first job of `lib` is after one more job is added at the end.
proof fn lemma_find_job_push(s: Seq<JobControl>, x: JobControl, lib: Seq<char>, from: int)
    requires
        0 <= from <= s.len(),
    ensures
        find_job(s.push(x), lib, from) == if find_job(s, lib, from) < s.len() {
            find_job(s, lib, from)
        } else if x.library_id@ == lib {
            s.len() as int
        } else {
            s.len() + 1int
        },
    decreases s.len() - from,
{
    if from < s.len() {
        assert(s.push(x)[from] == s[from]);
        lemma_find_job_push(s, x, lib, from + 1);
    } else {
        assert(s.push(x)[from] == x);
        assert(find_job(s.push(x), lib, from + 1) == s.len() + 1);
    }
}

/// Replacing a job by one of the same library moves no job's position.
proof fn lemma_find_job_update(s: Seq<JobControl>, i: int, x: JobControl, lib: Seq<char>, from: int)
    requires
        0 <= i < s.len(),
        0 <= from <= s.len(),
        x.library_id@ == s[i].library_id@,
    ensures
        find_job(s.update(i, x), lib, from) == find_job(s, lib, from),
    decreases s.len() - from,
{
    if from < s.len() {
        assert(s.update(i, x)[from].library_id@ == s[from].library_id@);
        lemma_find_job_update(s, i, x, lib, from + 1);
    }
}

} // verus!

verus! {

// ---------------------------------------------------------------------------
// Progress of a run
// ---------------------------------------------------------------------------

/// A progress report of an indexing run.
#[derive(Debug, Clone)]
pub struct IndexProgress {
    pub library_id: String,
    pub total: usize,
    pub processed: usize,
    pub current_file: String,
    pub level: u8,
    pub status: String,
    pub message: String,
}

/// One indexing run: its library, the number of files it covers, how many
/// of them were indexed so far, and the depth level.
#[derive(Debug)]
pub struct IndexRun {
    pub library_id: String,
    pub total: usize,
    pub processed: usize,
    pub level: u8,
}

/// `p` reports on run `r` with the given file, status and message.
pub open spec fn reports(
    p: IndexProgress,
    r: IndexRun,
    file: Seq<char>,
    status: Seq<char>,
    message: Seq<char>,
) -> bool {
    &&& p.library_id@ == r.library_id@
    &&& p.total == r.total
    &&& p.processed == r.processed
    &&& p.level == r.level
    &&& p.current_file@ == file
    &&& p.status@ == status
    &&& p.message@ == message
}

/// What a run does next, given its job's controls.
#[derive(Debug, Clone, Copy, PartialEq, Eq)]
pub enum RunControl {
    /// Report the run as canceled and stop.
    Cancel,
    /// Stop without a further report (canceled while paused).
    Abort,
    /// Report the run as paused and wait.
    Wait,
    /// Index the next file.
    Go,
}

/// What a run does next: a cancel wins (reported before a file, silent
/// while waiting in a pause), then a pause, otherwise the run goes on.
pub open spec fn spec_next_control(paused: bool, canceled: bool, waiting: bool) -> RunControl {
    if canceled {
        if waiting {
            RunControl::Abort
        } else {
            RunControl::Cancel
        }
    } else if paused {
        RunControl::Wait
    } else {
        RunControl::Go
    }
}

/// What a run does next, before a file (`waiting` false) or after a pause
/// interval (`waiting` true).
pub fn next_control(paused: bool, canceled: bool, waiting: bool) -> (c: RunControl)
    ensures
        c == spec_next_control(paused, canceled, waiting),
{
    if canceled {
        if waiting {
            RunControl::Abort
        } else {
            RunControl::Cancel
        }
    } else if paused {
        RunControl::Wait
    } else {
        RunControl::Go
    }
}

/// The message of a file that was indexed into `chunks` chunks at `level`.
pub open spec fn file_done_message(file: Seq<char>, chunks: nat, level: u8) -> Seq<char> {
    file + ": "@ + nat_decimal(chunks) + " chunks @ L"@ + nat_decimal(level as nat)
}

/// The message at the end of a run.
pub open spec fn run_done_message(processed: nat, total: nat) -> Seq<char> {
    "Indexed "@ + nat_decimal(processed) + "/"@ + nat_decimal(total) + " files"@
}

impl IndexRun {
    /// A run never counts more files indexed than it covers.
    pub open spec fn wf(&self) -> bool {
        self.processed <= self.total
    }

    /// A run of `total` files into `library_id` at `level`, none indexed yet.
    pub fn new(library_id: String, total: usize, level: u8) -> (r: IndexRun)
        ensures
            r.wf(),
            r.library_id == library_id,
            r.total == total,
            r.processed == 0,
            r.level == level,
    {
        IndexRun { library_id, total, processed: 0, level }
    }

    /// A report of this run.
    fn report(&self, file: &str, status: &str, message: String) -> (p: IndexProgress)
        ensures
            reports(p, *self, file@, status@, message@),
    {
        IndexProgress {
            library_id: self.library_id.clone(),
            total: self.total,
            processed: self.processed,
            current_file: file.to_owned(),
            level: self.level,
            status: status.to_owned(),
            message,
        }
    }

    /// The report of a canceled run.
    pub fn canceled(&self) -> (p: IndexProgress)
        ensures
            reports(p, *self, seq![], "canceled"@, "Job canceled"@),
    {
        proof {
            reveal_strlit("");
            assert(""@ =~= Seq::<char>::empty());
        }
        self.report("", "canceled", "Job canceled".to_owned())
    }

    /// The report of a paused run.
    pub fn paused(&self) -> (p: IndexProgress)
        ensures
            reports(p, *self, seq![], "paused"@, "Paused"@),
    {
        proof {
            reveal_strlit("");
            assert(""@ =~= Seq::<char>::empty());
        }
        self.report("", "paused", "Paused".to_owned())
    }

    /// The report that the file `file` is being indexed.
    pub fn indexing(&self, file: &str) -> (p: IndexProgress)
        ensures
            reports(p, *self, file@, "running"@, "Indexing "@ + file@),
    {
        let mut m = "Indexing ".to_owned();
        push_str(&mut m, file);
        self.report(file, "running", m)
    }

    /// Count the file `file` as indexed into `chunks` chunks, and report it;
    /// each of the run's files is counted at most once, so some file was not
    /// counted yet.
    pub fn file_indexed(&mut self, file: &str, chunks: usize) -> (p: IndexProgress)
        requires
            old(self).processed < old(self).total,
        ensures
            *final(self) == (IndexRun { processed: (old(self).processed + 1) as usize, ..*old(self) }),
            old(self).processed < final(self).processed <= final(self).total,
            reports(p, *final(self), file@, "running"@, file_done_message(file@, chunks as nat, old(self).level)),
    {
        self.processed = self.processed + 1;
        let mut m = file.to_owned();
        push_str(&mut m, ": ");
        push_decimal(&mut m, chunks as u64);
        push_str(&mut m, " chunks @ L");
        push_decimal(&mut m, self.level as u64);
        assert(m@ =~= file_done_message(file@, chunks as nat, self.level));
        self.report(file, "running", m)
    }

    /// The report at the end of the run.
    pub fn done(&self) -> (p: IndexProgress)
        ensures
            reports(p, *self, seq![], "done"@, run_done_message(self.processed as nat, self.total as nat)),
    {
        let mut m = "Indexed ".to_owned();
        push_decimal(&mut m, self.processed as u64);
        push_str(&mut m, "/");
        push_decimal(&mut m, self.total as u64);
        push_str(&mut m, " files");
        assert(m@ =~= run_done_message(self.processed as nat, self.total as nat));
        proof {
            reveal_strlit("");
            assert(""@ =~= Seq::<char>::empty());
        }
        self.report("", "done", m)
    }
}

/// The depth a run uses: the requested level, 4 when none is given, kept
/// between 1 and 5.
pub open spec fn spec_index_level(level: Option<u8>) -> u8 {
    let l = match level {
        Some(l) => l,
        None => 4u8,
    };
    if l < 1 {
        1
    } else if l > 5 {
        5
    } else {
        l
    }
}

/// The depth a run uses for the requested level.
pub fn index_level(level: Option<u8>) -> (l: u8)
    ensures
        l == spec_index_level(level),
        1 <= l <= 5,
{
    let l = match level {
        Some(l) => l,
        None => 4,
    };
    if l < 1 {
        1
    } else if l > 5 {
        5
    } else {
        l
    }
}

/// The answer to a request that started a run.
pub open spec fn spec_start_message(total: nat, lib: Seq<char>, level: u8) -> Seq<char> {
    "Started indexing "@ + nat_decimal(total) + " files into '"@ + lib + "' at level "@
        + nat_decimal(level as nat)
}

/// The answer to a request that started a run of `total` files.
pub fn start_message(total: usize, lib: &str, level: u8) -> (m: String)
    ensures
        m@ == spec_start_message(total as nat, lib@, level),
{
    let mut m = "Started indexing ".to_owned();
    push_decimal(&mut m, total as u64);
    push_str(&mut m, " files into '");
    push_str(&mut m, lib);
    push_str(&mut m, "' at level ");
    push_decimal(&mut m, level as u64);
    assert(m@ =~= spec_start_message(total as nat, lib@, level));
    m
}

} // verus!

verus! {

// ---------------------------------------------------------------------------
// Indexing one file
// ---------------------------------------------------------------------------

/// Text that is there and not blank.
pub open spec fn usable(t: Option<String>) -> bool {
    t matches Some(x) && trim(x@).len() > 0
}

/// Whether a parser's text is there and not blank.
pub fn usable_text(t: &Option<String>) -> (b: bool)
    ensures
        b == usable(*t),
{
    match t {
        Some(x) => !is_blank(x),
        None => false,
    }
}

/// The message for a file from which no text could be had.
pub open spec fn no_text_message() -> Seq<char> {
    "unsupported, empty, or tool-unavailable file"@
}

/// The text a file is indexed from: what the document parser gave, unless
/// that is missing or blank, then what the media parser gave (the caller
/// runs the media parser only in that case), and otherwise an error.
pub fn prepare_text(parsed: Option<String>, media: Option<String>) -> (r: Result<String, String>)
    ensures
        usable(parsed) ==> r == Ok::<String, String>(parsed->0),
        !usable(parsed) && usable(media) ==> r == Ok::<String, String>(media->0),
        !usable(parsed) && !usable(media) ==> (r matches Err(m) && m@ == no_text_message()),
{
    if usable_text(&parsed) {
        return Ok(parsed.unwrap());
    }
    if usable_text(&media) {
        return Ok(media.unwrap());
    }
    Err("unsupported, empty, or tool-unavailable file".to_owned())
}

/// The chunks of the first two levels, and the level reached: raw windows
/// below level 2, sections from level 2 on.
pub open spec fn spec_structural_chunks(text: Seq<char>, target: u8) -> (Seq<Seq<char>>, u8) {
    if target >= 2 {
        (spec_chunk_by_level(text, Level::Structure), 2)
    } else {
        (spec_chunk_by_level(text, Level::Raw), 1)
    }
}

/// Cut `text` for a run at depth `target`.
pub fn structural_chunks(text: &str, target: u8) -> (r: (Vec<String>, u8))
    ensures
        (string_views(r.0@), r.1) == spec_structural_chunks(text@, target),
{
    let mut chunks = chunk_by_level(text, Level::Raw);
    let mut achieved: u8 = 1;
    if target >= 2 {
        chunks = chunk_by_level(text, Level::Structure);
        achieved = 2;
    }
    (chunks, achieved)
}

/// The request that asks the model to summarize `chunk`.
pub open spec fn summary_request(chunk: Seq<char>) -> Seq<char> {
    "Summarize the following passage in ONE concise sentence. Reply with only the summary.\n\n"@
        + chunk
}

/// The conversation that asks the model to summarize `chunk`.
pub fn summary_prompt(chunk: &str) -> (r: Vec<ChatMessage>)
    ensures
        r.len() == 1,
        r@[0].role@ == "user"@,
        r@[0].content@ == summary_request(chunk@),
{
    let mut content =
        "Summarize the following passage in ONE concise sentence. Reply with only the summary.\n\n".to_owned();
    push_str(&mut content, chunk);
    let mut r: Vec<ChatMessage> = Vec::new();
    r.push(ChatMessage { role: "user".to_owned(), content });
    r
}

/// A chunk with the model's summary in front: the chunk itself when the
/// model gave no answer (`None`) or a blank one.
pub open spec fn spec_summarized(chunk: Seq<char>, reply: Option<Seq<char>>) -> Seq<char> {
    match reply {
        None => chunk,
        Some(s) => if trim(s).len() == 0 {
            chunk
        } else {
            "[summary: "@ + trim(s) + "]\n"@ + chunk
        },
    }
}

/// The chunk `chunk` with the model's answer `reply` to the summary request.
pub fn summarize_chunk(chunk: &str, reply: Option<&str>) -> (r: String)
    ensures
        r@ == spec_summarized(
            chunk@,
            match reply {
                Some(s) => Some(s@),
                None => None,
            },
        ),
{
    match reply {
        None => chunk.to_owned(),
        Some(s) => {
            let t = string_of(&trimmed(&chars_of(s)));
            if t.as_str().unicode_len() == 0 {
                return chunk.to_owned();
            }
            let mut r = "[summary: ".to_owned();
            push_str(&mut r, t.as_str());
            push_str(&mut r, "]\n");
            push_str(&mut r, chunk);
            r
        },
    }
}

/// A chunk with the entities found in it appended, when there are any.
pub open spec fn spec_with_entities(chunk: Seq<char>) -> Seq<char> {
    let ents = join(spec_extract_entities(chunk), ", "@);
    if ents.len() == 0 {
        chunk
    } else {
        chunk + "\n[entities: "@ + ents + "]"@
    }
}

/// The chunk with the entities found in it appended.
fn with_entities(chunk: &str) -> (r: String)
    ensures
        r@ == spec_with_entities(chunk@),
{
    let ents = join_strings(&extract_entities(chunk), ", ");
    if ents.as_str().unicode_len() == 0 {
        return chunk.to_owned();
    }
    let mut r = chunk.to_owned();
    push_str(&mut r, "\n[entities: ");
    push_str(&mut r, ents.as_str());
    push_str(&mut r, "]");
    r
}

/// The answer of the model to the summary request of each chunk, `None`
/// where it gave none.
pub open spec fn reply_views(rs: Seq<Option<String>>) -> Seq<Option<Seq<char>>> {
    rs.map_values(
        |r: Option<String>|
            match r {
                Some(s) => Some(s@),
                None => None,
            },
    )
}

/// The deeper levels of a run at depth `target`, applied to the chunks of
/// the first two levels (`achieved` is their level). They need the engine:
/// `replies` is `None` when no engine was there to answer, and the run then
/// stops at the level already reached. With the engine, from level 3 each
/// chunk gets its summary (`replies` holds the model's answers, chunk by
/// chunk), and at level 5 each chunk gets its entities.
pub open spec fn spec_deepen(
    chunks: Seq<Seq<char>>,
    achieved: u8,
    target: u8,
    replies: Option<Seq<Option<Seq<char>>>>,
) -> (Seq<Seq<char>>, u8) {
    match replies {
        None => (chunks, achieved),
        Some(rs) => {
            let (summed, a) = if target >= 3 {
                (Seq::new(chunks.len(), |i: int| spec_summarized(chunks[i], rs[i])), 3u8)
            } else {
                (chunks, achieved)
            };
            if target >= 5 {
                (summed.map_values(|c: Seq<char>| spec_with_entities(c)), 5u8)
            } else {
                (summed, a)
            }
        },
    }
}

/// Without an engine a run stops at level 2: no server is there to
/// summarize, so the deeper levels leave the structure chunks (or, for a run
/// at level 1, the raw windows) as they are, at the level they reached.
pub proof fn lemma_no_engine_stops_at_structure(text: Seq<char>, target: u8)
    ensures
        spec_summary_port(target, None, None) is None,
        ({
            let (chunks, achieved) = spec_structural_chunks(text, target);
            let (out, reached) = spec_deepen(chunks, achieved, target, None);
            &&& reached <= 2
            &&& out == chunks
            &&& target >= 2 ==> out == spec_chunk_by_level(text, Level::Structure) && reached == 2
        }),
{
}

/// Summarize and enrich the chunks of a run at depth `target`.
pub fn chunk_and_summarize(
    chunks: Vec<String>,
    achieved: u8,
    target: u8,
    replies: Option<Vec<Option<String>>>,
) -> (r: (Vec<String>, u8))
    requires
        replies matches Some(rs) ==> rs.len() == chunks.len(),
    ensures
        (string_views(r.0@), r.1) == spec_deepen(
            string_views(chunks@),
            achieved,
            target,
            match replies {
                Some(rs) => Some(reply_views(rs@)),
                None => None,
            },
        ),
{
    let ghost cv = string_views(chunks@);
    let mut cur = chunks;
    let mut level = achieved;
    let engine = replies.is_some();
    if target >= 3 {
        if let Some(rs) = replies {
            let mut summed: Vec<String> = Vec::new();
            let mut i: usize = 0;
            while i < cur.len()
                invariant
                    i <= cur.len(),
                    rs.len() == cur.len(),
                    cv == string_views(cur@),
                    string_views(summed@) == Seq::new(
                        i as nat,
                        |k: int| spec_summarized(cv[k], reply_views(rs@)[k]),
                    ),
                decreases cur.len() - i,
            {
                let reply: Option<&str> = match &rs[i] {
                    Some(s) => Some(s.as_str()),
                    None => None,
                };
                let ghost prev = string_views(summed@);
                let piece = summarize_chunk(cur[i].as_str(), reply);
                assert(cur@[i as int]@ == cv[i as int]);
                assert(piece@ == spec_summarized(cv[i as int], reply_views(rs@)[i as int]));
                summed.push(piece);
                assert(string_views(summed@) =~= prev.push(piece@));
                i = i + 1;
                assert(string_views(summed@) =~= Seq::new(
                    i as nat,
                    |k: int| spec_summarized(cv[k], reply_views(rs@)[k]),
                ));
            }
            cur = summed;
            level = 3;
        }
    }
    if engine && target >= 5 {
        let ghost before = string_views(cur@);
        let mut enriched: Vec<String> = Vec::new();
        let mut i: usize = 0;
        while i < cur.len()
            invariant
                i <= cur.len(),
                before == string_views(cur@),
                string_views(enriched@) == before.take(i as int).map_values(
                    |c: Seq<char>| spec_with_entities(c),
                ),
            decreases cur.len() - i,
        {
            let ghost prev = string_views(enriched@);
            let piece = with_entities(cur[i].as_str());
            assert(cur@[i as int]@ == before[i as int]);
            enriched.push(piece);
            assert(string_views(enriched@) =~= prev.push(piece@));
            assert(before.take(i + 1) =~= before.take(i as int).push(before[i as int]));
            i = i + 1;
            assert(string_views(enriched@) =~= before.take(i as int).map_values(
                |c: Seq<char>| spec_with_entities(c),
            ));
        }
        assert(before.take(cur.len() as int) =~= before);
        cur = enriched;
        level = 5;
    }
    (cur, level)
}

/// The server that summarizes the chunks of a run at depth `target`: none
/// below level 3; from level 3 the dedicated embedding server when one
/// runs, else the chat server when it runs.
pub open spec fn spec_summary_port(target: u8, embed_port: Option<u16>, chat_port: Option<u16>) -> Option<u16> {
    if target < 3 {
        None
    } else if embed_port is Some {
        embed_port
    } else {
        chat_port
    }
}

/// The server that summarizes the chunks of a run at depth `target`.
pub fn summary_port(target: u8, embed_port: Option<u16>, chat_port: Option<u16>) -> (p: Option<u16>)
    ensures
        p == spec_summary_port(target, embed_port, chat_port),
{
    if target < 3 {
        None
    } else if embed_port.is_some() {
        embed_port
    } else {
        chat_port
    }
}

/// The level a chunk is stored at: 4 when the run reaches level 4 and the
/// chunk has an embedding, otherwise the level reached, at most 3.
pub open spec fn spec_final_level(target: u8, has_embedding: bool, achieved: u8) -> u8 {
    if target >= 4 && has_embedding {
        4
    } else if achieved < 3 {
        achieved
    } else {
        3
    }
}

/// The level a chunk is stored at.
pub fn final_level(target: u8, has_embedding: bool, achieved: u8) -> (l: u8)
    ensures
        l == spec_final_level(target, has_embedding, achieved),
{
    if target >= 4 && has_embedding {
        4
    } else if achieved < 3 {
        achieved
    } else {
        3
    }
}

/// Whether a run at depth `target` embeds its chunks.
pub fn wants_embeddings(target: u8) -> (b: bool)
    ensures
        b == (target >= 4),
{
    target >= 4
}

// ---------------------------------------------------------------------------
// The scheduler and team answers
// ---------------------------------------------------------------------------

/// The scheduler's interval: the requested seconds (60 when none are
/// given), and never less than 10.
pub fn scheduler_interval(secs: Option<u64>) -> (s: u64)
    ensures
        s == match secs {
            Some(x) => if x < 10 {
                10
            } else {
                x
            },
            None => 60,
        },
{
    let s = match secs {
        Some(x) => x,
        None => 60,
    };
    if s < 10 {
        10
    } else {
        s
    }
}

/// The schedule of one library: the generation of its running scheduler,
/// 0 once it was turned off.
#[derive(Debug)]
pub struct Schedule {
    pub library_id: String,
    pub generation: u64,
}

/// The schedulers that run, one per library. Each time a library's
/// scheduler is turned on it gets a new generation; a scheduler goes on
/// only while its generation is its library's current one, so turning a
/// scheduler off, or on again, stops the one that ran before.
pub struct Scheduler {
    schedules: Vec<Schedule>,
    next: u64,
}

/// The index of the first schedule of `lib` among `ss`, or `ss.len()`.
pub open spec fn find_schedule(ss: Seq<Schedule>, lib: Seq<char>, from: int) -> int
    decreases ss.len() - from,
{
    if from < 0 || from >= ss.len() {
        ss.len() as int
    } else if ss[from].library_id@ == lib {
        from
    } else {
        find_schedule(ss, lib, from + 1)
    }
}

/// Where the next schedule of `lib` can be.
proof fn lemma_find_schedule_bounds(ss: Seq<Schedule>, lib: Seq<char>, from: int)
    requires
        0 <= from <= ss.len(),
    ensures
        from <= find_schedule(ss, lib, from) <= ss.len(),
        find_schedule(ss, lib, from) < ss.len() ==> ss[find_schedule(ss, lib, from)].library_id@ == lib,
        forall|k: int| from <= k < find_schedule(ss, lib, from) ==> ss[k].library_id@ != lib,
    decreases ss.len() - from,
{
    if from < ss.len() && ss[from].library_id@ != lib {
        lemma_find_schedule_bounds(ss, lib, from + 1);
    }
}

/// Adding a schedule at the end moves no earlier schedule.
proof fn lemma_find_schedule_push(ss: Seq<Schedule>, x: Schedule, lib: Seq<char>, from: int)
    requires
        0 <= from <= ss.len(),
    ensures
        find_schedule(ss.push(x), lib, from) == if find_schedule(ss, lib, from) < ss.len() {
            find_schedule(ss, lib, from)
        } else if x.library_id@ == lib {
            ss.len() as int
        } else {
            ss.len() + 1int
        },
    decreases ss.len() - from,
{
    if from < ss.len() {
        assert(ss.push(x)[from] == ss[from]);
        lemma_find_schedule_push(ss, x, lib, from + 1);
    } else {
        assert(ss.push(x)[from] == x);
        assert(find_schedule(ss.push(x), lib, from + 1) == ss.len() + 1);
    }
}

/// Replacing a schedule by one of the same library moves no schedule.
proof fn lemma_find_schedule_update(ss: Seq<Schedule>, i: int, x: Schedule, lib: Seq<char>, from: int)
    requires
        0 <= i < ss.len(),
        0 <= from <= ss.len(),
        x.library_id@ == ss[i].library_id@,
    ensures
        find_schedule(ss.update(i, x), lib, from) == find_schedule(ss, lib, from),
    decreases ss.len() - from,
{
    if from < ss.len() {
        assert(ss.update(i, x)[from].library_id@ == ss[from].library_id@);
        lemma_find_schedule_update(ss, i, x, lib, from + 1);
    }
}

/// The generation of the scheduler that runs for `lib`, if one does.
pub open spec fn schedule_of(ss: Seq<Schedule>, lib: Seq<char>) -> Option<u64> {
    let i = find_schedule(ss, lib, 0);
    if i < ss.len() && ss[i].generation != 0 {
        Some(ss[i].generation)
    } else {
        None
    }
}

impl Scheduler {
    /// The generation of the scheduler that runs for each library, if one does.
    pub closed spec fn current(&self, lib: Seq<char>) -> Option<u64> {
        schedule_of(self.schedules@, lib)
    }

    /// The generation the next scheduler gets.
    pub closed spec fn next_generation(&self) -> u64 {
        self.next
    }

    /// Every generation handed out is below the next one, which is not 0.
    pub closed spec fn wf(&self) -> bool {
        &&& self.next >= 1
        &&& forall|k: int| 0 <= k < self.schedules.len() ==> #[trigger] self.schedules@[k].generation < self.next
    }

    /// No scheduler runs yet.
    pub fn new() -> (s: Scheduler)
        ensures
            s.wf(),
            s.next_generation() == 1,
            forall|lib: Seq<char>| s.current(lib) is None,
    {
        Scheduler { schedules: Vec::new(), next: 1 }
    }

    /// The index of the schedule of `lib`, or the number of schedules.
    fn position(&self, lib: &str) -> (i: usize)
        ensures
            i == find_schedule(self.schedules@, lib@, 0),
            i <= self.schedules.len(),
    {
        proof {
            lemma_find_schedule_bounds(self.schedules@, lib@, 0);
        }
        let mut i: usize = 0;
        while i < self.schedules.len() && !crate::text::str_eq(self.schedules[i].library_id.as_str(), lib)
            invariant
                i <= self.schedules.len(),
                find_schedule(self.schedules@, lib@, 0) == find_schedule(self.schedules@, lib@, i as int),
            decreases self.schedules.len() - i,
        {
            i = i + 1;
        }
        i
    }

    /// Set the generation of `lib`'s schedule to `g`, adding the schedule when
    /// there is none.
    fn set(&mut self, lib: &str, g: u64)
        requires
            g < old(self).next,
            old(self).wf(),
        ensures
            final(self).next == old(self).next,
            final(self).wf(),
            final(self).current(lib@) == (if g == 0 { None } else { Some(g) }),
            forall|other: Seq<char>| other != lib@ ==> final(self).current(other) == old(self).current(other),
    {
        let i = self.position(lib);
        let entry = Schedule { library_id: lib.to_owned(), generation: g };
        let ghost old_ss = self.schedules@;
        proof {
            lemma_find_schedule_bounds(old_ss, lib@, 0);
        }
        if i < self.schedules.len() {
            self.schedules.set(i, entry);
            proof {
                assert forall|other: Seq<char>| #[trigger] schedule_of(self.schedules@, other) == (if other == lib@ {
                    if g == 0 { None } else { Some(g) }
                } else {
                    schedule_of(old_ss, other)
                }) by {
                    lemma_find_schedule_update(old_ss, i as int, entry, other, 0);
                    lemma_find_schedule_bounds(old_ss, other, 0);
                }
            }
        } else {
            self.schedules.push(entry);
            proof {
                assert forall|other: Seq<char>| #[trigger] schedule_of(self.schedules@, other) == (if other == lib@ {
                    if g == 0 { None } else { Some(g) }
                } else {
                    schedule_of(old_ss, other)
                }) by {
                    lemma_find_schedule_push(old_ss, entry, other, 0);
                    lemma_find_schedule_bounds(old_ss, other, 0);
                }
            }
        }
        assert forall|k: int| 0 <= k < self.schedules.len() implies #[trigger] self.schedules@[k].generation
            < self.next by {
            if k < old_ss.len() && k != i {
                assert(self.schedules@[k] == old_ss[k]);
            }
        }
    }

    /// Turn the scheduler of `lib` on: it gets a new generation, which the
    /// scheduler that ran for it before (if any) does not have; `None`, with
    /// nothing changed, once every generation has been handed out.
    pub fn enable(&mut self, lib: &str) -> (r: Option<u64>)
        requires
            old(self).wf(),
        ensures
            final(self).wf(),
            old(self).next_generation() == u64::MAX ==> r is None && *final(self) == *old(self),
            old(self).next_generation() < u64::MAX ==> r == Some(old(self).next_generation()) && {
                let g = old(self).next_generation();
                &&& final(self).next_generation() == g + 1
                &&& final(self).current(lib@) == Some(g)
                &&& old(self).current(lib@) matches Some(h) ==> h != g
                &&& forall|other: Seq<char>|
                    other != lib@ ==> final(self).current(other) == old(self).current(other)
            },
    {
        if self.next == u64::MAX {
            return None;
        }
        let g = self.next;
        proof {
            lemma_find_schedule_bounds(self.schedules@, lib@, 0);
        }
        self.next = self.next + 1;
        self.set(lib, g);
        Some(g)
    }

    /// Turn the scheduler of `lib` off.
    pub fn disable(&mut self, lib: &str)
        requires
            old(self).wf(),
        ensures
            final(self).wf(),
            final(self).next_generation() == old(self).next_generation(),
            final(self).current(lib@) is None,
            forall|other: Seq<char>| other != lib@ ==> final(self).current(other) == old(self).current(other),
    {
        self.set(lib, 0);
    }

    /// Whether the scheduler of `lib` with generation `g` goes on with its
    /// next round: only while it is the one turned on last for `lib`.
    pub fn goes_on(&self, lib: &str, g: u64) -> (b: bool)
        ensures
            b == (self.current(lib@) == Some(g)),
    {
        let i = self.position(lib);
        proof {
            lemma_find_schedule_bounds(self.schedules@, lib@, 0);
        }
        i < self.schedules.len() && self.schedules[i].generation != 0 && self.schedules[i].generation == g
    }
}

/// The answer to a scheduler request for library `lib`.
pub open spec fn spec_scheduler_message(lib: Seq<char>, enabled: bool, interval: u64) -> Seq<char> {
    if enabled {
        "Scheduler enabled for '"@ + lib + "' every "@ + nat_decimal(interval as nat)
            + "s (re-indexes pending/error files)"@
    } else {
        "Scheduler disabled for '"@ + lib + "'"@
    }
}

/// The answer to a scheduler request for library `lib`.
pub fn scheduler_message(lib: &str, enabled: bool, interval: u64) -> (m: String)
    ensures
        m@ == spec_scheduler_message(lib@, enabled, interval),
{
    if !enabled {
        let mut m = "Scheduler disabled for '".to_owned();
        push_str(&mut m, lib);
        push_str(&mut m, "'");
        return m;
    }
    let mut m = "Scheduler enabled for '".to_owned();
    push_str(&mut m, lib);
    push_str(&mut m, "' every ");
    push_decimal(&mut m, interval);
    push_str(&mut m, "s (re-indexes pending/error files)");
    assert(m@ =~= spec_scheduler_message(lib@, enabled, interval));
    m
}

/// The conversation that answers a team member's `question` from the
/// context retrieved for it: the context as a system message (when
/// anything was retrieved), then the question.
pub fn team_rag_answer(ctx: &str, question: &str) -> (r: Vec<ChatMessage>)
    ensures
        message_views(r@) == spec_rag_messages(seq![], ctx@, question@),
{
    let none: Vec<ChatMessage> = Vec::new();
    assert(none@ =~= Seq::<ChatMessage>::empty());
    rag_messages(none, ctx, question)
}

} // verus!
