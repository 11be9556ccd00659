use vstd::prelude::*;

use crate::classify::{is_readable_text, probe_of, sample_of, utf8_valid, verdict};
use crate::ignore::{
    all_valid, any_glob_matches, build_ignore_set, ignore_globs, set_builds, set_globs, set_matches, texts, ConfigError,
};
use crate::path::{normalize_path, normalized};

verus! {

/// The text that a file's bytes decode to, malformed sequences replaced.
pub uninterp spec fn decoded_text(b: Seq<u8>) -> Seq<char>;

/// Relies on encoding_rs's `UTF_8.decode`: the whole input is decoded (a
/// byte-order mark sniffed and dropped), malformed sequences replaced with
/// U+FFFD; the result depends on the bytes alone.
#[verifier::external_body]
fn decode_lossy(b: &[u8]) -> (r: String)
    ensures
        r@ == decoded_text(b@),
{
    encoding_rs::UTF_8.decode(b).0.into_owned()
}

/// One entry met while walking a root, with what was read of it.
pub struct FileEntry {
    /// The path shown in the block's header.
    pub display_path: String,
    /// The path relative to the root, matched against the ignore set.
    pub relative_path: String,
    /// A regular file (not a directory, not a link).
    pub is_file: bool,
    /// The file's size in bytes.
    pub size: u64,
    /// What one read of up to `PROBE_LIMIT` bytes gave; `None` when the
    /// file could not be opened or read.
    pub head: Option<Vec<u8>>,
    /// The whole content; `None` when the full read failed.
    pub content: Option<Vec<u8>>,
}

/// One root path: whether it exists, and its entries in walk order.
pub struct RootListing {
    pub exists: bool,
    pub entries: Vec<FileEntry>,
}

/// Why a run failed; roots and entries are given by their index.
#[derive(Clone, Copy, Debug, PartialEq, Eq, Structural)]
pub enum AggregateError {
    /// The root does not exist.
    PathNotFound { root: usize },
    /// The entry's sample is not valid UTF-8.
    NonUtf8Sample { root: usize, entry: usize },
    /// The entry could not be probed.
    ProbeFailed { root: usize, entry: usize },
    /// No text file was found.
    EmptyResult,
}

/// Why one entry stops the run.
#[derive(Clone, Copy, Debug, PartialEq, Eq, Structural)]
pub enum EntryFault {
    NonUtf8Sample,
    ProbeFailed,
}

/// The block of one file: a header line naming it, its text, a blank line.
pub open spec fn block(name: Seq<char>, text: Seq<char>) -> Seq<char> {
    seq!['=', '=', '=', '=', ' '] + name + seq![' ', '=', '=', '=', '=', '\n'] + text + seq![
        '\n',
        '\n',
    ]
}

/// The entry's normalized relative path matches a glob of `globs`.
pub open spec fn ignored(globs: Seq<Seq<char>>, e: FileEntry) -> bool {
    any_glob_matches(globs, normalized(e.relative_path@))
}

/// Whether the file is text, as the probe decides.
pub open spec fn probe_verdict(e: FileEntry) -> Result<bool, EntryFault> {
    if e.size == 0 {
        Ok(false)
    } else {
        match e.head {
            None => Err(EntryFault::ProbeFailed),
            Some(h) => match verdict(e.size, h@) {
                Ok(t) => Ok(t),
                Err(_) => Err(EntryFault::NonUtf8Sample),
            },
        }
    }
}

/// What one entry adds to the output.
pub open spec fn contribution(globs: Seq<Seq<char>>, e: FileEntry) -> Result<Seq<char>, EntryFault> {
    if ignored(globs, e) || !e.is_file {
        Ok(Seq::<char>::empty())
    } else {
        match probe_verdict(e) {
            Err(f) => Err(f),
            Ok(false) => Ok(Seq::<char>::empty()),
            Ok(true) => match e.content {
                None => Ok(Seq::<char>::empty()),
                Some(c) => Ok(block(e.display_path@, decoded_text(c@))),
            },
        }
    }
}

/// The run's error for a fault at entry `entry` of root `root`.
pub open spec fn fault_error(f: EntryFault, root: int, entry: int) -> AggregateError {
    match f {
        EntryFault::NonUtf8Sample => AggregateError::NonUtf8Sample {
            root: root as usize,
            entry: entry as usize,
        },
        EntryFault::ProbeFailed => AggregateError::ProbeFailed {
            root: root as usize,
            entry: entry as usize,
        },
    }
}

/// The output of the first `n` entries of root `root`.
pub open spec fn entries_text(globs: Seq<Seq<char>>, es: Seq<FileEntry>, root: int, n: int) -> Result<
    Seq<char>,
    AggregateError,
>
    decreases n,
{
    if n <= 0 {
        Ok(Seq::<char>::empty())
    } else {
        match entries_text(globs, es, root, n - 1) {
            Err(e) => Err(e),
            Ok(t) => match contribution(globs, es[n - 1]) {
                Ok(b) => Ok(t + b),
                Err(f) => Err(fault_error(f, root, n - 1)),
            },
        }
    }
}

/// The output of the first `n` roots.
pub open spec fn roots_text(globs: Seq<Seq<char>>, rs: Seq<RootListing>, n: int) -> Result<
    Seq<char>,
    AggregateError,
>
    decreases n,
{
    if n <= 0 {
        Ok(Seq::<char>::empty())
    } else {
        match roots_text(globs, rs, n - 1) {
            Err(e) => Err(e),
            Ok(t) => if !rs[n - 1].exists {
                Err(AggregateError::PathNotFound { root: (n - 1) as usize })
            } else {
                match entries_text(globs, rs[n - 1].entries@, n - 1, rs[n - 1].entries@.len() as int) {
                    Err(e) => Err(e),
                    Ok(u) => Ok(t + u),
                }
            },
        }
    }
}

/// The result of a whole run: all roots' output, or an error; an empty
/// output is an error of its own.
pub open spec fn aggregated(globs: Seq<Seq<char>>, rs: Seq<RootListing>) -> Result<
    Seq<char>,
    AggregateError,
> {
    match roots_text(globs, rs, rs.len() as int) {
        Err(e) => Err(e),
        Ok(t) => if t.len() == 0 {
            Err(AggregateError::EmptyResult)
        } else {
            Ok(t)
        },
    }
}

proof fn lemma_entries_error_sticks(g: Seq<Seq<char>>, es: Seq<FileEntry>, root: int, k: int, m: int)
    requires
        0 <= k <= m,
        entries_text(g, es, root, k) is Err,
    ensures
        entries_text(g, es, root, m) == entries_text(g, es, root, k),
    decreases m - k,
{
    if m > k {
        lemma_entries_error_sticks(g, es, root, k, m - 1);
    }
}

proof fn lemma_roots_error_sticks(g: Seq<Seq<char>>, rs: Seq<RootListing>, k: int, m: int)
    requires
        0 <= k <= m,
        roots_text(g, rs, k) is Err,
    ensures
        roots_text(g, rs, m) == roots_text(g, rs, k),
    decreases m - k,
{
    if m > k {
        lemma_roots_error_sticks(g, rs, k, m - 1);
    }
}

/// Appends to `out` what the entry contributes, or reports its fault.
fn contribute(set: &globset::GlobSet, e: &FileEntry, out: &mut String) -> (r: Result<(), EntryFault>)
    ensures
        match contribution(set_globs(*set), *e) {
            Ok(b) => r is Ok && final(out)@ == old(out)@ + b,
            Err(f) => r == Err::<(), EntryFault>(f),
        },
{
    let rel = normalize_path(e.relative_path.as_str());
    if set_matches(set, rel.as_str()) || !e.is_file {
        assert(old(out)@ + Seq::<char>::empty() =~= old(out)@);
        return Ok(());
    }
    let is_text = if e.size == 0 {
        false
    } else {
        match &e.head {
            None => {
                return Err(EntryFault::ProbeFailed);
            },
            Some(h) => match is_readable_text(e.size, h.as_slice()) {
                Ok(t) => t,
                Err(_) => {
                    return Err(EntryFault::NonUtf8Sample);
                },
            },
        }
    };
    if !is_text {
        assert(old(out)@ + Seq::<char>::empty() =~= old(out)@);
        return Ok(());
    }
    match &e.content {
        None => {
            assert(old(out)@ + Seq::<char>::empty() =~= old(out)@);
            Ok(())
        },
        Some(c) => {
            let text = decode_lossy(c.as_slice());
            let ghost before = out@;
            out.append("==== ");
            out.append(e.display_path.as_str());
            out.append(" ====\n");
            out.append(text.as_str());
            out.append("\n\n");
            proof {
                reveal_strlit("==== ");
                reveal_strlit(" ====\n");
                reveal_strlit("\n\n");
                assert("==== "@ =~= seq!['=', '=', '=', '=', ' ']);
                assert(" ====\n"@ =~= seq![' ', '=', '=', '=', '=', '\n']);
                assert("\n\n"@ =~= seq!['\n', '\n']);
                assert(out@ =~= before + block(e.display_path@, text@));
            }
            Ok(())
        },
    }
}

/// Joins the blocks of every text file of the listed roots, in order,
/// skipping entries whose normalized relative path the set matches. A
/// missing root, a probe that fails or a sample that is not UTF-8 stops
/// the run; so does an empty output.
pub fn aggregate(set: &globset::GlobSet, roots: &[RootListing]) -> (r: Result<String, AggregateError>)
    ensures
        (r is Ok) == (aggregated(set_globs(*set), roots@) is Ok),
        r matches Ok(s) ==> aggregated(set_globs(*set), roots@) == Ok::<Seq<char>, AggregateError>(s@),
        r matches Err(e) ==> aggregated(set_globs(*set), roots@) == Err::<Seq<char>, AggregateError>(e),
{
    let ghost g = set_globs(*set);
    let mut out = String::new();
    let mut i: usize = 0;
    while i < roots.len()
        invariant
            g == set_globs(*set),
            i <= roots@.len(),
            roots_text(g, roots@, i as int) == Ok::<Seq<char>, AggregateError>(out@),
        decreases roots@.len() - i,
    {
        let root = &roots[i];
        if !root.exists {
            proof {
                lemma_roots_error_sticks(g, roots@, i + 1, roots@.len() as int);
            }
            return Err(AggregateError::PathNotFound { root: i });
        }
        let ghost base = out@;
        let ghost es = root.entries@;
        let mut j: usize = 0;
        assert(base + Seq::<char>::empty() =~= base);
        while j < root.entries.len()
            invariant
                g == set_globs(*set),
                i < roots@.len(),
                root == roots@[i as int],
                root.exists,
                es == root.entries@,
                j <= es.len(),
                roots_text(g, roots@, i as int) == Ok::<Seq<char>, AggregateError>(base),
                exists|t: Seq<char>|
                    entries_text(g, es, i as int, j as int) == Ok::<Seq<char>, AggregateError>(t)
                        && out@ == base + t,
            decreases es.len() - j,
        {
            let ghost t = choose|t: Seq<char>|
                entries_text(g, es, i as int, j as int) == Ok::<Seq<char>, AggregateError>(t)
                    && out@ == base + t;
            let ghost pre = out@;
            match contribute(set, &root.entries[j], &mut out) {
                Ok(()) => {
                    proof {
                        let b = contribution(g, es[j as int])->Ok_0;
                        assert(out@ =~= base + (t + b));
                    }
                },
                Err(f) => {
                    let ghost err = fault_error(f, i as int, j as int);
                    proof {
                        assert(entries_text(g, es, i as int, j + 1) == Err::<Seq<char>, AggregateError>(err));
                        lemma_entries_error_sticks(g, es, i as int, j + 1, es.len() as int);
                        assert(roots_text(g, roots@, i + 1) == Err::<Seq<char>, AggregateError>(err));
                        lemma_roots_error_sticks(g, roots@, i + 1, roots@.len() as int);
                    }
                    return Err(
                        match f {
                            EntryFault::NonUtf8Sample => AggregateError::NonUtf8Sample {
                                root: i,
                                entry: j,
                            },
                            EntryFault::ProbeFailed => AggregateError::ProbeFailed {
                                root: i,
                                entry: j,
                            },
                        },
                    );
                },
            }
            j = j + 1;
        }
        i = i + 1;
    }
    if out.as_str().unicode_len() == 0 {
        Err(AggregateError::EmptyResult)
    } else {
        Ok(out)
    }
}

/// Why `process_files` failed.
#[derive(Debug)]
pub enum ProcessError {
    /// The ignore set could not be built.
    InvalidPattern(ConfigError),
    /// The run itself failed.
    Aggregate(AggregateError),
}

/// Builds the ignore set from the defaults and `ignore_patterns`, then
/// joins the text files of the listed roots. A glob that does not parse
/// (or a list whose set cannot be compiled) fails before any root is
/// looked at; once the set is built, the result is that of `aggregate` on
/// the full ignore list.
pub fn process_files(roots: &[RootListing], ignore_patterns: &[String]) -> (r: Result<String, ProcessError>)
    ensures
        (r matches Err(ProcessError::InvalidPattern(_))) == !(all_valid(
            ignore_globs(texts(ignore_patterns@)),
        ) && set_builds(ignore_globs(texts(ignore_patterns@)))),
        !(r matches Err(ProcessError::InvalidPattern(_)))
            ==> ((r is Ok) == (aggregated(ignore_globs(texts(ignore_patterns@)), roots@) is Ok)),
        r matches Ok(s) ==> aggregated(ignore_globs(texts(ignore_patterns@)), roots@)
            == Ok::<Seq<char>, AggregateError>(s@),
        r matches Err(ProcessError::Aggregate(e)) ==> aggregated(
            ignore_globs(texts(ignore_patterns@)),
            roots@,
        ) == Err::<Seq<char>, AggregateError>(e),
{
    let set = match build_ignore_set(ignore_patterns) {
        Ok(s) => s,
        Err(e) => {
            return Err(ProcessError::InvalidPattern(e));
        },
    };
    match aggregate(&set, roots) {
        Ok(s) => Ok(s),
        Err(e) => Err(ProcessError::Aggregate(e)),
    }
}

/// A file whose normalized relative path matches an ignore glob adds
/// nothing to the output, whatever its kind, size or content.
pub proof fn lemma_ignored_file_never_appears(globs: Seq<Seq<char>>, e: FileEntry)
    requires
        ignored(globs, e),
    ensures
        contribution(globs, e) == Ok::<Seq<char>, EntryFault>(Seq::<char>::empty()),
{
}

/// A file with a null byte among the bytes probed is not text: it adds
/// nothing and never stops the run with a decoding error.
pub proof fn lemma_null_byte_is_not_text(globs: Seq<Seq<char>>, e: FileEntry)
    requires
        e.head matches Some(h) && probe_of(h@).contains(0u8),
    ensures
        contribution(globs, e) == Ok::<Seq<char>, EntryFault>(Seq::<char>::empty()),
{
}

/// A file that is probed, holds no null byte among the probed bytes, and
/// whose sample is not UTF-8 makes the whole run fail; when nothing before
/// it failed, the error names that file.
pub proof fn lemma_undecodable_sample_fails_run(globs: Seq<Seq<char>>, rs: Seq<RootListing>, i: int, k: int)
    requires
        0 <= i < rs.len(),
        rs[i].exists,
        0 <= k < rs[i].entries@.len(),
        !ignored(globs, rs[i].entries@[k]),
        rs[i].entries@[k].is_file,
        rs[i].entries@[k].size > 0,
        rs[i].entries@[k].head matches Some(h) && probe_of(h@).len() > 0 && !probe_of(h@).contains(0u8)
            && !utf8_valid(sample_of(h@)),
    ensures
        aggregated(globs, rs) is Err,
        roots_text(globs, rs, i) is Ok && entries_text(globs, rs[i].entries@, i, k) is Ok
            ==> aggregated(globs, rs) == Err::<Seq<char>, AggregateError>(
            AggregateError::NonUtf8Sample { root: i as usize, entry: k as usize },
        ),
{
    let es = rs[i].entries@;
    assert(contribution(globs, es[k]) == Err::<Seq<char>, EntryFault>(EntryFault::NonUtf8Sample));
    assert(entries_text(globs, es, i, k + 1) is Err);
    lemma_entries_error_sticks(globs, es, i, k + 1, es.len() as int);
    assert(roots_text(globs, rs, i + 1) is Err);
    lemma_roots_error_sticks(globs, rs, i + 1, rs.len() as int);
}

/// A root that does not exist makes the whole run fail, whatever earlier
/// roots produced; when nothing before it failed, the error names it.
pub proof fn lemma_missing_root_fails_run(globs: Seq<Seq<char>>, rs: Seq<RootListing>, i: int)
    requires
        0 <= i < rs.len(),
        !rs[i].exists,
    ensures
        aggregated(globs, rs) is Err,
        roots_text(globs, rs, i) is Ok ==> aggregated(globs, rs) == Err::<Seq<char>, AggregateError>(
            AggregateError::PathNotFound { root: i as usize },
        ),
{
    assert(roots_text(globs, rs, i + 1) is Err);
    lemma_roots_error_sticks(globs, rs, i + 1, rs.len() as int);
}

/// Two runs over the same listing with ignore sets built from the same
/// globs give the same result.
pub proof fn lemma_aggregation_idempotent(s1: globset::GlobSet, s2: globset::GlobSet, rs: Seq<RootListing>)
    requires
        set_globs(s1) == set_globs(s2),
    ensures
        aggregated(set_globs(s1), rs) == aggregated(set_globs(s2), rs),
{
}

} // verus!
