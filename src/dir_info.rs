use vstd::prelude::*;

use globset::GlobSet;

use crate::error::Error;
use crate::exec::{glob_patterns, Options};
use crate::ext_stats::{add_to_key, ExtAggregator};
use crate::globs::{
    any_glob_matches, compile_globs, glob_parses, glob_set_matches, set_builds, set_globs,
    string_views,
};
use crate::ranking::{lemma_sort_desc, min_nat, ranked, sort_desc, sum_sizes, top_k, Ranked, SizedEntry};
use crate::top_files::{lemma_top_k_largest, lemma_top_k_no_entry, lemma_top_k_push, TopFiles};

verus! {

/// One qualifying file: its path and its size in bytes.
#[derive(Debug)]
pub struct DirEntryInfo {
    pub path: String,
    pub size: u64,
}

impl SizedEntry for DirEntryInfo {
    open spec fn rank_view(&self) -> Ranked {
        (self.path@, self.size)
    }

    fn size_of(&self) -> (r: u64) {
        self.size
    }
}

/// The bytes gathered under one extension.
#[derive(Debug)]
pub struct ExtStat {
    pub ext: String,
    pub size: u64,
}

impl SizedEntry for ExtStat {
    open spec fn rank_view(&self) -> Ranked {
        (self.ext@, self.size)
    }

    fn size_of(&self) -> (r: u64) {
        self.size
    }
}


/// The extension breakdown: the largest extensions by bytes, largest first,
/// and the bytes of all the others together.
#[derive(Debug)]
pub struct ExtStats {
    pub top_by_ext: Vec<ExtStat>,
    pub others_size: u64,
}


/// One entry met while walking a directory tree, as the walker reports it.
#[derive(Debug)]
pub struct WalkEntry {
    /// The entry's path.
    pub path: String,
    /// Whether it is a regular file.
    pub is_file: bool,
    /// Whether the path is a symbolic link.
    pub is_symlink: bool,
    /// Its length in bytes; read only for the entries that count.
    pub size: u64,
    /// Whether the path was valid text; a path that was not is counted but
    /// cannot be listed among the largest files.
    pub path_is_text: bool,
}

/// The result of analysing one directory tree.
#[derive(Debug)]
pub struct DirInfo {
    pub path_processed: String,
    pub total_numbers: u32,
    pub total_size: u64,
    /// The largest files, largest first; empty in summary mode.
    pub top_files: Vec<DirEntryInfo>,
    /// The breakdown by extension; absent in summary mode or without it.
    pub ext_stats: Option<ExtStats>,
}

/// The extension std gives the last component of `path`.
pub uninterp spec fn path_extension(path: Seq<char>) -> Option<Seq<char>>;

/// Relies on std::path::Path::extension: the part of the file name after its
/// last dot, if any, read as text.
#[verifier::external_body]
fn extension_of(path: &str) -> (r: Option<String>)
    ensures
        r is None <==> path_extension(path@) is None,
        r matches Some(e) ==> path_extension(path@) == Some(e@),
{
    match std::path::Path::new(path).extension() {
        Some(e) => Some(e.to_string_lossy().into_owned()),
        None => None,
    }
}

/// Whether `path` passes the glob filter: always without one, else when one
/// of its patterns matches.
pub open spec fn selected(globs: Option<Seq<Seq<char>>>, path: Seq<char>) -> bool {
    match globs {
        Some(g) => any_glob_matches(g, path),
        None => true,
    }
}

/// A regular file, not a symbolic link, that passes the glob filter.
pub open spec fn qualifies(globs: Option<Seq<Seq<char>>>, e: WalkEntry) -> bool {
    e.is_file && !e.is_symlink && selected(globs, e.path@)
}

/// The entries of `es` that qualify, in order.
pub open spec fn qualifying(globs: Option<Seq<Seq<char>>>, es: Seq<WalkEntry>) -> Seq<WalkEntry>
    decreases es.len(),
{
    if es.len() == 0 {
        Seq::empty()
    } else if qualifies(globs, es.last()) {
        qualifying(globs, es.drop_last()).push(es.last())
    } else {
        qualifying(globs, es.drop_last())
    }
}

/// The sum of the sizes of `es`.
pub open spec fn total_bytes(es: Seq<WalkEntry>) -> int
    decreases es.len(),
{
    if es.len() == 0 {
        0
    } else {
        total_bytes(es.drop_last()) + es.last().size
    }
}

/// The files of `es` whose path is text, as candidates for the largest files.
pub open spec fn listed_files(es: Seq<WalkEntry>) -> Seq<Ranked>
    decreases es.len(),
{
    if es.len() == 0 {
        Seq::empty()
    } else if es.last().path_is_text {
        listed_files(es.drop_last()).push((es.last().path@, es.last().size))
    } else {
        listed_files(es.drop_last())
    }
}

/// The files of `es` that may be listed among the largest: those with a
/// text path and at least one byte.
pub open spec fn top_candidates(es: Seq<WalkEntry>) -> Seq<Ranked>
    decreases es.len(),
{
    if es.len() == 0 {
        Seq::empty()
    } else if es.last().path_is_text && es.last().size > 0 {
        top_candidates(es.drop_last()).push((es.last().path@, es.last().size))
    } else {
        top_candidates(es.drop_last())
    }
}

/// Bytes per extension over `es`, extensions in the order first seen; files
/// without an extension are left out.
pub open spec fn ext_totals(es: Seq<WalkEntry>) -> Seq<Ranked>
    decreases es.len(),
{
    if es.len() == 0 {
        Seq::empty()
    } else {
        match path_extension(es.last().path@) {
            Some(x) => add_to_key(ext_totals(es.drop_last()), x, es.last().size),
            None => ext_totals(es.drop_last()),
        }
    }
}

/// One traversal in progress: it takes the walker's entries one at a time
/// and keeps the totals, the largest files and the bytes per extension.
pub struct DirInfoProcessor {
    path: String,
    glob: Option<GlobSet>,
    patterns: Ghost<Option<Seq<Seq<char>>>>,
    nums: usize,
    summary: bool,
    no_ext: bool,
    total_numbers: u32,
    total_size: u64,
    unlisted: u32,
    tops: Option<TopFiles>,
    by_ext: Option<ExtAggregator>,
    entries: Ghost<Seq<WalkEntry>>,
}

impl DirInfoProcessor {
    /// Every entry handed in so far, in order.
    pub closed spec fn entries(&self) -> Seq<WalkEntry> {
        self.entries@
    }

    /// The glob patterns in force, if any.
    pub closed spec fn globs(&self) -> Option<Seq<Seq<char>>> {
        self.patterns@
    }

    pub closed spec fn root(&self) -> Seq<char> {
        self.path@
    }

    pub closed spec fn nums_spec(&self) -> usize {
        self.nums
    }

    pub closed spec fn summary_spec(&self) -> bool {
        self.summary
    }

    pub closed spec fn no_ext_spec(&self) -> bool {
        self.no_ext
    }

    /// The entries handed in that count.
    pub open spec fn counted(&self) -> Seq<WalkEntry> {
        qualifying(self.globs(), self.entries())
    }

    pub closed spec fn wf(&self) -> bool {
        let q = self.counted();
        &&& match (self.glob, self.patterns@) {
            (Some(s), Some(p)) => set_globs(s) == p,
            (None, None) => true,
            _ => false,
        }
        &&& self.total_numbers == q.len()
        &&& self.total_size == total_bytes(q)
        &&& listed_files(q).len() + self.unlisted == q.len()
        &&& (self.tops is Some <==> !self.summary)
        &&& (self.tops matches Some(t) ==> t.wf() && t@ == top_k(top_candidates(q), self.nums as nat)
            && t.capacity_spec() == self.nums)
        &&& (self.by_ext is Some <==> !self.summary && !self.no_ext)
        &&& (self.by_ext matches Some(a) ==> a.wf() && a@ == ext_totals(q) && a.total_spec()
            <= self.total_size)
    }

    /// Starts the analysis of the tree at `path`. The glob patterns are
    /// compiled first: one that does not compile fails the whole analysis.
    pub fn new(path: &str, options: &Options) -> (r: Result<DirInfoProcessor, Error>)
        ensures
            options.glob is None ==> r is Ok,
            (options.glob matches Some(v) && exists|i: int|
                0 <= i < v.len() && !glob_parses(#[trigger] v@[i]@)) ==> r is Err,
            (options.glob matches Some(v) && (forall|i: int|
                0 <= i < v.len() ==> glob_parses(#[trigger] v@[i]@)) && set_builds(
                string_views(v@),
            )) ==> r is Ok,
            r is Err ==> r matches Err(Error::Glob(_)),
            r matches Ok(p) ==> {
                &&& p.wf()
                &&& p.entries() == Seq::<WalkEntry>::empty()
                &&& p.globs() == glob_patterns(options.glob)
                &&& p.root() == path@
                &&& p.nums_spec() == options.nums
                &&& p.summary_spec() == options.summary
                &&& p.no_ext_spec() == options.no_ext
            },
    {
        let glob = match &options.glob {
            Some(patterns) => match compile_globs(patterns) {
                Ok(s) => Some(s),
                Err(e) => {
                    return Err(Error::Glob(e));
                },
            },
            None => None,
        };
        let tops = if options.summary {
            None
        } else {
            Some(TopFiles::new(options.nums))
        };
        let by_ext = if !options.no_ext && !options.summary {
            Some(ExtAggregator::new())
        } else {
            None
        };
        let p = DirInfoProcessor {
            path: String::from_str(path),
            glob,
            patterns: Ghost(glob_patterns(options.glob)),
            nums: options.nums,
            summary: options.summary,
            no_ext: options.no_ext,
            total_numbers: 0,
            total_size: 0,
            unlisted: 0,
            tops,
            by_ext,
            entries: Ghost(Seq::empty()),
        };
        assert(listed_files(Seq::<WalkEntry>::empty()) == Seq::<Ranked>::empty());
        assert(top_candidates(Seq::<WalkEntry>::empty()) == Seq::<Ranked>::empty());
        assert(top_k(Seq::<Ranked>::empty(), options.nums as nat) =~= Seq::<Ranked>::empty());
        Ok(p)
    }

    /// Whether an entry with this path and these kinds counts.
    pub fn accepts(&self, path: &str, is_file: bool, is_symlink: bool) -> (r: bool)
        requires
            self.wf(),
        ensures
            r == (is_file && !is_symlink && selected(self.globs(), path@)),
    {
        if !is_file || is_symlink {
            return false;
        }
        match &self.glob {
            Some(s) => glob_set_matches(s, path),
            None => true,
        }
    }

    /// The number of files counted so far.
    pub fn total_numbers(&self) -> (r: u32)
        requires
            self.wf(),
        ensures
            r == self.counted().len(),
    {
        self.total_numbers
    }

    /// The bytes counted so far.
    pub fn total_size(&self) -> (r: u64)
        requires
            self.wf(),
        ensures
            r == total_bytes(self.counted()),
    {
        self.total_size
    }

    /// The number of files counted so far whose path was not text, and which
    /// therefore could not be listed among the largest files.
    pub fn unlisted_paths(&self) -> (r: u32)
        requires
            self.wf(),
        ensures
            r == self.counted().len() - listed_files(self.counted()).len(),
    {
        self.unlisted
    }

    /// Takes one entry. If it counts, the file count grows by one, its size
    /// is added to the total and to its extension, and, when its path is
    /// text and it is larger than the smallest size that can still enter
    /// (0 while fewer than `nums` are held), it is offered to the largest
    /// files. A file of zero bytes is never listed.
    pub fn add_entry(&mut self, entry: WalkEntry)
        requires
            old(self).wf(),
            qualifies(old(self).globs(), entry) ==> old(self).counted().len() < u32::MAX,
            qualifies(old(self).globs(), entry) ==> total_bytes(old(self).counted()) + entry.size
                <= u64::MAX,
        ensures
            final(self).wf(),
            final(self).entries() == old(self).entries().push(entry),
            final(self).globs() == old(self).globs(),
            final(self).root() == old(self).root(),
            final(self).nums_spec() == old(self).nums_spec(),
            final(self).summary_spec() == old(self).summary_spec(),
            final(self).no_ext_spec() == old(self).no_ext_spec(),
    {
        let ghost es = self.entries@;
        let ghost g = self.patterns@;
        proof {
            assert(es.push(entry).drop_last() =~= es);
            assert(es.push(entry).last() == entry);
        }
        let counts = self.accepts(entry.path.as_str(), entry.is_file, entry.is_symlink);
        if !counts {
            proof {
                self.entries = Ghost(es.push(entry));
            }
            return;
        }
        let ghost q = qualifying(g, es);
        proof {
            assert(q.push(entry).drop_last() =~= q);
            assert(q.push(entry).last() == entry);
        }
        self.total_numbers = self.total_numbers + 1;
        self.total_size = self.total_size + entry.size;
        let size = entry.size;
        let ext = extension_of(entry.path.as_str());
        match &mut self.by_ext {
            Some(a) => {
                match ext {
                    Some(x) => {
                        a.add(x, size);
                    },
                    None => {},
                }
            },
            None => {},
        }
        if !entry.path_is_text {
            self.unlisted = self.unlisted + 1;
        }
        let ghost x: Ranked = (entry.path@, size);
        let ghost cands = top_candidates(q);
        let ghost k = self.nums as nat;
        if entry.path_is_text && size > 0 {
            match &mut self.tops {
                Some(t) => {
                    let ghost off = t.offered();
                    if size > t.min_size() {
                        t.offer(DirEntryInfo { path: entry.path, size });
                        proof {
                            lemma_top_k_push(off, x, k);
                            lemma_top_k_push(cands, x, k);
                        }
                    } else {
                        proof {
                            lemma_sort_desc(off);
                            lemma_sort_desc(cands);
                            assert(t@ == top_k(cands, k));
                            assert(t@.len() == min_nat(k, off.len()));
                            lemma_top_k_no_entry(cands, x, k);
                        }
                    }
                },
                None => {},
            }
        }
        proof {
            self.entries = Ghost(es.push(entry));
        }
    }

    /// Ends the analysis: the totals, the largest files, and the extensions
    /// sorted by bytes with the first `nums` kept and the rest summed.
    pub fn finish(self) -> (r: DirInfo)
        requires
            self.wf(),
        ensures
            r.path_processed@ == self.root(),
            r.total_numbers == self.counted().len(),
            r.total_size == total_bytes(self.counted()),
            self.summary_spec() ==> r.top_files@.len() == 0,
            !self.summary_spec() ==> ranked(r.top_files@) == top_k(
                top_candidates(self.counted()),
                self.nums_spec() as nat,
            ),
            !self.summary_spec() ==> {
                let c = top_candidates(self.counted());
                let t = ranked(r.top_files@);
                let rest = sort_desc(c).skip(t.len() as int);
                &&& (t + rest).to_multiset() == c.to_multiset()
                &&& t.len() < self.nums_spec() ==> rest.len() == 0
                &&& t.len() > 0 ==> forall|j: int|
                    0 <= j < rest.len() ==> #[trigger] rest[j].1 <= t.last().1
            },
            (self.summary_spec() || self.no_ext_spec()) ==> r.ext_stats is None,
            (!self.summary_spec() && !self.no_ext_spec()) ==> (r.ext_stats matches Some(st) && {
                let e = ext_totals(self.counted());
                let m = min_nat(self.nums_spec() as nat, e.len()) as int;
                &&& ranked(st.top_by_ext@) == sort_desc(e).take(m)
                &&& st.others_size == sum_sizes(sort_desc(e).skip(m))
            }),
    {
        proof {
            let c = top_candidates(self.counted());
            lemma_top_k_largest(c, self.nums as nat);
            lemma_sort_desc(c);
            let t = top_k(c, self.nums as nat);
            let m = min_nat(self.nums as nat, c.len());
            assert(t.len() == m);
            let rest = sort_desc(c).skip(m as int);
            assert((t + rest).to_multiset() == c.to_multiset());
            if t.len() > 0 {
                assert forall|j: int| 0 <= j < rest.len() implies #[trigger] rest[j].1 <= t.last().1 by {
                    assert(t.last() == t[t.len() - 1]);
                    assert(rest[j].1 <= t[t.len() - 1].1);
                }
            }
        }
        let top_files = match self.tops {
            Some(t) => t.into_entries(),
            None => Vec::new(),
        };
        let ext_stats = match &self.by_ext {
            Some(a) => Some(a.finish(self.nums)),
            None => None,
        };
        DirInfo {
            path_processed: self.path,
            total_numbers: self.total_numbers,
            total_size: self.total_size,
            top_files,
            ext_stats,
        }
    }
}

} // verus!
