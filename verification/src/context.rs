//! The per-render working context: the literal working directory, the home
//! directory if resolvable, the directory snapshot cache, and the memoized
//! repository lookup. Each directory's listing is recorded at most once;
//! later recordings for the same path are ignored, so every probe of a path
//! returns the listing first recorded for it.

use vstd::prelude::*;
use crate::scan::{DirEntry, ScanCriteria, spec_is_active, is_active};
use crate::repo::RepoInfo;
use crate::text::{chars_of, chars_eq};

verus! {

/// A cached directory listing, keyed by the literal directory path.
pub struct DirListing {
    pub path: String,
    pub entries: Vec<DirEntry>,
}

/// Whether the cache holds a listing for `p`.
pub open spec fn spec_has_listing(cache: Seq<DirListing>, p: Seq<char>) -> bool
    decreases cache.len(),
{
    if cache.len() == 0 {
        false
    } else if cache[0].path@ == p {
        true
    } else {
        spec_has_listing(cache.drop_first(), p)
    }
}

/// The cached listing for `p`: the first one recorded, or the empty
/// listing when none is — an unreadable or unprobed directory scans as
/// containing no entries.
pub open spec fn spec_listing_of(cache: Seq<DirListing>, p: Seq<char>) -> Seq<DirEntry>
    decreases cache.len(),
{
    if cache.len() == 0 {
        Seq::empty()
    } else if cache[0].path@ == p {
        cache[0].entries@
    } else {
        spec_listing_of(cache.drop_first(), p)
    }
}

pub proof fn lemma_listing_push(cache: Seq<DirListing>, slot: DirListing, p: Seq<char>)
    ensures
        spec_has_listing(cache.push(slot), p) == (spec_has_listing(cache, p) || slot.path@ == p),
        spec_listing_of(cache.push(slot), p) == if spec_has_listing(cache, p) {
            spec_listing_of(cache, p)
        } else if slot.path@ == p {
            slot.entries@
        } else {
            Seq::<DirEntry>::empty()
        },
    decreases cache.len(),
{
    let pushed = cache.push(slot);
    if cache.len() == 0 {
        assert(pushed[0] == slot);
        assert(pushed.drop_first() =~= Seq::<DirListing>::empty());
        if slot.path@ == p {
            assert(spec_has_listing(pushed, p));
            assert(spec_listing_of(pushed, p) == slot.entries@);
        } else {
            assert(spec_has_listing(pushed, p) == spec_has_listing(pushed.drop_first(), p));
            assert(spec_listing_of(pushed, p) == spec_listing_of(pushed.drop_first(), p));
            assert(!spec_has_listing(Seq::<DirListing>::empty(), p));
            assert(spec_listing_of(Seq::<DirListing>::empty(), p) == Seq::<DirEntry>::empty());
        }
    } else {
        lemma_listing_push(cache.drop_first(), slot, p);
        assert(pushed[0] == cache[0]);
        assert(pushed.drop_first() =~= cache.drop_first().push(slot));
        if cache[0].path@ == p {
            assert(spec_has_listing(pushed, p));
            assert(spec_listing_of(pushed, p) == cache[0].entries@);
            assert(spec_has_listing(cache, p));
            assert(spec_listing_of(cache, p) == cache[0].entries@);
        } else {
            assert(spec_has_listing(pushed, p) == spec_has_listing(pushed.drop_first(), p));
            assert(spec_listing_of(pushed, p) == spec_listing_of(pushed.drop_first(), p));
            assert(spec_has_listing(cache, p) == spec_has_listing(cache.drop_first(), p));
            assert(spec_listing_of(cache, p) == spec_listing_of(cache.drop_first(), p));
        }
    }
}

/// Process-scoped state for one render pass.
pub struct WorkingContext {
    pub cwd: String,
    pub home: Option<String>,
    pub cache: Vec<DirListing>,
    pub repo_memo: Option<RepoInfo>,
}

impl WorkingContext {
    /// A fresh context with an empty snapshot cache and no repository
    /// lookup performed yet.
    pub fn new(cwd: String, home: Option<String>) -> (r: WorkingContext)
        ensures
            r.cwd == cwd,
            r.home == home,
            r.cache@.len() == 0,
            r.repo_memo is None,
    {
        WorkingContext { cwd, home, cache: Vec::new(), repo_memo: None }
    }

    /// The cached listing for `path`, or `None` if that directory was
    /// never recorded.
    pub fn entries_of<'a>(&'a self, path: &str) -> (r: Option<&'a Vec<DirEntry>>)
        ensures
            match r {
                Some(v) => spec_has_listing(self.cache@, path@) && v@ == spec_listing_of(
                    self.cache@,
                    path@,
                ),
                None => !spec_has_listing(self.cache@, path@),
            },
    {
        let target = chars_of(path);
        let mut i: usize = 0;
        proof {
            assert(self.cache@.skip(0) =~= self.cache@);
        }
        while i < self.cache.len()
            invariant
                i <= self.cache@.len(),
                target@ == path@,
                spec_has_listing(self.cache@, path@) == spec_has_listing(
                    self.cache@.skip(i as int),
                    path@,
                ),
                spec_listing_of(self.cache@, path@) == spec_listing_of(
                    self.cache@.skip(i as int),
                    path@,
                ),
            decreases self.cache@.len() - i,
        {
            let ghost rest = self.cache@.skip(i as int);
            proof {
                assert(rest[0] == self.cache@[i as int]);
                assert(rest.drop_first() =~= self.cache@.skip(i as int + 1));
            }
            let slot_path = chars_of(self.cache[i].path.as_str());
            if chars_eq(&slot_path, &target) {
                return Some(&self.cache[i].entries);
            }
            i = i + 1;
        }
        proof {
            assert(self.cache@.skip(i as int) =~= Seq::<DirListing>::empty());
        }
        None
    }

    /// Whether a listing for `path` has been recorded.
    pub fn has_listing(&self, path: &str) -> (r: bool)
        ensures
            r == spec_has_listing(self.cache@, path@),
    {
        match self.entries_of(path) {
            Some(_) => true,
            None => false,
        }
    }

    /// Records the listing of one directory. A path already recorded keeps
    /// its first listing: each distinct directory is listed at most once
    /// per render, and repeated probes return the cached result.
    pub fn record_listing(&mut self, path: String, entries: Vec<DirEntry>)
        ensures
            final(self).cwd == old(self).cwd,
            final(self).home == old(self).home,
            final(self).repo_memo == old(self).repo_memo,
            forall|p: Seq<char>|
                #[trigger] spec_has_listing(final(self).cache@, p) == (spec_has_listing(
                    old(self).cache@,
                    p,
                ) || p == path@),
            forall|p: Seq<char>|
                #[trigger] spec_listing_of(final(self).cache@, p) == if !spec_has_listing(
                    old(self).cache@,
                    path@,
                ) && p == path@ {
                    entries@
                } else {
                    spec_listing_of(old(self).cache@, p)
                },
    {
        if self.has_listing(path.as_str()) {
            return ;
        }
        let ghost cache0 = self.cache@;
        let ghost slot_path = path@;
        let slot = DirListing { path, entries };
        self.cache.push(slot);
        proof {
            assert forall|p: Seq<char>|
                #[trigger] spec_has_listing(self.cache@, p) == (spec_has_listing(cache0, p) || p
                    == slot_path) by {
                lemma_listing_push(cache0, slot, p);
            }
            assert forall|p: Seq<char>|
                #[trigger] spec_listing_of(self.cache@, p) == if !spec_has_listing(
                    cache0,
                    slot_path,
                ) && p == slot_path {
                    slot.entries@
                } else {
                    spec_listing_of(cache0, p)
                } by {
                lemma_listing_push(cache0, slot, p);
                if !(p == slot_path) && !spec_has_listing(cache0, p) {
                    lemma_listing_absent_empty(cache0, p);
                }
            }
        }
    }

    /// Evaluates the module activation scan against the cached listing of
    /// the working directory; a directory never recorded scans as empty.
    pub fn scan_active(&self, inclusion: &Vec<ScanCriteria>, exclusion: &Vec<ScanCriteria>) -> (r:
        bool)
        ensures
            r == spec_is_active(
                spec_listing_of(self.cache@, self.cwd@),
                inclusion@,
                exclusion@,
            ),
    {
        match self.entries_of(self.cwd.as_str()) {
            Some(v) => is_active(v, inclusion, exclusion),
            None => {
                proof {
                    lemma_listing_absent_empty(self.cache@, self.cwd@);
                }
                let empty: Vec<DirEntry> = Vec::new();
                is_active(&empty, inclusion, exclusion)
            },
        }
    }
}

/// A path never recorded has the empty listing.
pub proof fn lemma_listing_absent_empty(cache: Seq<DirListing>, p: Seq<char>)
    requires
        !spec_has_listing(cache, p),
    ensures
        spec_listing_of(cache, p) == Seq::<DirEntry>::empty(),
    decreases cache.len(),
{
    if cache.len() > 0 {
        lemma_listing_absent_empty(cache.drop_first(), p);
    }
}

} // verus!
