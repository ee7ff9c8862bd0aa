//! The repository locator: an upward walk of the literal path, directory
//! by directory, looking for a repository root marker in each level's
//! cached listing. No path is canonicalized at any point, so a symlinked
//! directory is located and later displayed exactly as traversed.

use vstd::prelude::*;
use crate::context::{WorkingContext, spec_listing_of};
use crate::scan::DirEntry;
use crate::text::{chars_of, string_of, subrange_chars};

verus! {

/// The result of repository discovery: not found, or the literal root path.
pub struct RepoInfo {
    pub found: bool,
    pub root: String,
}

/// The name that marks a repository root in a directory listing.
pub open spec fn spec_marker() -> Seq<char> {
    ".git"@
}

/// Whether a listing holds a repository root marker, as a file or as a
/// directory.
pub open spec fn spec_has_marker(l: Seq<DirEntry>) -> bool {
    exists|i: int| 0 <= i < l.len() && (#[trigger] l[i]).name@ == spec_marker()
}

/// The parent of a literal path: the part before the last separator, the
/// filesystem root for a top-level entry, and nothing for the root itself
/// or for a bare name.
pub open spec fn spec_parent(p: Seq<char>) -> Option<Seq<char>> {
    let i = crate::scan::spec_rfind(p, '/');
    if i == -1 {
        None
    } else if i == 0 {
        if p.len() == 1 {
            None
        } else {
            Some(p.take(1))
        }
    } else {
        Some(p.take(i))
    }
}

/// The first level at or above `p` whose cached listing holds the marker,
/// if any: the walk starts at `p` itself, and the nearest marker wins.
pub open spec fn spec_locate(cache: Seq<crate::context::DirListing>, p: Seq<char>) -> Option<
    Seq<char>,
>
    decreases p.len(),
    via spec_locate_decreases
{
    if spec_has_marker(spec_listing_of(cache, p)) {
        Some(p)
    } else {
        match spec_parent(p) {
            None => None,
            Some(q) => spec_locate(cache, q),
        }
    }
}

#[via_fn]
proof fn spec_locate_decreases(cache: Seq<crate::context::DirListing>, p: Seq<char>) {
    crate::scan::lemma_rfind_props(p, '/');
}

/// The parent of a path is a strict prefix of it.
pub proof fn lemma_parent_prefix(p: Seq<char>)
    ensures
        match spec_parent(p) {
            Some(q) => q.len() < p.len() && q == p.take(q.len() as int),
            None => true,
        },
{
    crate::scan::lemma_rfind_props(p, '/');
}

/// Whether the listing holds an entry named like the repository marker.
fn has_marker(l: &Vec<DirEntry>) -> (r: bool)
    ensures
        r == spec_has_marker(l@),
{
    let marker: String = ".git".to_owned();
    let mut i: usize = 0;
    while i < l.len()
        invariant
            i <= l@.len(),
            marker@ == spec_marker(),
            forall|k: int| 0 <= k < i ==> (#[trigger] l@[k]).name@ != spec_marker(),
        decreases l@.len() - i,
    {
        if l[i].name.eq(&marker) {
            return true;
        }
        i = i + 1;
    }
    false
}

/// Walks the literal path upward from `start_path`, consulting only the
/// context's cached listings, and reports the first repository root found.
pub fn locate(context: &WorkingContext, start_path: &str) -> (r: RepoInfo)
    ensures
        match spec_locate(context.cache@, start_path@) {
            Some(root) => r.found && r.root@ == root,
            None => !r.found,
        },
{
    let mut cur: Vec<char> = chars_of(start_path);
    loop
        invariant
            spec_locate(context.cache@, start_path@) == spec_locate(context.cache@, cur@),
        decreases cur@.len(),
    {
        let cur_str = string_of(&cur);
        let found = match context.entries_of(cur_str.as_str()) {
            Some(v) => has_marker(v),
            None => {
                proof {
                    crate::context::lemma_listing_absent_empty(context.cache@, cur@);
                }
                false
            },
        };
        if found {
            return RepoInfo { found: true, root: cur_str };
        }
        // step to the parent of the current level
        let mut j: usize = cur.len();
        proof {
            assert(cur@.take(j as int) =~= cur@);
        }
        while j > 0 && cur[j - 1] != '/'
            invariant
                j <= cur@.len(),
                crate::scan::spec_rfind(cur@, '/') == crate::scan::spec_rfind(
                    cur@.take(j as int),
                    '/',
                ),
            decreases j,
        {
            proof {
                let part = cur@.take(j as int);
                assert(part[part.len() - 1] == cur@[j - 1]);
                assert(part.drop_last() =~= cur@.take(j - 1));
            }
            j = j - 1;
        }
        if j == 0 {
            proof {
                assert(cur@.take(0) =~= Seq::<char>::empty());
                assert(spec_parent(cur@) is None);
            }
            return RepoInfo { found: false, root: String::new() };
        }
        let ghost before = cur@;
        proof {
            let part = before.take(j as int);
            assert(part[part.len() - 1] == before[j - 1]);
            assert(crate::scan::spec_rfind(part, '/') == j - 1);
            assert(crate::scan::spec_rfind(before, '/') == j - 1);
        }
        // the last separator sits at j - 1
        if j == 1 {
            if cur.len() == 1 {
                proof {
                    assert(spec_parent(before) is None);
                }
                return RepoInfo { found: false, root: String::new() };
            }
            cur.truncate(1);
            proof {
                assert(spec_parent(before) == Some(before.take(1)));
                assert(cur@ == before.take(1));
            }
        } else {
            cur.truncate(j - 1);
            proof {
                assert(spec_parent(before) == Some(before.take(j - 1)));
                assert(cur@ == before.take(j - 1));
            }
        }
    }
}

/// A deep copy of a repository lookup result.
fn copy_repo(r: &RepoInfo) -> (c: RepoInfo)
    ensures
        c.found == r.found,
        c.root@ == r.root@,
{
    let root_chars = chars_of(r.root.as_str());
    RepoInfo { found: r.found, root: string_of(&root_chars) }
}

impl WorkingContext {
    /// The memoized repository lookup for the working directory: computed
    /// from the cached listings on first call, then cached for the life of
    /// the context — later listing recordings do not change it.
    pub fn repo_info(&mut self) -> (r: RepoInfo)
        ensures
            final(self).cwd == old(self).cwd,
            final(self).home == old(self).home,
            final(self).cache == old(self).cache,
            old(self).repo_memo is None ==> match spec_locate(old(self).cache@, old(self).cwd@) {
                Some(root) => r.found && r.root@ == root,
                None => !r.found,
            },
            match old(self).repo_memo {
                Some(m) => r.found == m.found && r.root@ == m.root@,
                None => true,
            },
            match final(self).repo_memo {
                Some(m) => m.found == r.found && m.root@ == r.root@,
                None => false,
            },
    {
        match &self.repo_memo {
            Some(m) => {
                return copy_repo(m);
            },
            None => {},
        }
        let r = locate(self, self.cwd.as_str());
        let memo = copy_repo(&r);
        self.repo_memo = Some(memo);
        r
    }
}

} // verus!
