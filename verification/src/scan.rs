//! The module activation scanner: declarative criteria over a directory
//! listing, and their two-phase inclusion/exclusion composition.

use vstd::prelude::*;
use crate::text::{chars_of, chars_eq, subrange_chars};

verus! {

/// One entry of a directory listing, as handed to the scanner.
pub struct DirEntry {
    pub name: String,
    pub is_dir: bool,
}

/// Declarative match criteria: a criteria set is satisfied by a listing if
/// at least one required file name, file extension, or subfolder name is
/// present in it.
pub struct ScanCriteria {
    pub files: Vec<String>,
    pub extensions: Vec<String>,
    pub folders: Vec<String>,
}

/// Index of the last occurrence of `c` in `s`, or -1 if absent.
pub open spec fn spec_rfind(s: Seq<char>, c: char) -> int
    decreases s.len(),
{
    if s.len() == 0 {
        -1
    } else if s[s.len() - 1] == c {
        s.len() - 1
    } else {
        spec_rfind(s.drop_last(), c)
    }
}

pub proof fn lemma_rfind_props(s: Seq<char>, c: char)
    ensures
        spec_rfind(s, c) == -1 ==> (forall|k: int| 0 <= k < s.len() ==> s[k] != c),
        spec_rfind(s, c) != -1 ==> 0 <= spec_rfind(s, c) < s.len() && s[spec_rfind(s, c)] == c && (
        forall|k: int| spec_rfind(s, c) < k < s.len() ==> s[k] != c),
    decreases s.len(),
{
    if s.len() > 0 && s[s.len() - 1] != c {
        lemma_rfind_props(s.drop_last(), c);
        let d = s.drop_last();
        assert(forall|k: int| 0 <= k < s.len() - 1 ==> s[k] == d[k]);
    }
}

/// The final dot-delimited suffix of a file name, if any: a name with no
/// dot past its first character has no extension.
pub open spec fn spec_ext_of(name: Seq<char>) -> Option<Seq<char>> {
    let i = spec_rfind(name, '.');
    if i <= 0 {
        None
    } else {
        Some(name.skip(i + 1))
    }
}

/// The extension of `name`, by the same rule as `spec_ext_of`.
pub fn ext_of(name: &String) -> (r: Option<Vec<char>>)
    ensures
        match r {
            Some(v) => spec_ext_of(name@) == Some(v@),
            None => spec_ext_of(name@) is None,
        },
{
    let chars = chars_of(name.as_str());
    let mut j: usize = chars.len();
    proof {
        assert(chars@.take(j as int) =~= chars@);
    }
    while j > 0 && chars[j - 1] != '.'
        invariant
            j <= chars@.len(),
            chars@ == name@,
            spec_rfind(name@, '.') == spec_rfind(chars@.take(j as int), '.'),
        decreases j,
    {
        proof {
            let part = chars@.take(j as int);
            assert(part[part.len() - 1] == chars@[j - 1]);
            assert(part.drop_last() =~= chars@.take(j - 1));
        }
        j = j - 1;
    }
    if j == 0 {
        proof {
            assert(chars@.take(0) =~= Seq::<char>::empty());
        }
        return None;
    }
    proof {
        let part = chars@.take(j as int);
        assert(part[part.len() - 1] == chars@[j - 1]);
        assert(spec_rfind(part, '.') == j - 1);
    }
    if j == 1 {
        // the only dot leads the name: a hidden file has no extension
        return None;
    }
    let ext = subrange_chars(&chars, j, chars.len());
    proof {
        assert(chars@.subrange(j as int, chars@.len() as int) =~= name@.skip(j as int));
    }
    Some(ext)
}

/// A listed file whose name equals one of the required names.
pub open spec fn spec_file_name_match(l: Seq<DirEntry>, names: Seq<Seq<char>>) -> bool {
    exists|i: int, j: int|
        0 <= i < l.len() && 0 <= j < names.len() && !(#[trigger] l[i]).is_dir && l[i].name@
            == #[trigger] names[j]
}

/// A listed file whose extension equals one of the required extensions.
pub open spec fn spec_extension_match(l: Seq<DirEntry>, exts: Seq<Seq<char>>) -> bool {
    exists|i: int, j: int|
        0 <= i < l.len() && 0 <= j < exts.len() && !(#[trigger] l[i]).is_dir && spec_ext_of(
            l[i].name@,
        ) == Some(#[trigger] exts[j])
}

/// A listed directory whose name equals one of the required folder names.
pub open spec fn spec_folder_match(l: Seq<DirEntry>, folders: Seq<Seq<char>>) -> bool {
    exists|i: int, j: int|
        0 <= i < l.len() && 0 <= j < folders.len() && (#[trigger] l[i]).is_dir && l[i].name@
            == #[trigger] folders[j]
}

/// A criteria set is satisfied if any one of its three kinds of signal is.
pub open spec fn spec_criteria_satisfied(l: Seq<DirEntry>, c: ScanCriteria) -> bool {
    spec_file_name_match(l, c.files.deep_view()) || spec_extension_match(
        l,
        c.extensions.deep_view(),
    ) || spec_folder_match(l, c.folders.deep_view())
}

/// Two-phase activation: some inclusion set satisfied, and no exclusion
/// set satisfied.
pub open spec fn spec_is_active(
    l: Seq<DirEntry>,
    incl: Seq<ScanCriteria>,
    excl: Seq<ScanCriteria>,
) -> bool {
    (exists|i: int| 0 <= i < incl.len() && spec_criteria_satisfied(l, #[trigger] incl[i])) && !(
    exists|j: int| 0 <= j < excl.len() && spec_criteria_satisfied(l, #[trigger] excl[j]))
}

/// Whether `name` equals some element of `names`.
fn name_listed(name: &String, names: &Vec<String>) -> (r: bool)
    ensures
        r == exists|j: int| 0 <= j < names@.len() && name@ == (#[trigger] names@[j])@,
{
    let mut j: usize = 0;
    while j < names.len()
        invariant
            j <= names@.len(),
            forall|k: int| 0 <= k < j ==> name@ != (#[trigger] names@[k])@,
        decreases names@.len() - j,
    {
        if name.eq(&names[j]) {
            return true;
        }
        j = j + 1;
    }
    false
}

/// Whether some element of `exts` equals the characters `ext`.
fn ext_listed(ext: &Vec<char>, exts: &Vec<String>) -> (r: bool)
    ensures
        r == exists|j: int| 0 <= j < exts@.len() && ext@ == (#[trigger] exts@[j])@,
{
    let mut j: usize = 0;
    while j < exts.len()
        invariant
            j <= exts@.len(),
            forall|k: int| 0 <= k < j ==> ext@ != (#[trigger] exts@[k])@,
        decreases exts@.len() - j,
    {
        let cand = chars_of(exts[j].as_str());
        if chars_eq(ext, &cand) {
            return true;
        }
        j = j + 1;
    }
    false
}

/// Whether the listing satisfies the criteria set.
pub fn criteria_satisfied(l: &Vec<DirEntry>, c: &ScanCriteria) -> (r: bool)
    ensures
        r == spec_criteria_satisfied(l@, *c),
{
    let mut i: usize = 0;
    while i < l.len()
        invariant
            i <= l@.len(),
            forall|a: int, b: int|
                0 <= a < i && 0 <= b < c.files.deep_view().len() && !(#[trigger] l@[a]).is_dir
                    ==> l@[a].name@ != #[trigger] c.files.deep_view()[b],
            forall|a: int, b: int|
                0 <= a < i && 0 <= b < c.extensions.deep_view().len() && !(#[trigger] l@[a]).is_dir
                    ==> spec_ext_of(l@[a].name@) != Some(#[trigger] c.extensions.deep_view()[b]),
            forall|a: int, b: int|
                0 <= a < i && 0 <= b < c.folders.deep_view().len() && (#[trigger] l@[a]).is_dir
                    ==> l@[a].name@ != #[trigger] c.folders.deep_view()[b],
        decreases l@.len() - i,
    {
        let entry = &l[i];
        if entry.is_dir {
            if name_listed(&entry.name, &c.folders) {
                proof {
                    let j = choose|j: int|
                        0 <= j < c.folders@.len() && entry.name@ == (#[trigger] c.folders@[j])@;
                    assert(c.folders.deep_view()[j] == c.folders@[j]@);
                }
                return true;
            }
        } else {
            if name_listed(&entry.name, &c.files) {
                proof {
                    let j = choose|j: int|
                        0 <= j < c.files@.len() && entry.name@ == (#[trigger] c.files@[j])@;
                    assert(c.files.deep_view()[j] == c.files@[j]@);
                }
                return true;
            }
            let ext = ext_of(&entry.name);
            match ext {
                Some(e) => {
                    if ext_listed(&e, &c.extensions) {
                        proof {
                            let j = choose|j: int|
                                0 <= j < c.extensions@.len() && e@ == (
                                #[trigger] c.extensions@[j])@;
                            assert(c.extensions.deep_view()[j] == c.extensions@[j]@);
                        }
                        return true;
                    }
                },
                None => {},
            }
        }
        proof {
            let ent = l@[i as int];
            assert(forall|b: int|
                0 <= b < c.files.deep_view().len() ==> c.files.deep_view()[b] == (
                #[trigger] c.files@[b])@);
            assert(forall|b: int|
                0 <= b < c.folders.deep_view().len() ==> c.folders.deep_view()[b] == (
                #[trigger] c.folders@[b])@);
            assert(forall|b: int|
                0 <= b < c.extensions.deep_view().len() ==> c.extensions.deep_view()[b] == (
                #[trigger] c.extensions@[b])@);
            if ent.is_dir {
                assert(forall|b: int|
                    0 <= b < c.folders@.len() ==> ent.name@ != (#[trigger] c.folders@[b])@);
            } else {
                assert(forall|b: int|
                    0 <= b < c.files@.len() ==> ent.name@ != (#[trigger] c.files@[b])@);
                match spec_ext_of(ent.name@) {
                    Some(e) => {
                        assert(forall|b: int|
                            0 <= b < c.extensions@.len() ==> e != (#[trigger] c.extensions@[b])@);
                    },
                    None => {},
                }
            }
        }
        i = i + 1;
    }
    false
}

/// Evaluates the two-phase activation decision against one listing:
/// inclusion sets first, short-circuiting on the first satisfied one, then
/// exclusion sets, any of which suppresses the module.
pub fn is_active(
    l: &Vec<DirEntry>,
    inclusion: &Vec<ScanCriteria>,
    exclusion: &Vec<ScanCriteria>,
) -> (r: bool)
    ensures
        r == spec_is_active(l@, inclusion@, exclusion@),
{
    let mut any_in: bool = false;
    let mut i: usize = 0;
    while i < inclusion.len() && !any_in
        invariant
            i <= inclusion@.len(),
            any_in ==> i > 0 && spec_criteria_satisfied(l@, inclusion@[i - 1]),
            !any_in ==> forall|k: int|
                0 <= k < i ==> !spec_criteria_satisfied(l@, #[trigger] inclusion@[k]),
        decreases inclusion@.len() - i,
    {
        any_in = criteria_satisfied(l, &inclusion[i]);
        i = i + 1;
    }
    if !any_in {
        return false;
    }
    let mut j: usize = 0;
    while j < exclusion.len()
        invariant
            j <= exclusion@.len(),
            forall|k: int| 0 <= k < j ==> !spec_criteria_satisfied(l@, #[trigger] exclusion@[k]),
        decreases exclusion@.len() - j,
    {
        if criteria_satisfied(l, &exclusion[j]) {
            return false;
        }
        j = j + 1;
    }
    true
}

/// An activation scan whose inclusion criteria are all unsatisfied reports
/// the module inactive, whatever its exclusion criteria say.
pub proof fn lemma_inactive_without_inclusion(
    l: Seq<DirEntry>,
    incl: Seq<ScanCriteria>,
    excl: Seq<ScanCriteria>,
)
    requires
        forall|i: int| 0 <= i < incl.len() ==> !spec_criteria_satisfied(l, #[trigger] incl[i]),
    ensures
        !spec_is_active(l, incl, excl),
{
}

/// A satisfied exclusion criteria set suppresses the module even when an
/// inclusion criteria set is satisfied.
pub proof fn lemma_exclusion_suppresses(
    l: Seq<DirEntry>,
    incl: Seq<ScanCriteria>,
    excl: Seq<ScanCriteria>,
    j: int,
)
    requires
        0 <= j < excl.len(),
        spec_criteria_satisfied(l, excl[j]),
    ensures
        !spec_is_active(l, incl, excl),
{
}

} // verus!
