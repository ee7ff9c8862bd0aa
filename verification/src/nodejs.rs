//! The Node.js feature module: activation criteria over the working
//! directory's cached listing, and the segments it emits when active.

use vstd::prelude::*;
use crate::context::{WorkingContext, spec_listing_of};
use crate::scan::{
    DirEntry, ScanCriteria, spec_file_name_match, spec_extension_match, spec_folder_match,
    spec_criteria_satisfied, spec_is_active,
};
use crate::text::{chars_of, string_of, trim_chars, spec_trim};

verus! {

/// One named piece of text emitted by a module.
pub struct Segment {
    pub name: String,
    pub value: String,
}

/// A feature module's rendered content: a prefix, its segments in order,
/// and a suffix.
pub struct Module {
    pub name: String,
    pub prefix: String,
    pub segments: Vec<Segment>,
    pub suffix: String,
}

/// The segment values of a module, concatenated in order.
pub open spec fn spec_segments_text(segs: Seq<Segment>) -> Seq<char>
    decreases segs.len(),
{
    if segs.len() == 0 {
        Seq::empty()
    } else {
        segs[0].value@ + spec_segments_text(segs.drop_first())
    }
}

impl Module {
    /// The module's full text: prefix, segment values, suffix.
    pub open spec fn spec_text(self) -> Seq<char> {
        self.prefix@ + spec_segments_text(self.segments@) + self.suffix@
    }

    /// Renders the module's text.
    pub fn text(&self) -> (r: String)
        ensures
            r@ == self.spec_text(),
    {
        let prefix_chars = chars_of(self.prefix.as_str());
        let mut v = crate::text::copy_chars(&prefix_chars);
        let mut i: usize = 0;
        proof {
            assert(self.segments@.skip(0) =~= self.segments@);
        }
        while i < self.segments.len()
            invariant
                i <= self.segments@.len(),
                self.prefix@ + spec_segments_text(self.segments@) == v@ + spec_segments_text(
                    self.segments@.skip(i as int),
                ),
            decreases self.segments@.len() - i,
        {
            let ghost rest = self.segments@.skip(i as int);
            proof {
                assert(rest[0] == self.segments@[i as int]);
                assert(rest.drop_first() =~= self.segments@.skip(i as int + 1));
            }
            let seg_chars = chars_of(self.segments[i].value.as_str());
            crate::text::append_chars(&mut v, &seg_chars);
            proof {
                assert(spec_segments_text(rest) == rest[0].value@ + spec_segments_text(
                    rest.drop_first(),
                ));
            }
            i = i + 1;
            proof {
                assert(self.prefix@ + spec_segments_text(self.segments@) =~= v@
                    + spec_segments_text(self.segments@.skip(i as int)));
            }
        }
        proof {
            assert(self.segments@.skip(i as int) =~= Seq::<Segment>::empty());
            assert(spec_segments_text(Seq::<Segment>::empty()) == Seq::<char>::empty());
        }
        let suffix_chars = chars_of(self.suffix.as_str());
        crate::text::append_chars(&mut v, &suffix_chars);
        proof {
            assert(v@ =~= self.spec_text());
        }
        string_of(&v)
    }
}

/// The working directory signals a Node.js project: a well-known file
/// name, a source-file extension, or the dependency folder.
pub open spec fn spec_nodejs_project(l: Seq<DirEntry>) -> bool {
    spec_file_name_match(l, seq!["package.json"@, ".node-version"@]) || spec_extension_match(
        l,
        seq!["js"@, "mjs"@, "cjs"@, "ts"@],
    ) || spec_folder_match(l, seq!["node_modules"@])
}

/// The working directory is managed by the esy package manager, which
/// suppresses the Node.js module.
pub open spec fn spec_esy_project(l: Seq<DirEntry>) -> bool {
    spec_folder_match(l, seq!["esy.lock"@])
}

/// Whether the Node.js module is active in the context's working
/// directory: the project criteria satisfied and the esy marker absent.
pub fn nodejs_criteria_active(context: &WorkingContext) -> (r: bool)
    ensures
        r == {
            let l = spec_listing_of(context.cache@, context.cwd@);
            spec_nodejs_project(l) && !spec_esy_project(l)
        },
{
    let incl_set = ScanCriteria {
        files: vec!["package.json".to_owned(), ".node-version".to_owned()],
        extensions: vec!["js".to_owned(), "mjs".to_owned(), "cjs".to_owned(), "ts".to_owned()],
        folders: vec!["node_modules".to_owned()],
    };
    let excl_set = ScanCriteria {
        files: Vec::new(),
        extensions: Vec::new(),
        folders: vec!["esy.lock".to_owned()],
    };
    proof {
        assert(incl_set.files.deep_view() =~~= seq!["package.json"@, ".node-version"@]);
        assert(incl_set.extensions.deep_view() =~~= seq!["js"@, "mjs"@, "cjs"@, "ts"@]);
        assert(incl_set.folders.deep_view() =~~= seq!["node_modules"@]);
        assert(excl_set.files.deep_view() =~~= Seq::<Seq<char>>::empty());
        assert(excl_set.extensions.deep_view() =~~= Seq::<Seq<char>>::empty());
        assert(excl_set.folders.deep_view() =~~= seq!["esy.lock"@]);
    }
    let inclusion = vec![incl_set];
    let exclusion = vec![excl_set];
    let r = context.scan_active(&inclusion, &exclusion);
    proof {
        let l = spec_listing_of(context.cache@, context.cwd@);
        assert(inclusion@[0] == incl_set);
        assert(exclusion@[0] == excl_set);
        assert(spec_criteria_satisfied(l, incl_set) == spec_nodejs_project(l));
        assert(spec_criteria_satisfied(l, excl_set) == spec_esy_project(l)) by {
            assert(!spec_file_name_match(l, excl_set.files.deep_view()));
            assert(!spec_extension_match(l, excl_set.extensions.deep_view()));
        }
        if spec_is_active(l, inclusion@, exclusion@) {
            assert(spec_nodejs_project(l) && !spec_esy_project(l));
        }
        if spec_nodejs_project(l) && !spec_esy_project(l) {
            assert(spec_criteria_satisfied(l, inclusion@[0]));
            assert(forall|j: int|
                0 <= j < exclusion@.len() ==> !spec_criteria_satisfied(l, #[trigger] exclusion@[j]));
            assert(spec_is_active(l, inclusion@, exclusion@));
        }
    }
    r
}

/// Creates the module with the current Node.js version: `Some` exactly
/// when the activation criteria hold and a version string was obtained,
/// and its text is then the prefix, the symbol, the trimmed version and a
/// trailing space.
pub fn module(context: &WorkingContext, node_version: Option<String>) -> (r: Option<Module>)
    ensures
        ({
            let l = spec_listing_of(context.cache@, context.cwd@);
            let active = spec_nodejs_project(l) && !spec_esy_project(l);
            match r {
                Some(m) => active && node_version is Some && m.name@ == "nodejs"@ && m.spec_text()
                    == "via "@ + "\u{2b22} "@ + spec_trim(node_version.unwrap()@) + " "@,
                None => !active || node_version is None,
            }
        }),
{
    if !nodejs_criteria_active(context) {
        return None;
    }
    let version: String = match node_version {
        Some(v) => v,
        None => {
            return None;
        },
    };
    let trimmed = string_of(&trim_chars(&chars_of(version.as_str())));
    let m = Module {
        name: "nodejs".to_owned(),
        prefix: "via ".to_owned(),
        segments: vec![
            Segment { name: "symbol".to_owned(), value: "\u{2b22} ".to_owned() },
            Segment { name: "version".to_owned(), value: trimmed },
        ],
        suffix: " ".to_owned(),
    };
    proof {
        let segs = m.segments@;
        assert(segs.len() == 2);
        let rest1 = segs.drop_first();
        assert(rest1[0] == segs[1]);
        assert(rest1.drop_first() =~= Seq::<Segment>::empty());
        assert(spec_segments_text(rest1.drop_first()) == Seq::<char>::empty());
        assert(spec_segments_text(rest1) == segs[1].value@ + spec_segments_text(
            rest1.drop_first(),
        ));
        assert(spec_segments_text(segs) == segs[0].value@ + spec_segments_text(rest1));
        assert(m.spec_text() =~= "via "@ + "\u{2b22} "@ + spec_trim(node_version.unwrap()@)
            + " "@);
    }
    Some(m)
}

} // verus!
