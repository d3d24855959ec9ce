//! Modules: what a module says of itself, and the table of loaded modules.
//!
//! A module is admitted only if it was built against this engine: its two
//! version strings must be the engine's own.

use vstd::prelude::*;
use vstd::string::StringExecFns;
use std::sync::Arc;
use crate::{GIT_VERSION, RUSTC_VERSION};
use crate::text::{chars_of, ends_with, has_suffix, same_text};

verus! {

/// A module that another module needs.
#[derive(Debug)]
pub struct LibraryDependency {
    pub mod_git_repo: String,
    pub mod_git_commit: String,
    pub mod_id: String,
}

/// The mathematical value of a [`LibraryDependency`].
pub struct LibraryDependencyView {
    pub mod_git_repo: Seq<char>,
    pub mod_git_commit: Seq<char>,
    pub mod_id: Seq<char>,
}

impl View for LibraryDependency {
    type V = LibraryDependencyView;

    open spec fn view(&self) -> LibraryDependencyView {
        LibraryDependencyView {
            mod_git_repo: self.mod_git_repo@,
            mod_git_commit: self.mod_git_commit@,
            mod_id: self.mod_id@,
        }
    }
}

impl Default for LibraryDependency {
    fn default() -> (r: Self)
        ensures
            r@ == (LibraryDependencyView {
                mod_git_repo: Seq::empty(),
                mod_git_commit: Seq::empty(),
                mod_id: Seq::empty(),
            }),
    {
        LibraryDependency {
            mod_git_repo: String::new(),
            mod_git_commit: String::new(),
            mod_id: String::new(),
        }
    }
}

impl Clone for LibraryDependency {
    fn clone(&self) -> (r: Self)
        ensures
            r@ == self@,
    {
        LibraryDependency {
            mod_git_repo: self.mod_git_repo.clone(),
            mod_git_commit: self.mod_git_commit.clone(),
            mod_id: self.mod_id.clone(),
        }
    }
}

/// What a module says of itself.
#[derive(Debug)]
pub struct LibraryMetadata {
    pub mod_id: String,
    pub mod_author: String,
    pub rustc_version: String,
    pub api_version: String,
    pub mod_name: String,
    pub mod_version: String,
    pub mod_description: String,
    pub mod_license: String,
    pub mod_credits: String,
    pub mod_dependencies: Vec<LibraryDependency>,
    pub mod_display_url: String,
    pub mod_issue_tracker: String,
}

/// The mathematical value of a [`LibraryMetadata`].
pub struct LibraryMetadataView {
    pub mod_id: Seq<char>,
    pub mod_author: Seq<char>,
    pub rustc_version: Seq<char>,
    pub api_version: Seq<char>,
    pub mod_name: Seq<char>,
    pub mod_version: Seq<char>,
    pub mod_description: Seq<char>,
    pub mod_license: Seq<char>,
    pub mod_credits: Seq<char>,
    pub mod_dependencies: Seq<LibraryDependencyView>,
    pub mod_display_url: Seq<char>,
    pub mod_issue_tracker: Seq<char>,
}

impl View for LibraryMetadata {
    type V = LibraryMetadataView;

    open spec fn view(&self) -> LibraryMetadataView {
        LibraryMetadataView {
            mod_id: self.mod_id@,
            mod_author: self.mod_author@,
            rustc_version: self.rustc_version@,
            api_version: self.api_version@,
            mod_name: self.mod_name@,
            mod_version: self.mod_version@,
            mod_description: self.mod_description@,
            mod_license: self.mod_license@,
            mod_credits: self.mod_credits@,
            mod_dependencies: self.mod_dependencies@.map_values(|d: LibraryDependency| d@),
            mod_display_url: self.mod_display_url@,
            mod_issue_tracker: self.mod_issue_tracker@,
        }
    }
}

/// The metadata of a module that says nothing of itself but the versions it
/// was built against, which are the engine's.
pub open spec fn blank_metadata() -> LibraryMetadataView {
    LibraryMetadataView {
        mod_id: Seq::empty(),
        mod_author: Seq::empty(),
        rustc_version: RUSTC_VERSION@,
        api_version: GIT_VERSION@,
        mod_name: Seq::empty(),
        mod_version: Seq::empty(),
        mod_description: Seq::empty(),
        mod_license: Seq::empty(),
        mod_credits: Seq::empty(),
        mod_dependencies: Seq::empty(),
        mod_display_url: Seq::empty(),
        mod_issue_tracker: Seq::empty(),
    }
}

impl Default for LibraryMetadata {
    fn default() -> (r: Self)
        ensures
            r@ == blank_metadata(),
    {
        let r = LibraryMetadata {
            mod_id: String::new(),
            mod_author: String::new(),
            rustc_version: RUSTC_VERSION.to_owned(),
            api_version: GIT_VERSION.to_owned(),
            mod_name: String::new(),
            mod_version: String::new(),
            mod_description: String::new(),
            mod_license: String::new(),
            mod_credits: String::new(),
            mod_dependencies: Vec::new(),
            mod_display_url: String::new(),
            mod_issue_tracker: String::new(),
        };
        assert(r@.mod_dependencies =~= Seq::empty());
        r
    }
}

impl Clone for LibraryMetadata {
    fn clone(&self) -> (r: Self)
        ensures
            r@ == self@,
    {
        let mut deps: Vec<LibraryDependency> = Vec::new();
        let mut i: usize = 0;
        while i < self.mod_dependencies.len()
            invariant
                i <= self.mod_dependencies.len(),
                deps.len() == i,
                forall|j: int| 0 <= j < i ==> deps[j]@ == self.mod_dependencies[j]@,
            decreases self.mod_dependencies.len() - i,
        {
            deps.push(self.mod_dependencies[i].clone());
            i += 1;
        }
        let r = LibraryMetadata {
            mod_id: self.mod_id.clone(),
            mod_author: self.mod_author.clone(),
            rustc_version: self.rustc_version.clone(),
            api_version: self.api_version.clone(),
            mod_name: self.mod_name.clone(),
            mod_version: self.mod_version.clone(),
            mod_description: self.mod_description.clone(),
            mod_license: self.mod_license.clone(),
            mod_credits: self.mod_credits.clone(),
            mod_dependencies: deps,
            mod_display_url: self.mod_display_url.clone(),
            mod_issue_tracker: self.mod_issue_tracker.clone(),
        };
        assert(r@.mod_dependencies =~= self@.mod_dependencies);
        r
    }
}

/// Whether a module with this metadata was built against this engine.
pub open spec fn compatible(m: LibraryMetadataView) -> bool {
    m.api_version == GIT_VERSION@ && m.rustc_version == RUSTC_VERSION@
}

impl LibraryMetadata {
    /// Whether the module was built against this engine.
    pub fn is_compatible(&self) -> (r: bool)
        ensures
            r == compatible(self@),
    {
        same_text(self.api_version.as_str(), GIT_VERSION) && same_text(
            self.rustc_version.as_str(),
            RUSTC_VERSION,
        )
    }
}

/// The message that tells of a module built against another engine.
pub open spec fn mismatch_message(m: LibraryMetadataView) -> Seq<char> {
    "Version mismatch - Module API: "@ + m.api_version + ", Engine API: "@ + GIT_VERSION@
        + ", Module Rustc: "@ + m.rustc_version + ", Engine Rustc: "@ + RUSTC_VERSION@
}

impl LibraryMetadata {
    /// The message that tells of this module's versions beside the
    /// engine's.
    pub fn mismatch(&self) -> (r: String)
        ensures
            r@ == mismatch_message(self@),
    {
        let mut e = String::from_str("Version mismatch - Module API: ");
        e.append(self.api_version.as_str());
        e.append(", Engine API: ");
        e.append(GIT_VERSION);
        e.append(", Module Rustc: ");
        e.append(self.rustc_version.as_str());
        e.append(", Engine Rustc: ");
        e.append(RUSTC_VERSION);
        e
    }
}

/// A loaded module.
#[derive(Debug)]
pub struct LibraryInstance {
    pub metadata: Arc<LibraryMetadata>,
}

/// The table of loaded modules, in the order in which they were first
/// loaded. A module that is loaded again takes the place of its earlier
/// self.
#[derive(Debug)]
pub struct LibraryManager {
    pub libraries: Vec<LibraryInstance>,
}

/// The name that bundles of modules end in.
pub open spec fn bundle_suffix() -> Seq<char> {
    ".rustforge.tar"@
}

/// Whether a file of this name is a bundle of a module.
pub fn is_bundle(file_name: &str) -> (r: bool)
    ensures
        r == has_suffix(file_name@, bundle_suffix()),
{
    let name = chars_of(file_name);
    let suffix = chars_of(".rustforge.tar");
    ends_with(&name, &suffix)
}

impl LibraryManager {
    /// The ids of the loaded modules, in order.
    pub open spec fn ids(&self) -> Seq<Seq<char>> {
        self.libraries@.map_values(|l: LibraryInstance| l.metadata@.mod_id)
    }

    /// The metadata of the loaded modules, in order.
    pub open spec fn view(&self) -> Seq<LibraryMetadataView> {
        self.libraries@.map_values(|l: LibraryInstance| l.metadata@)
    }

    /// The place of the module `mod_id` in the table, if it is loaded.
    pub fn find(&self, mod_id: &str) -> (r: Option<usize>)
        ensures
            match r {
                Some(i) => i < self.libraries.len() && self.ids()[i as int] == mod_id@ && forall|
                    j: int,
                | 0 <= j < i ==> self.ids()[j] != mod_id@,
                None => !self.ids().contains(mod_id@),
            },
    {
        let mut i: usize = 0;
        while i < self.libraries.len()
            invariant
                i <= self.libraries.len(),
                forall|j: int| 0 <= j < i ==> self.ids()[j] != mod_id@,
            decreases self.libraries.len() - i,
        {
            if same_text(self.libraries[i].metadata.mod_id.as_str(), mod_id) {
                return Some(i);
            }
            i += 1;
        }
        None
    }
}

/// Whether `after` is `before` with the module `m` loaded: in the place of
/// its earlier self where it was loaded before, at the end where it is new.
pub open spec fn loaded(
    before: Seq<LibraryMetadataView>,
    after: Seq<LibraryMetadataView>,
    m: LibraryMetadataView,
) -> bool {
    if exists|i: int| 0 <= i < before.len() && before[i].mod_id == m.mod_id {
        forall|i: int|
            0 <= i < before.len() && before[i].mod_id == m.mod_id && (forall|j: int|
                0 <= j < i ==> before[j].mod_id != m.mod_id) ==> after == before.update(i, m)
    } else {
        after == before.push(m)
    }
}

/// Whether no two modules of a table share an id.
pub open spec fn distinct_ids(table: Seq<LibraryMetadataView>) -> bool {
    forall|i: int, j: int|
        0 <= i < table.len() && 0 <= j < table.len() && i != j ==> table[i].mod_id
            != table[j].mod_id
}

/// The names among `file_names` that are bundles of modules, in order.
pub fn bundles(file_names: &Vec<String>) -> (r: Vec<String>)
    ensures
        r@.map_values(|s: String| s@) == file_names@.map_values(|s: String| s@).filter(
            |name: Seq<char>| has_suffix(name, bundle_suffix()),
        ),
{
    let ghost names = file_names@.map_values(|s: String| s@);
    let ghost pred = |name: Seq<char>| has_suffix(name, bundle_suffix());
    let mut r: Vec<String> = Vec::new();
    let mut i: usize = 0;
    proof {
        reveal(Seq::filter);
        assert(names.take(0).filter(pred) =~= Seq::<Seq<char>>::empty());
        assert(r@.map_values(|s: String| s@) =~= Seq::<Seq<char>>::empty());
    }
    while i < file_names.len()
        invariant
            i <= file_names.len(),
            names == file_names@.map_values(|s: String| s@),
            pred == |name: Seq<char>| has_suffix(name, bundle_suffix()),
            r@.map_values(|s: String| s@) == names.take(i as int).filter(pred),
        decreases file_names.len() - i,
    {
        let ghost before = r@.map_values(|s: String| s@);
        proof {
            names.take(i as int).lemma_filter_push(names[i as int], pred);
            assert(names.take(i as int).push(names[i as int]) =~= names.take(i + 1));
        }
        if is_bundle(file_names[i].as_str()) {
            r.push(file_names[i].clone());
            assert(r@.map_values(|s: String| s@) =~= before.push(names[i as int]));
        }
        i += 1;
    }
    assert(names.take(i as int) =~= names);
    r
}

impl LibraryManager {
    /// Admits a module that was loaded from its file: where it was built
    /// against this engine, it enters the table; where not, the table stays
    /// as it is and the message says which versions differ.
    pub fn load_library(&mut self, metadata: LibraryMetadata) -> (r: Result<(), String>)
        ensures
            match r {
                Ok(_) => compatible(metadata@) && loaded(old(self)@, final(self)@, metadata@),
                Err(e) => {
                    &&& !compatible(metadata@)
                    &&& e@ == mismatch_message(metadata@)
                    &&& final(self)@ == old(self)@
                },
            },
            distinct_ids(old(self)@) ==> distinct_ids(final(self)@),
    {
        if !metadata.is_compatible() {
            return Err(metadata.mismatch());
        }
        let ghost m = metadata@;
        let ghost before = self@;
        assert(self.ids() =~= before.map_values(|x: LibraryMetadataView| x.mod_id));
        match self.find(metadata.mod_id.as_str()) {
            Some(i) => {
                self.libraries[i] = LibraryInstance { metadata: Arc::new(metadata) };
                assert(self@ =~= before.update(i as int, m));
                assert(before[i as int].mod_id == m.mod_id);
                assert forall|k: int|
                    0 <= k < before.len() && before[k].mod_id == m.mod_id && (forall|j: int|
                        0 <= j < k ==> before[j].mod_id != m.mod_id) implies self@
                    == before.update(k, m) by {
                    assert(old(self).ids()[k] == m.mod_id);
                    if k < i {
                        assert(old(self).ids()[k] != m.mod_id);
                    }
                    if i < k {
                        assert(before[i as int].mod_id != m.mod_id);
                    }
                }
            },
            None => {
                self.libraries.push(LibraryInstance { metadata: Arc::new(metadata) });
                assert(self@ =~= before.push(m));
                assert forall|k: int| 0 <= k < before.len() implies before[k].mod_id
                    != m.mod_id by {
                    assert(old(self).ids()[k] == before[k].mod_id);
                    assert(old(self).ids().contains(before[k].mod_id));
                }
            },
        }
        Ok(())
    }
}

impl Default for LibraryManager {
    fn default() -> (r: Self)
        ensures
            r@ == Seq::<LibraryMetadataView>::empty(),
    {
        let r = LibraryManager { libraries: Vec::new() };
        assert(r@ =~= Seq::<LibraryMetadataView>::empty());
        r
    }
}

} // verus!
