//! The rule files under the base directories as a source of rules.

use vstd::prelude::*;
use crate::domain::RuleRepository as RuleSource;
use crate::domain::models::{EnrichedRule, EnrichedView, rule_views};
use crate::infrastructure::rule_repository::{
    FileView,
    RepositoryView,
    RuleFile,
    RuleRepository,
    all_rules,
};
use crate::text::string_views;

verus! {

/// The base directories and the files found under each. Whatever the order in which the
/// files were found, they are loaded in the order of their paths.
pub struct FsRuleRepository {
    files: RuleRepository,
}

impl View for FsRuleRepository {
    type V = RepositoryView;

    closed spec fn view(&self) -> RepositoryView {
        self.files@
    }
}

impl FsRuleRepository {
    /// A repository for the given base directories, with no file found yet under any.
    pub fn new(base_paths: Vec<String>) -> (repository: Self)
        ensures
            repository@.base_paths == string_views(base_paths@),
            repository@.listings == Seq::new(
                base_paths@.len(),
                |b: int| Seq::<FileView>::empty(),
            ),
    {
        FsRuleRepository { files: RuleRepository::new(base_paths) }
    }

    /// Records a file found under the base directory with index `base`, behind those
    /// recorded for it before. Does nothing, and says so, where there is no such directory.
    pub fn add_file(&mut self, base: usize, path: String, content: Option<String>) -> (added: bool)
        ensures
            added == (base < old(self)@.base_paths.len()),
            final(self)@.base_paths == old(self)@.base_paths,
            final(self)@.listings.len() == old(self)@.listings.len(),
            added ==> final(self)@.listings == old(self)@.listings.update(
                base as int,
                old(self)@.listings[base as int].push((RuleFile { path, content })@),
            ),
            !added ==> final(self)@ == old(self)@,
    {
        self.files.add_file(base, path, content)
    }
}

impl RuleSource for FsRuleRepository {
    open spec fn rules(&self) -> Seq<EnrichedView> {
        all_rules(self@.listings)
    }

    fn load_all(&self) -> (loaded: Vec<EnrichedRule>) {
        self.files.load_all()
    }
}

} // verus!
