//! The loader: the rules of all rule files under an ordered list of base directories.
//!
//! The repository does not touch the file system. It is told which files were found under
//! each base directory, with their text, and works out from that what is loaded and in which
//! order: the directories in the order given, the files of a directory in the order of their
//! paths, the rules of a file in the order of the file.

use vstd::prelude::*;
use crate::domain::models::{EnrichedRule, EnrichedView, rule_views};
use crate::infrastructure::rule_parser::{parse_file, parsed_rules};
use crate::order::{
    is_permutation,
    keys_of,
    lemma_order_of_rearranged,
    lemma_sorted_order,
    rearranged,
    sorted_order,
    stable_order,
    texts,
};
use crate::path::{has_rules_extension, is_rule_file, path_key, path_key_of};
use crate::text::string_views;

verus! {

/// A file found under a base directory.
#[derive(Debug)]
pub struct RuleFile {
    /// Path of the file.
    pub path: String,
    /// Text of the file; `None` where it could not be read.
    pub content: Option<String>,
}

/// What a [`RuleFile`] holds, with texts as sequences of characters.
pub ghost struct FileView {
    pub path: Seq<char>,
    pub content: Option<Seq<char>>,
}

impl View for RuleFile {
    type V = FileView;

    open spec fn view(&self) -> FileView {
        FileView {
            path: self.path@,
            content: match self.content {
                Some(text) => Some(text@),
                None => None,
            },
        }
    }
}

/// The views of the files in a list.
pub open spec fn file_views(files: Seq<RuleFile>) -> Seq<FileView> {
    Seq::new(files.len(), |i: int| files[i]@)
}

/// The parts one after the other.
pub open spec fn concat(parts: Seq<Seq<EnrichedView>>) -> Seq<EnrichedView>
    decreases parts.len(),
{
    if parts.len() == 0 {
        Seq::empty()
    } else {
        concat(parts.drop_last()) + parts.last()
    }
}

/// The rules that one file contributes: those of its text if its path names a rule file and
/// its text could be read, none otherwise.
pub open spec fn file_rules(file: FileView) -> Seq<EnrichedView> {
    if is_rule_file(file.path) && file.content is Some {
        parsed_rules(file.content->0, file.path)
    } else {
        Seq::empty()
    }
}

/// The keys by which the files of a directory are ordered.
pub open spec fn file_keys(files: Seq<FileView>) -> Seq<Seq<Seq<char>>> {
    Seq::new(files.len(), |i: int| path_key(files[i].path))
}

/// The rules that the files of one directory contribute, the files taken in the order of
/// their paths.
pub open spec fn dir_rules(files: Seq<FileView>) -> Seq<EnrichedView> {
    let order = sorted_order(file_keys(files));
    concat(Seq::new(files.len(), |i: int| file_rules(files[order[i] as int])))
}

/// The rules of all directories, the directories taken in the order given.
pub open spec fn all_rules(listings: Seq<Seq<FileView>>) -> Seq<EnrichedView> {
    concat(Seq::new(listings.len(), |b: int| dir_rules(listings[b])))
}

/// A directory without files contributes no rules.
pub proof fn lemma_empty_dir_no_rules()
    ensures
        dir_rules(Seq::<FileView>::empty()) == Seq::<EnrichedView>::empty(),
{
    let none = Seq::<FileView>::empty();
    let order = sorted_order(file_keys(none));
    assert(Seq::new(none.len(), |i: int| file_rules(none[order[i] as int])).len() == 0);
}

/// The files put in another order: at each place the file that `places` names there.
pub open spec fn rearranged_files(files: Seq<FileView>, places: Seq<usize>) -> Seq<FileView> {
    Seq::new(files.len(), |i: int| files[places[i] as int])
}

/// The rules of a directory do not depend on the order in which its files were found: files
/// with different paths are loaded in the order of their paths, in whatever order they
/// were recorded.
pub proof fn lemma_found_in_any_order(files: Seq<FileView>, places: Seq<usize>)
    requires
        files.len() <= usize::MAX,
        is_permutation(places, files.len()),
        forall|i: int, j: int|
            0 <= i < j < files.len() ==> path_key(files[i].path) != path_key(files[j].path),
    ensures
        dir_rules(rearranged_files(files, places)) == dir_rules(files),
{
    let moved = rearranged_files(files, places);
    let keys = file_keys(files);
    assert(file_keys(moved) =~= rearranged(keys, places));
    lemma_order_of_rearranged(keys, places);
    lemma_sorted_order(rearranged(keys, places));
    let inner = sorted_order(file_keys(moved));
    let order = sorted_order(keys);
    assert(Seq::new(moved.len(), |i: int| file_rules(moved[inner[i] as int])) =~= Seq::new(
        files.len(),
        |i: int| file_rules(files[order[i] as int]),
    )) by {
        assert forall|i: int| 0 <= i < files.len() implies moved[inner[i] as int]
            == files[order[i] as int] by {
            assert(places[inner[i] as int] == order[i]);
        }
    }
}

/// Leaving out an empty part changes nothing.
proof fn lemma_concat_skips_empty(parts: Seq<Seq<EnrichedView>>, b: int)
    requires
        0 <= b < parts.len(),
        parts[b].len() == 0,
    ensures
        concat(parts.remove(b)) == concat(parts),
    decreases parts.len(),
{
    if b == parts.len() - 1 {
        assert(parts.remove(b) =~= parts.drop_last());
        assert(concat(parts.drop_last()) + parts.last() =~= concat(parts.drop_last()));
    } else {
        assert(parts.remove(b).drop_last() =~= parts.drop_last().remove(b));
        assert(parts.remove(b).last() == parts.last());
        lemma_concat_skips_empty(parts.drop_last(), b);
    }
}

/// A base directory under which no file was found, as one that does not exist, contributes
/// no rules: what is loaded is what is loaded without it.
pub proof fn lemma_missing_dir_changes_nothing(listings: Seq<Seq<FileView>>, b: int)
    requires
        0 <= b < listings.len(),
        listings[b].len() == 0,
    ensures
        all_rules(listings.remove(b)) == all_rules(listings),
{
    lemma_empty_dir_no_rules();
    assert(listings[b] =~= Seq::<FileView>::empty());
    let rest = listings.remove(b);
    let parts = Seq::new(listings.len(), |k: int| dir_rules(listings[k]));
    assert(Seq::new(rest.len(), |k: int| dir_rules(rest[k])) =~= parts.remove(b));
    lemma_concat_skips_empty(parts, b);
}

/// Where no file was found under any base directory, nothing is loaded.
pub proof fn lemma_nothing_found_nothing_loaded(listings: Seq<Seq<FileView>>)
    requires
        forall|b: int| 0 <= b < listings.len() ==> (#[trigger] listings[b]).len() == 0,
    ensures
        all_rules(listings) == Seq::<EnrichedView>::empty(),
    decreases listings.len(),
{
    if listings.len() > 0 {
        let b = listings.len() - 1;
        lemma_missing_dir_changes_nothing(listings, b);
        lemma_nothing_found_nothing_loaded(listings.remove(b));
    } else {
        assert(Seq::new(listings.len(), |k: int| dir_rules(listings[k])) =~= Seq::<
            Seq<EnrichedView>,
        >::empty());
    }
}

/// Loading is repeatable: two loads of the same files give the same rules, with every text
/// and every number alike.
pub proof fn lemma_load_is_repeatable(
    listings: Seq<Seq<FileView>>,
    first: Seq<EnrichedRule>,
    second: Seq<EnrichedRule>,
)
    requires
        rule_views(first) == all_rules(listings),
        rule_views(second) == all_rules(listings),
    ensures
        first.len() == second.len(),
        forall|i: int| 0 <= i < first.len() ==> (#[trigger] first[i])@ == second[i]@,
{
    assert(rule_views(first).len() == first.len());
    assert(rule_views(second).len() == second.len());
    assert forall|i: int| 0 <= i < first.len() implies (#[trigger] first[i])@ == second[i]@ by {
        assert(rule_views(first)[i] == first[i]@);
        assert(rule_views(second)[i] == second[i]@);
    }
}

/// The rules that `file` contributes: see [`file_rules`].
pub fn load_file(file: &RuleFile) -> (rules: Vec<EnrichedRule>)
    ensures
        rule_views(rules@) == file_rules(file@),
{
    match &file.content {
        Some(text) => {
            if has_rules_extension(file.path.as_str()) {
                parse_file(text.as_str(), file.path.as_str())
            } else {
                let rules: Vec<EnrichedRule> = Vec::new();
                assert(rule_views(rules@) =~= Seq::<EnrichedView>::empty());
                rules
            }
        },
        None => {
            let rules: Vec<EnrichedRule> = Vec::new();
            assert(rule_views(rules@) =~= Seq::<EnrichedView>::empty());
            rules
        },
    }
}

/// The rules that the files of one directory contribute, in the order of the paths: see
/// [`dir_rules`].
pub fn load_dir(files: &Vec<RuleFile>) -> (rules: Vec<EnrichedRule>)
    ensures
        rule_views(rules@) == dir_rules(file_views(files@)),
{
    let ghost views = file_views(files@);
    let mut keys: Vec<Vec<Vec<char>>> = Vec::new();
    let mut k: usize = 0;
    while k < files.len()
        invariant
            k <= files.len(),
            keys.len() == k,
            views == file_views(files@),
            forall|i: int| 0 <= i < k ==> texts((#[trigger] keys[i])@) == path_key(views[i].path),
        decreases files.len() - k,
    {
        let key = path_key_of(files[k].path.as_str());
        keys.push(key);
        k = k + 1;
    }
    assert(keys_of(keys@) =~= file_keys(views));
    let order = stable_order(&keys);
    let ghost parts = Seq::new(views.len(), |i: int| file_rules(views[order[i] as int]));
    let mut rules: Vec<EnrichedRule> = Vec::new();
    let mut i: usize = 0;
    assert(parts.take(0) =~= Seq::<Seq<EnrichedView>>::empty());
    assert(rule_views(rules@) =~= Seq::<EnrichedView>::empty());
    while i < order.len()
        invariant
            i <= order.len(),
            order.len() == files.len(),
            views == file_views(files@),
            forall|j: int| 0 <= j < order.len() ==> (#[trigger] order[j]) < files.len(),
            parts == Seq::new(views.len(), |i: int| file_rules(views[order[i] as int])),
            rule_views(rules@) == concat(parts.take(i as int)),
        decreases order.len() - i,
    {
        let mut found = load_file(&files[order[i]]);
        let ghost before = rule_views(rules@);
        let ghost added = rule_views(found@);
        rules.append(&mut found);
        proof {
            assert(parts.take(i + 1).drop_last() =~= parts.take(i as int));
            assert(parts.take(i + 1).last() == added);
            assert(rule_views(rules@) =~= before + added);
        }
        i = i + 1;
    }
    assert(parts.take(order.len() as int) =~= parts);
    rules
}

/// The base directories, in order of rising precedence, and the files found under each.
pub struct RuleRepository {
    base_paths: Vec<String>,
    listings: Vec<Vec<RuleFile>>,
}

/// What a repository holds: its base directories and, for each, the files found under it.
pub ghost struct RepositoryView {
    pub base_paths: Seq<Seq<char>>,
    pub listings: Seq<Seq<FileView>>,
}

/// The views of the listings of all directories.
pub open spec fn listing_views(listings: Seq<Vec<RuleFile>>) -> Seq<Seq<FileView>> {
    Seq::new(listings.len(), |b: int| file_views(listings[b]@))
}

impl View for RuleRepository {
    type V = RepositoryView;

    closed spec fn view(&self) -> RepositoryView {
        RepositoryView {
            base_paths: string_views(self.base_paths@),
            listings: listing_views(self.listings@),
        }
    }
}

impl RuleRepository {
    #[verifier::type_invariant]
    spec fn well_formed(self) -> bool {
        self.listings.len() == self.base_paths.len()
    }

    /// A repository for the given base directories, with no file found yet under any.
    pub fn new(base_paths: Vec<String>) -> (repository: Self)
        ensures
            repository@.base_paths == string_views(base_paths@),
            repository@.listings == Seq::new(
                base_paths@.len(),
                |b: int| Seq::<FileView>::empty(),
            ),
    {
        let mut listings: Vec<Vec<RuleFile>> = Vec::new();
        let mut b: usize = 0;
        while b < base_paths.len()
            invariant
                b <= base_paths.len(),
                listings.len() == b,
                forall|k: int| 0 <= k < b ==> (#[trigger] listings[k])@.len() == 0,
            decreases base_paths.len() - b,
        {
            listings.push(Vec::new());
            b = b + 1;
        }
        let repository = RuleRepository { base_paths, listings };
        assert(repository@.listings =~= Seq::new(
            base_paths@.len(),
            |b: int| Seq::<FileView>::empty(),
        )) by {
            assert forall|k: int| 0 <= k < base_paths@.len() implies repository@.listings[k]
                =~= Seq::<FileView>::empty() by {}
        }
        repository
    }

    /// The base directories, in the order given.
    pub fn base_paths(&self) -> (paths: &Vec<String>)
        ensures
            string_views(paths@) == self@.base_paths,
            self@.listings.len() == self@.base_paths.len(),
    {
        proof {
            use_type_invariant(self);
        }
        &self.base_paths
    }

    /// Records a file found under the base directory with index `base`, behind those
    /// recorded for it before. Does nothing, and says so, where there is no such directory.
    pub fn add_file(&mut self, base: usize, path: String, content: Option<String>) -> (added: bool)
        ensures
            added == (base < old(self)@.base_paths.len()),
            final(self)@.base_paths == old(self)@.base_paths,
            final(self)@.listings.len() == old(self)@.listings.len(),
            added ==> final(self)@.listings == old(self)@.listings.update(
                base as int,
                old(self)@.listings[base as int].push((RuleFile { path, content })@),
            ),
            !added ==> final(self)@ == old(self)@,
    {
        proof {
            use_type_invariant(&*self);
        }
        if base >= self.base_paths.len() {
            return false;
        }
        let ghost before = self@.listings;
        let file = RuleFile { path, content };
        let mut listing: Vec<RuleFile> = Vec::new();
        core::mem::swap(&mut listing, &mut self.listings[base]);
        let ghost old_files = file_views(listing@);
        listing.push(file);
        assert(file_views(listing@) =~= old_files.push(file@));
        core::mem::swap(&mut listing, &mut self.listings[base]);
        assert(self@.listings =~= before.update(base as int, before[base as int].push(file@)));
        true
    }

    /// The rules of the files found under the base directory with index `base`, the files in
    /// the order of their paths; none where there is no such directory.
    pub fn load_rules_from_dir(&self, base: usize) -> (rules: Vec<EnrichedRule>)
        ensures
            base < self@.listings.len() ==> rule_views(rules@) == dir_rules(
                self@.listings[base as int],
            ),
            base >= self@.listings.len() ==> rules@.len() == 0,
    {
        if base < self.listings.len() {
            load_dir(&self.listings[base])
        } else {
            Vec::new()
        }
    }

    /// The rules of all files found, in loading order: the directories in the order given,
    /// the files of a directory in the order of their paths, the rules of a file in the
    /// order of the file. None of them is marked as shadowed.
    pub fn load_all(&self) -> (rules: Vec<EnrichedRule>)
        ensures
            rule_views(rules@) == all_rules(self@.listings),
    {
        let ghost parts = Seq::new(self@.listings.len(), |b: int| dir_rules(self@.listings[b]));
        let mut rules: Vec<EnrichedRule> = Vec::new();
        let mut b: usize = 0;
        assert(parts.take(0) =~= Seq::<Seq<EnrichedView>>::empty());
        assert(rule_views(rules@) =~= Seq::<EnrichedView>::empty());
        while b < self.listings.len()
            invariant
                b <= self.listings.len(),
                parts == Seq::new(self@.listings.len(), |b: int| dir_rules(self@.listings[b])),
                rule_views(rules@) == concat(parts.take(b as int)),
            decreases self.listings.len() - b,
        {
            let mut found = load_dir(&self.listings[b]);
            let ghost before = rule_views(rules@);
            let ghost added = rule_views(found@);
            rules.append(&mut found);
            proof {
                assert(parts.take(b + 1).drop_last() =~= parts.take(b as int));
                assert(parts.take(b + 1).last() == added);
                assert(rule_views(rules@) =~= before + added);
            }
            b = b + 1;
        }
        assert(parts.take(self.listings.len() as int) =~= parts);
        rules
    }
}

} // verus!
