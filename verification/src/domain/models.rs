//! Rules, rules with their provenance, and snapshots of live processes.

use vstd::prelude::*;
use crate::path::{join_path, joined_path};
use crate::text::string_views;

verus! {

/// The characters of an optional text.
pub open spec fn text_of(o: Option<String>) -> Option<Seq<char>> {
    match o {
        Some(s) => Some(s@),
        None => None,
    }
}

/// A copy of an optional text.
pub fn clone_text(o: &Option<String>) -> (r: Option<String>)
    ensures
        r == *o,
{
    match o {
        Some(s) => Some(s.clone()),
        None => None,
    }
}

/// One declarative rule: the scheduling parameters wanted for the processes of one name.
/// Every field is optional; a rule with no field set is legal and matches nothing.
#[derive(Debug)]
pub struct AnanicyRule {
    /// Name of the process that the rule targets.
    pub name: Option<String>,
    /// Free-form category label.
    pub rule_type: Option<String>,
    /// Wanted niceness.
    pub nice: Option<i32>,
    /// Wanted latency hint.
    pub latency_nice: Option<i32>,
    /// Wanted scheduling policy.
    pub sched: Option<String>,
    /// Wanted static priority.
    pub rtprio: Option<i32>,
    /// Wanted I/O priority class.
    pub ioclass: Option<String>,
    /// Wanted adjustment of the out-of-memory score.
    pub oom_score_adj: Option<i32>,
    /// Wanted control group.
    pub cgroup: Option<String>,
}

/// What an [`AnanicyRule`] holds, with texts as sequences of characters.
pub ghost struct RuleView {
    pub name: Option<Seq<char>>,
    pub rule_type: Option<Seq<char>>,
    pub nice: Option<i32>,
    pub latency_nice: Option<i32>,
    pub sched: Option<Seq<char>>,
    pub rtprio: Option<i32>,
    pub ioclass: Option<Seq<char>>,
    pub oom_score_adj: Option<i32>,
    pub cgroup: Option<Seq<char>>,
}

impl View for AnanicyRule {
    type V = RuleView;

    open spec fn view(&self) -> RuleView {
        RuleView {
            name: text_of(self.name),
            rule_type: text_of(self.rule_type),
            nice: self.nice,
            latency_nice: self.latency_nice,
            sched: text_of(self.sched),
            rtprio: self.rtprio,
            ioclass: text_of(self.ioclass),
            oom_score_adj: self.oom_score_adj,
            cgroup: text_of(self.cgroup),
        }
    }
}

impl Clone for AnanicyRule {
    fn clone(&self) -> (r: Self)
        ensures
            r == *self,
    {
        AnanicyRule {
            name: clone_text(&self.name),
            rule_type: clone_text(&self.rule_type),
            nice: self.nice,
            latency_nice: self.latency_nice,
            sched: clone_text(&self.sched),
            rtprio: self.rtprio,
            ioclass: clone_text(&self.ioclass),
            oom_score_adj: self.oom_score_adj,
            cgroup: clone_text(&self.cgroup),
        }
    }
}

/// A rule with its provenance.
#[derive(Debug)]
pub struct EnrichedRule {
    /// The rule itself.
    pub data: AnanicyRule,
    /// The comment block that precedes the rule in its file, lines joined by newlines.
    pub context_comment: Option<String>,
    /// Path of the file that the rule was read from.
    pub source_file: String,
    /// Whether a rule loaded later carries the same name.
    pub shadowed: bool,
}

/// What an [`EnrichedRule`] holds, with texts as sequences of characters.
pub ghost struct EnrichedView {
    pub data: RuleView,
    pub context_comment: Option<Seq<char>>,
    pub source_file: Seq<char>,
    pub shadowed: bool,
}

impl View for EnrichedRule {
    type V = EnrichedView;

    open spec fn view(&self) -> EnrichedView {
        EnrichedView {
            data: self.data@,
            context_comment: text_of(self.context_comment),
            source_file: self.source_file@,
            shadowed: self.shadowed,
        }
    }
}

impl Clone for EnrichedRule {
    fn clone(&self) -> (r: Self)
        ensures
            r == *self,
    {
        EnrichedRule {
            data: self.data.clone(),
            context_comment: clone_text(&self.context_comment),
            source_file: self.source_file.clone(),
            shadowed: self.shadowed,
        }
    }
}

/// The views of the rules in a list.
pub open spec fn rule_views(rules: Seq<EnrichedRule>) -> Seq<EnrichedView> {
    Seq::new(rules.len(), |i: int| rules[i]@)
}

/// A snapshot of one live process.
#[derive(Debug)]
pub struct ProcessInfo {
    pub pid: i32,
    pub name: String,
    pub nice: Option<i32>,
    pub oom_score_adj: Option<i32>,
    pub cgroup: Option<String>,
    pub sched_policy: Option<String>,
    pub rtprio: Option<i32>,
    pub ioclass: Option<String>,
    pub latency_nice: Option<i32>,
}

/// What a [`ProcessInfo`] holds, with texts as sequences of characters.
pub ghost struct ProcessView {
    pub pid: i32,
    pub name: Seq<char>,
    pub nice: Option<i32>,
    pub oom_score_adj: Option<i32>,
    pub cgroup: Option<Seq<char>>,
    pub sched_policy: Option<Seq<char>>,
    pub rtprio: Option<i32>,
    pub ioclass: Option<Seq<char>>,
    pub latency_nice: Option<i32>,
}

impl View for ProcessInfo {
    type V = ProcessView;

    open spec fn view(&self) -> ProcessView {
        ProcessView {
            pid: self.pid,
            name: self.name@,
            nice: self.nice,
            oom_score_adj: self.oom_score_adj,
            cgroup: text_of(self.cgroup),
            sched_policy: text_of(self.sched_policy),
            rtprio: self.rtprio,
            ioclass: text_of(self.ioclass),
            latency_nice: self.latency_nice,
        }
    }
}

impl Clone for ProcessInfo {
    fn clone(&self) -> (r: Self)
        ensures
            r == *self,
    {
        ProcessInfo {
            pid: self.pid,
            name: self.name.clone(),
            nice: self.nice,
            oom_score_adj: self.oom_score_adj,
            cgroup: clone_text(&self.cgroup),
            sched_policy: clone_text(&self.sched_policy),
            rtprio: self.rtprio,
            ioclass: clone_text(&self.ioclass),
            latency_nice: self.latency_nice,
        }
    }
}

/// The views of the processes in a list.
pub open spec fn process_views(processes: Seq<ProcessInfo>) -> Seq<ProcessView> {
    Seq::new(processes.len(), |i: int| processes[i]@)
}


/// The settings: the base directories of the rules, from the lowest precedence to the highest.
#[derive(Debug)]
pub struct AppConfig {
    pub rule_paths: Vec<String>,
}

impl View for AppConfig {
    type V = Seq<Seq<char>>;

    open spec fn view(&self) -> Seq<Seq<char>> {
        string_views(self.rule_paths@)
    }
}

/// The base directories of a fresh configuration for a user whose home directory is `home`:
/// the two system directories, then the user's own below `home`. Without a home directory
/// the current directory takes its place.
pub open spec fn default_rule_paths(home: Option<Seq<char>>) -> Seq<Seq<char>> {
    seq![
        "/etc/ananicy.d"@,
        "/usr/lib/ananicy.d"@,
        joined_path(
            match home {
                Some(dir) => dir,
                None => "."@,
            },
            ".config/ananicy.d"@,
        ),
    ]
}

/// The index of the first text in `paths` that equals `path`, or the length of `paths` if
/// none does.
pub open spec fn first_position(paths: Seq<Seq<char>>, path: Seq<char>) -> int
    decreases paths.len(),
{
    if paths.len() == 0 || paths[0] == path {
        0
    } else {
        1 + first_position(paths.drop_first(), path)
    }
}

proof fn lemma_first_position(paths: Seq<Seq<char>>, path: Seq<char>, k: int)
    requires
        0 <= k <= paths.len(),
        forall|j: int| 0 <= j < k ==> paths[j] != path,
        k == paths.len() || paths[k] == path,
    ensures
        first_position(paths, path) == k,
    decreases k,
{
    if k > 0 {
        lemma_first_position(paths.drop_first(), path, k - 1);
    }
}

/// Asks `dirs::home_dir` for the home directory of the user. Nothing is claimed of the
/// answer: it depends on the environment in which the program runs.
#[verifier::external_body]
pub(crate) fn home_dir() -> (home: Option<String>) {
    dirs::home_dir().map(|dir| dir.to_string_lossy().into_owned())
}

impl Default for AppConfig {
    /// A fresh configuration for the user that runs the program: see
    /// [`default_rule_paths`], with the home directory that the environment gives.
    fn default() -> (config: Self)
        ensures
            exists|home: Option<Seq<char>>| config@ == #[trigger] default_rule_paths(home),
    {
        let home = home_dir();
        let config = AppConfig::default_for_home(clone_text(&home));
        assert(config@ == default_rule_paths(text_of(home)));
        config
    }
}

impl AppConfig {
    /// A fresh configuration: see [`default_rule_paths`].
    pub fn default_for_home(home: Option<String>) -> (config: Self)
        ensures
            config@ == default_rule_paths(text_of(home)),
    {
        let user_dir = match &home {
            Some(dir) => join_path(dir.as_str(), ".config/ananicy.d"),
            None => join_path(".", ".config/ananicy.d"),
        };
        let mut rule_paths: Vec<String> = Vec::new();
        rule_paths.push("/etc/ananicy.d".to_owned());
        rule_paths.push("/usr/lib/ananicy.d".to_owned());
        rule_paths.push(user_dir);
        let config = AppConfig { rule_paths };
        assert(config@ =~= default_rule_paths(text_of(home)));
        config
    }

    /// Adds `path` behind the base directories, unless it is among them already. Says
    /// whether it was added.
    pub fn add_rule_path(&mut self, path: String) -> (added: bool)
        ensures
            added == !old(self)@.contains(path@),
            added ==> final(self)@ == old(self)@.push(path@),
            !added ==> final(self)@ == old(self)@,
    {
        let ghost before = self@;
        let mut i: usize = 0;
        while i < self.rule_paths.len()
            invariant
                i <= self.rule_paths.len(),
                before == self@,
                *self == *old(self),
                forall|k: int| 0 <= k < i ==> before[k] != path@,
            decreases self.rule_paths.len() - i,
        {
            if self.rule_paths[i] == path {
                assert(before[i as int] == path@);
                return false;
            }
            i = i + 1;
        }
        self.rule_paths.push(path);
        assert(self@ =~= before.push(path@));
        true
    }

    /// Removes the first base directory that equals `path`, if there is one. Says whether
    /// one was removed.
    pub fn remove_rule_path(&mut self, path: &String) -> (removed: bool)
        ensures
            removed == old(self)@.contains(path@),
            removed ==> final(self)@ == old(self)@.remove(first_position(old(self)@, path@)),
            !removed ==> final(self)@ == old(self)@,
    {
        let ghost before = self@;
        let mut i: usize = 0;
        while i < self.rule_paths.len()
            invariant
                i <= self.rule_paths.len(),
                before == self@,
                *self == *old(self),
                forall|k: int| 0 <= k < i ==> before[k] != path@,
            decreases self.rule_paths.len() - i,
        {
            if self.rule_paths[i] == *path {
                assert(before[i as int] == path@);
                proof {
                    lemma_first_position(before, path@, i as int);
                }
                let _ = self.rule_paths.remove(i);
                assert(self@ =~= before.remove(i as int));
                return true;
            }
            i = i + 1;
        }
        false
    }
}

} // verus!
