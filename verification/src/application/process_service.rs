//! Live processes: how the raw values that the kernel reports become the attributes of a
//! process, and the snapshot of the process table that rules are matched against.

use vstd::prelude::*;
use crate::domain::models::{ProcessInfo, ProcessView, process_views};
use crate::number::{decimal, decimal_string, parse_i32, parsed_i32};
use crate::order::texts;
use crate::text::{
    chars_of,
    line_ranges,
    lines,
    lowercase,
    lowercase_chars,
    matches_at,
    occurs_at,
    pieces,
    same_chars,
    split,
    split_ranges,
    string_of,
    trim_range,
    trimmed,
};

verus! {

/// A control-group path as it is shown: a path directly or further below `/user.slice` that
/// has more than four pieces between its separators is cut down to `.../` and its last two
/// pieces; every other path stays as it is.
pub open spec fn shortened(path: Seq<char>) -> Seq<char> {
    let parts = split(path, '/');
    if parts.len() > 4 && occurs_at(path, "/user.slice"@, 0) {
        ".../"@ + parts[parts.len() - 2] + "/"@ + parts[parts.len() - 1]
    } else {
        path
    }
}

/// Only a path that starts with `/user.slice` and has more than four pieces is cut down;
/// what is shown of it never holds more than its last two pieces.
pub proof fn lemma_shortened(path: Seq<char>)
    ensures
        !occurs_at(path, "/user.slice"@, 0) ==> shortened(path) == path,
        split(path, '/').len() <= 4 ==> shortened(path) == path,
        shortened(path) != path ==> occurs_at(shortened(path), ".../"@, 0),
{
    let parts = split(path, '/');
    if parts.len() > 4 && occurs_at(path, "/user.slice"@, 0) {
        let short = shortened(path);
        assert(short.subrange(0, ".../"@.len() as int) =~= ".../"@);
    }
}

/// Shortens a control-group path for display: see [`shortened`].
pub fn shorten_cgroup(path: &str) -> (out: String)
    ensures
        out@ == shortened(path@),
{
    let chars = chars_of(path);
    let parts = split_ranges(&chars, 0, chars.len(), '/');
    assert(chars@.subrange(0, chars.len() as int) =~= chars@);
    let prefix = chars_of("/user.slice");
    if parts.len() > 4 && prefix.len() <= chars.len() && matches_at(&chars, &prefix, 0) {
        let (a1, b1) = parts[parts.len() - 2];
        let (a2, b2) = parts[parts.len() - 1];
        let ghost all = pieces(chars@, parts@);
        assert(all[parts.len() - 2] == chars@.subrange(a1 as int, b1 as int));
        assert(all[parts.len() - 1] == chars@.subrange(a2 as int, b2 as int));
        let mut out = String::new();
        out.append(".../");
        let parent = string_of(&chars, a1, b1);
        let leaf = string_of(&chars, a2, b2);
        out.append(parent.as_str());
        out.append("/");
        out.append(leaf.as_str());
        assert(out@ =~= shortened(path@));
        out
    } else {
        path.to_owned()
    }
}

/// The niceness of a process as the priority query reports it. Every value that the query
/// hands back is taken as present, also one outside the range from -20 to 19.
pub fn nice_value(reported: i32) -> (nice: Option<i32>)
    ensures
        nice == Some(reported),
{
    Some(reported)
}

/// The name of a scheduling policy by the code that the scheduler reports: nothing for a
/// negative code, which stands for a failed query, and `unknown(<code>)` for a code that has
/// no name.
pub open spec fn sched_policy_text(code: i32) -> Option<Seq<char>> {
    if code < 0 {
        None
    } else if code == 0 {
        Some("normal"@)
    } else if code == 1 {
        Some("fifo"@)
    } else if code == 2 {
        Some("rr"@)
    } else if code == 3 {
        Some("batch"@)
    } else if code == 5 {
        Some("idle"@)
    } else if code == 6 {
        Some("deadline"@)
    } else {
        Some("unknown("@ + decimal(code as int) + ")"@)
    }
}

fn unknown_text(code: i64) -> (out: String)
    ensures
        out@ == "unknown("@ + decimal(code as int) + ")"@,
{
    let mut out = String::new();
    out.append("unknown(");
    let number = decimal_string(code);
    out.append(number.as_str());
    out.append(")");
    assert(out@ =~= "unknown("@ + decimal(code as int) + ")"@);
    out
}

/// Names the scheduling policy with the given code: see [`sched_policy_text`].
pub fn decode_sched_policy(code: i32) -> (name: Option<String>)
    ensures
        crate::domain::models::text_of(name) == sched_policy_text(code),
{
    if code < 0 {
        None
    } else if code == 0 {
        Some("normal".to_owned())
    } else if code == 1 {
        Some("fifo".to_owned())
    } else if code == 2 {
        Some("rr".to_owned())
    } else if code == 3 {
        Some("batch".to_owned())
    } else if code == 5 {
        Some("idle".to_owned())
    } else if code == 6 {
        Some("deadline".to_owned())
    } else {
        Some(unknown_text(code as i64))
    }
}

/// The class that an I/O priority value carries: the value cut to 32 bits, without its low
/// 13 bits.
pub open spec fn io_class_id(reported: i64) -> i32 {
    (reported as i32) >> 13
}

/// The name of the I/O priority class in the value that the I/O priority query reports:
/// nothing for a negative value, which stands for a failed query, and `unknown(<id>)` for a
/// class that has no name.
pub open spec fn io_class_text(reported: i64) -> Option<Seq<char>> {
    let id = io_class_id(reported);
    if reported < 0 {
        None
    } else if id == 0 {
        Some("none"@)
    } else if id == 1 {
        Some("realtime"@)
    } else if id == 2 {
        Some("best-effort"@)
    } else if id == 3 {
        Some("idle"@)
    } else {
        Some("unknown("@ + decimal(id as int) + ")"@)
    }
}

/// Names the I/O priority class of a reported value: see [`io_class_text`].
pub fn decode_io_class(reported: i64) -> (name: Option<String>)
    ensures
        crate::domain::models::text_of(name) == io_class_text(reported),
{
    if reported < 0 {
        return None;
    }
    let value: i32 = #[verifier::truncate]
    (reported as i32);
    let id: i32 = value >> 13;
    if id == 0 {
        Some("none".to_owned())
    } else if id == 1 {
        Some("realtime".to_owned())
    } else if id == 2 {
        Some("best-effort".to_owned())
    } else if id == 3 {
        Some("idle".to_owned())
    } else {
        Some(unknown_text(id as i64))
    }
}

/// For the values that the kernel reports, from 0 to 65535, the class is the value divided
/// by 8192.
pub proof fn lemma_io_class_of_small_value(reported: i64)
    requires
        0 <= reported < 65536,
    ensures
        io_class_id(reported) == reported / 8192,
{
    assert(((reported as i32) >> 13) == reported / 8192) by (bit_vector)
        requires
            0 <= reported < 65536,
    ;
}

/// The adjustment of the out-of-memory score that the text of the per-process file spells:
/// the text without the white space around it, read as a decimal integer of 32 bits.
pub open spec fn oom_score_of(content: Seq<char>) -> Option<i32> {
    parsed_i32(trimmed(content))
}

/// Reads the adjustment of the out-of-memory score: see [`oom_score_of`].
pub fn parse_oom_score(content: &str) -> (score: Option<i32>)
    ensures
        score == oom_score_of(content@),
{
    let chars = chars_of(content);
    assert(chars@.subrange(0, chars.len() as int) =~= chars@);
    let (a, b) = trim_range(&chars, 0, chars.len());
    parse_i32(&chars, a, b)
}

/// The control group that one line of the per-process file names: the third of its three
/// fields separated by `:`, unless that is empty or the root `/`.
pub open spec fn cgroup_of_line(line: Seq<char>) -> Option<Seq<char>> {
    let parts = split(line, ':');
    if parts.len() == 3 && parts[2].len() > 0 && parts[2] != "/"@ {
        Some(parts[2])
    } else {
        None
    }
}

/// The control group that the first of the lines to name one names; the root `/` where none
/// does.
pub open spec fn first_cgroup(all_lines: Seq<Seq<char>>) -> Seq<char>
    decreases all_lines.len(),
{
    if all_lines.len() == 0 {
        "/"@
    } else {
        match cgroup_of_line(all_lines[0]) {
            Some(path) => path,
            None => first_cgroup(all_lines.drop_first()),
        }
    }
}

/// The control group of a process by the text of its per-process file: see [`first_cgroup`].
pub fn parse_cgroup(content: &str) -> (path: String)
    ensures
        path@ == first_cgroup(lines(content@)),
{
    let chars = chars_of(content);
    let ranges = line_ranges(&chars);
    let ghost all_lines = lines(content@);
    let mut i: usize = 0;
    assert(all_lines.skip(0) =~= all_lines);
    proof {
        reveal_strlit("/");
    }
    while i < ranges.len()
        invariant
            i <= ranges.len(),
            chars@ == content@,
            all_lines == lines(content@),
            pieces(chars@, ranges@) == all_lines,
            forall|k: int| 0 <= k < ranges.len() ==> (#[trigger] ranges[k]).0 <= ranges[k].1 <= chars.len(),
            first_cgroup(all_lines) == first_cgroup(all_lines.skip(i as int)),
        decreases ranges.len() - i,
    {
        let (a, b) = ranges[i];
        let ghost line = all_lines[i as int];
        proof {
            reveal_strlit("/");
            assert(line == chars@.subrange(a as int, b as int));
            assert(all_lines.skip(i as int)[0] == line);
            assert(all_lines.skip(i as int).drop_first() =~= all_lines.skip(i + 1));
        }
        let fields = split_ranges(&chars, a, b, ':');
        let ghost parts = pieces(chars@, fields@);
        assert(parts.len() == fields.len());
        if fields.len() == 3 {
            let (fa, fb) = fields[2];
            assert(parts[2] == chars@.subrange(fa as int, fb as int));
            if fb > fa && !(fb - fa == 1 && chars[fa] == '/') {
                proof {
                    if parts[2] == "/"@ {
                        assert(parts[2].len() == 1);
                        assert(parts[2][0] == chars[fa as int]);
                    }
                }
                return string_of(&chars, fa, fb);
            }
            proof {
                if fb > fa {
                    assert(parts[2] =~= "/"@);
                }
            }
        }
        i = i + 1;
    }
    "/".to_owned()
}


/// What was read of one process, as the kernel handed it out.
#[derive(Debug)]
pub struct Readings {
    /// Identifier of the process.
    pub pid: i32,
    /// Name of the process.
    pub name: String,
    /// Result of the priority query.
    pub priority: i32,
    /// Text of the file with the adjustment of the out-of-memory score, if it could be read.
    pub oom_score_adj: Option<String>,
    /// Text of the file with the control groups, if it could be read.
    pub cgroup: Option<String>,
    /// Result of the scheduling-policy query.
    pub sched_policy: i32,
    /// Static priority, if the query for it succeeded.
    pub sched_priority: Option<i32>,
    /// Latency hint, if the extended scheduler query succeeded.
    pub latency_nice: Option<i32>,
    /// Result of the I/O priority query.
    pub io_priority: i64,
}

/// What a [`Readings`] holds, with texts as sequences of characters.
pub ghost struct ReadingsView {
    pub pid: i32,
    pub name: Seq<char>,
    pub priority: i32,
    pub oom_score_adj: Option<Seq<char>>,
    pub cgroup: Option<Seq<char>>,
    pub sched_policy: i32,
    pub sched_priority: Option<i32>,
    pub latency_nice: Option<i32>,
    pub io_priority: i64,
}

impl View for Readings {
    type V = ReadingsView;

    open spec fn view(&self) -> ReadingsView {
        ReadingsView {
            pid: self.pid,
            name: self.name@,
            priority: self.priority,
            oom_score_adj: crate::domain::models::text_of(self.oom_score_adj),
            cgroup: crate::domain::models::text_of(self.cgroup),
            sched_policy: self.sched_policy,
            sched_priority: self.sched_priority,
            latency_nice: self.latency_nice,
            io_priority: self.io_priority,
        }
    }
}

/// The snapshot of a process that its readings give. Each attribute is worked out from its
/// own reading alone: one that could not be read is missing and takes nothing from the rest.
pub open spec fn snapshot_of(readings: ReadingsView) -> ProcessView {
    ProcessView {
        pid: readings.pid,
        name: readings.name,
        nice: Some(readings.priority),
        oom_score_adj: match readings.oom_score_adj {
            Some(content) => oom_score_of(content),
            None => None,
        },
        cgroup: match readings.cgroup {
            Some(content) => Some(first_cgroup(lines(content))),
            None => None,
        },
        sched_policy: sched_policy_text(readings.sched_policy),
        rtprio: readings.sched_priority,
        ioclass: io_class_text(readings.io_priority),
        latency_nice: readings.latency_nice,
    }
}

/// Makes the snapshot of a process of its readings: see [`snapshot_of`].
pub fn read_process(readings: &Readings) -> (process: ProcessInfo)
    ensures
        process@ == snapshot_of(readings@),
{
    ProcessInfo {
        pid: readings.pid,
        name: readings.name.clone(),
        nice: nice_value(readings.priority),
        oom_score_adj: match &readings.oom_score_adj {
            Some(content) => parse_oom_score(content.as_str()),
            None => None,
        },
        cgroup: match &readings.cgroup {
            Some(content) => Some(parse_cgroup(content.as_str())),
            None => None,
        },
        sched_policy: decode_sched_policy(readings.sched_policy),
        rtprio: readings.sched_priority,
        ioclass: decode_io_class(readings.io_priority),
        latency_nice: readings.latency_nice,
    }
}

/// Whether a process of this name is one that a rule of that name targets: the two names
/// are equal in lower case.
pub open spec fn names_match(process_name: Seq<char>, rule_name: Seq<char>) -> bool {
    lowercase(process_name) == lowercase(rule_name)
}

/// The processes of a snapshot that a rule name targets, as a predicate.
pub open spec fn targeted_by(rule_name: Seq<char>) -> spec_fn(ProcessView) -> bool {
    |process: ProcessView| names_match(process.name, rule_name)
}

/// The keys by which processes are found: their names in lower case.
pub open spec fn process_keys(processes: Seq<ProcessView>) -> Seq<Seq<char>> {
    Seq::new(processes.len(), |i: int| lowercase(processes[i].name))
}

/// The processes whose key is `query`, in their order, where `keys` holds the key of each
/// process at the process's index. A process whose key is missing is left out.
pub open spec fn selected_by_key(
    processes: Seq<ProcessView>,
    keys: Seq<Seq<char>>,
    query: Seq<char>,
) -> Seq<ProcessView>
    decreases processes.len(),
{
    if processes.len() == 0 {
        Seq::empty()
    } else {
        let before = selected_by_key(processes.drop_last(), keys, query);
        if processes.len() <= keys.len() && keys[processes.len() - 1] == query {
            before.push(processes.last())
        } else {
            before
        }
    }
}

/// Selecting by the names in lower case finds the processes that the rule name targets.
pub proof fn lemma_selected_by_name(processes: Seq<ProcessView>, rule_name: Seq<char>)
    ensures
        selected_by_key(processes, process_keys(processes), lowercase(rule_name))
            == processes.filter(targeted_by(rule_name)),
{
    lemma_selected_prefix(processes, process_keys(processes), rule_name, processes.len() as int);
    assert(processes.take(processes.len() as int) =~= processes);
}

proof fn lemma_selected_prefix(
    processes: Seq<ProcessView>,
    keys: Seq<Seq<char>>,
    rule_name: Seq<char>,
    n: int,
)
    requires
        0 <= n <= processes.len(),
        keys == process_keys(processes),
    ensures
        selected_by_key(processes.take(n), keys, lowercase(rule_name)) == processes.take(
            n,
        ).filter(targeted_by(rule_name)),
    decreases n,
{
    reveal(Seq::filter);
    let keep = targeted_by(rule_name);
    if n > 0 {
        lemma_selected_prefix(processes, keys, rule_name, n - 1);
        let part = processes.take(n);
        assert(part.drop_last() =~= processes.take(n - 1));
        assert(part.last() == processes[n - 1]);
        assert(keep(part.last()) == names_match(processes[n - 1].name, rule_name));
        assert(keys[n - 1] == lowercase(processes[n - 1].name));
    } else {
        assert(processes.take(0).filter(keep) =~= Seq::<ProcessView>::empty());
    }
}

/// The key of each process: see [`process_keys`].
pub fn keys_of_processes(processes: &Vec<ProcessInfo>) -> (keys: Vec<Vec<char>>)
    ensures
        texts(keys@) == process_keys(process_views(processes@)),
{
    let mut keys: Vec<Vec<char>> = Vec::new();
    let mut i: usize = 0;
    while i < processes.len()
        invariant
            i <= processes.len(),
            keys.len() == i,
            forall|k: int| 0 <= k < i ==> (#[trigger] keys[k])@ == lowercase(processes[k].name@),
        decreases processes.len() - i,
    {
        keys.push(lowercase_chars(processes[i].name.as_str()));
        i = i + 1;
    }
    assert(texts(keys@) =~= process_keys(process_views(processes@)));
    keys
}

/// The processes whose key is `query`, in their order: see [`selected_by_key`].
pub fn select_by_key(processes: &Vec<ProcessInfo>, keys: &Vec<Vec<char>>, query: &Vec<char>) -> (found:
    Vec<ProcessInfo>)
    ensures
        process_views(found@) == selected_by_key(process_views(processes@), texts(keys@), query@),
{
    let ghost views = process_views(processes@);
    let ghost ks = texts(keys@);
    let mut found: Vec<ProcessInfo> = Vec::new();
    let mut i: usize = 0;
    assert(process_views(found@) =~= Seq::<ProcessView>::empty());
    assert(views.take(0) =~= Seq::<ProcessView>::empty());
    while i < processes.len()
        invariant
            i <= processes.len(),
            views == process_views(processes@),
            ks == texts(keys@),
            process_views(found@) == selected_by_key(views.take(i as int), ks, query@),
        decreases processes.len() - i,
    {
        let ghost before = process_views(found@);
        proof {
            let part = views.take(i + 1);
            assert(part.drop_last() =~= views.take(i as int));
            assert(part.last() == views[i as int]);
            assert(part.len() == i + 1);
        }
        if i < keys.len() && same_chars(&keys[i], query) {
            found.push(processes[i].clone());
            assert(process_views(found@) =~= before.push(views[i as int]));
        }
        i = i + 1;
    }
    assert(views.take(processes.len() as int) =~= views);
    found
}

/// Whether one of the keys is `query`.
pub fn any_key_is(keys: &Vec<Vec<char>>, query: &Vec<char>) -> (found: bool)
    ensures
        found == exists|i: int| 0 <= i < keys.len() && (#[trigger] keys[i])@ == query@,
{
    let mut i: usize = 0;
    while i < keys.len()
        invariant
            i <= keys.len(),
            forall|k: int| 0 <= k < i ==> (#[trigger] keys[k])@ != query@,
        decreases keys.len() - i,
    {
        if same_chars(&keys[i], query) {
            return true;
        }
        i = i + 1;
    }
    false
}

/// The snapshot of the process table that rules are matched against. It is replaced as a
/// whole on every refresh and never changed in place.
pub struct ProcessService {
    processes: Vec<ProcessInfo>,
}

impl View for ProcessService {
    type V = Seq<ProcessView>;

    closed spec fn view(&self) -> Seq<ProcessView> {
        process_views(self.processes@)
    }
}

impl ProcessService {
    /// A service that knows of no process yet.
    pub fn new() -> (service: Self)
        ensures
            service@ == Seq::<ProcessView>::empty(),
    {
        let service = ProcessService { processes: Vec::new() };
        assert(service@ =~= Seq::<ProcessView>::empty());
        service
    }

    /// Replaces the snapshot by a new one.
    pub fn update_processes(&mut self, snapshot: Vec<ProcessInfo>)
        ensures
            final(self)@ == process_views(snapshot@),
    {
        self.processes = snapshot;
    }

    /// The processes of the snapshot whose name is `rule_name`, letter case aside, in the
    /// order of the snapshot.
    pub fn get_process_infos(&self, rule_name: &str) -> (found: Vec<ProcessInfo>)
        ensures
            process_views(found@) == self@.filter(targeted_by(rule_name@)),
    {
        let query = lowercase_chars(rule_name);
        let keys = keys_of_processes(&self.processes);
        proof {
            lemma_selected_by_name(self@, rule_name@);
        }
        select_by_key(&self.processes, &keys, &query)
    }

    /// Whether the snapshot holds a process whose name is `rule_name`, letter case aside.
    pub fn is_process_active(&self, rule_name: &str) -> (active: bool)
        ensures
            active == exists|i: int|
                0 <= i < self@.len() && names_match((#[trigger] self@[i]).name, rule_name@),
    {
        let query = lowercase_chars(rule_name);
        let keys = keys_of_processes(&self.processes);
        let active = any_key_is(&keys, &query);
        proof {
            let ks = process_keys(self@);
            assert(texts(keys@) == ks);
            if active {
                let i = choose|i: int| 0 <= i < keys.len() && (#[trigger] keys[i])@ == query@;
                assert(texts(keys@)[i] == keys[i]@);
                assert(names_match(self@[i].name, rule_name@));
            }
            if exists|i: int|
                0 <= i < self@.len() && names_match((#[trigger] self@[i]).name, rule_name@) {
                let i = choose|i: int|
                    0 <= i < self@.len() && names_match((#[trigger] self@[i]).name, rule_name@);
                assert(texts(keys@)[i] == keys[i]@);
                assert(ks[i] == lowercase(self@[i].name));
                assert(keys[i]@ == query@);
            }
        }
        active
    }

    /// Shortens a control-group path for display: see [`shortened`].
    pub fn shorten_cgroup(path: &str) -> (out: String)
        ensures
            out@ == shortened(path@),
    {
        shorten_cgroup(path)
    }
}

} // verus!
