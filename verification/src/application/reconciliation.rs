//! Reconciliation: what a rule wants of a process, held against what the process has.
//!
//! Each attribute is judged by itself. Where the process has no value there is no verdict;
//! where it has one and the rule wants none, the value is shown for information only; where
//! both are there, they agree or they do not. Numbers agree when they are equal, texts when
//! they are equal apart from the case of ASCII letters.

use vstd::prelude::*;
use crate::application::process_service::{shorten_cgroup, shortened};
use crate::domain::models::{AnanicyRule, ProcessInfo, ProcessView, RuleView, text_of};
use crate::number::{decimal, decimal_string};
use crate::text::{chars_of, eq_ignoring_ascii_case, same_ignoring_ascii_case};

verus! {

/// How a live value stands to the value that a rule wants.
#[derive(Clone, Copy, Debug, PartialEq, Eq)]
pub enum Verdict {
    /// The rule wants a value and the process has it.
    Met,
    /// The rule wants a value and the process has another.
    Mismatch,
    /// The rule wants no value; the process has one.
    InfoOnly,
}

/// The verdict on one attribute, by whether the rule wants a value, whether the process has
/// one, and whether the two agree.
pub open spec fn classify(wanted: bool, present: bool, agree: bool) -> Option<Verdict> {
    if !present {
        None
    } else if !wanted {
        Some(Verdict::InfoOnly)
    } else if agree {
        Some(Verdict::Met)
    } else {
        Some(Verdict::Mismatch)
    }
}

/// The verdict on a numeric attribute.
pub open spec fn number_verdict(want: Option<i32>, have: Option<i32>) -> Option<Verdict> {
    classify(want is Some, have is Some, want == have)
}

/// The verdict on a textual attribute.
pub open spec fn text_verdict(want: Option<Seq<char>>, have: Option<Seq<char>>) -> Option<Verdict> {
    classify(
        want is Some,
        have is Some,
        want is Some && have is Some && eq_ignoring_ascii_case(want->0, have->0),
    )
}

/// There is a verdict exactly where the process has a value; it is for information only
/// exactly where the rule then wants none; and a wanted number is met exactly where the
/// process has that number.
pub proof fn lemma_number_verdicts(want: Option<i32>, have: Option<i32>)
    ensures
        number_verdict(want, have) is Some <==> have is Some,
        number_verdict(want, have) == Some(Verdict::InfoOnly) <==> want is None && have is Some,
        number_verdict(want, have) == Some(Verdict::Met) <==> want is Some && want == have,
        number_verdict(want, have) == Some(Verdict::Mismatch) <==> want is Some && have is Some
            && want != have,
{
}

/// There is a verdict exactly where the process has a value; it is for information only
/// exactly where the rule then wants none; and a wanted text is met exactly where the
/// process has that text, the case of ASCII letters aside.
pub proof fn lemma_text_verdicts(want: Option<Seq<char>>, have: Option<Seq<char>>)
    ensures
        text_verdict(want, have) is Some <==> have is Some,
        text_verdict(want, have) == Some(Verdict::InfoOnly) <==> want is None && have is Some,
        text_verdict(want, have) == Some(Verdict::Met) <==> want is Some && have is Some
            && eq_ignoring_ascii_case(want->0, have->0),
        text_verdict(want, have) == Some(Verdict::Mismatch) <==> want is Some && have is Some
            && !eq_ignoring_ascii_case(want->0, have->0),
{
}

/// Judges a numeric attribute: see [`number_verdict`].
pub fn compare_i32(want: Option<i32>, have: Option<i32>) -> (verdict: Option<Verdict>)
    ensures
        verdict == number_verdict(want, have),
{
    match have {
        None => None,
        Some(had) => match want {
            None => Some(Verdict::InfoOnly),
            Some(wanted) => if wanted == had {
                Some(Verdict::Met)
            } else {
                Some(Verdict::Mismatch)
            },
        },
    }
}

/// Judges a textual attribute: see [`text_verdict`].
pub fn compare_str(want: &Option<String>, have: &Option<String>) -> (verdict: Option<Verdict>)
    ensures
        verdict == text_verdict(text_of(*want), text_of(*have)),
{
    match have {
        None => None,
        Some(had) => match want {
            None => Some(Verdict::InfoOnly),
            Some(wanted) => {
                let a = chars_of(wanted.as_str());
                let b = chars_of(had.as_str());
                if same_ignoring_ascii_case(&a, &b) {
                    Some(Verdict::Met)
                } else {
                    Some(Verdict::Mismatch)
                }
            },
        },
    }
}

/// The verdicts on the attributes of one process under one rule.
#[derive(Clone, Copy, Debug, PartialEq, Eq)]
pub struct Reconciliation {
    pub nice: Option<Verdict>,
    pub latency_nice: Option<Verdict>,
    pub sched: Option<Verdict>,
    pub rtprio: Option<Verdict>,
    pub ioclass: Option<Verdict>,
    pub oom_score_adj: Option<Verdict>,
    pub cgroup: Option<Verdict>,
}

/// The verdicts on the attributes of `process` under `rule`.
pub open spec fn reconciled(rule: RuleView, process: ProcessView) -> Reconciliation {
    Reconciliation {
        nice: number_verdict(rule.nice, process.nice),
        latency_nice: number_verdict(rule.latency_nice, process.latency_nice),
        sched: text_verdict(rule.sched, process.sched_policy),
        rtprio: number_verdict(rule.rtprio, process.rtprio),
        ioclass: text_verdict(rule.ioclass, process.ioclass),
        oom_score_adj: number_verdict(rule.oom_score_adj, process.oom_score_adj),
        cgroup: text_verdict(rule.cgroup, process.cgroup),
    }
}

/// Judges every attribute of `process` under `rule`: see [`reconciled`].
pub fn reconcile(rule: &AnanicyRule, process: &ProcessInfo) -> (verdicts: Reconciliation)
    ensures
        verdicts == reconciled(rule@, process@),
{
    Reconciliation {
        nice: compare_i32(rule.nice, process.nice),
        latency_nice: compare_i32(rule.latency_nice, process.latency_nice),
        sched: compare_str(&rule.sched, &process.sched_policy),
        rtprio: compare_i32(rule.rtprio, process.rtprio),
        ioclass: compare_str(&rule.ioclass, &process.ioclass),
        oom_score_adj: compare_i32(rule.oom_score_adj, process.oom_score_adj),
        cgroup: compare_str(&rule.cgroup, &process.cgroup),
    }
}

/// The process that a rule is held against: the first of those that carry its name.
pub fn current_process(processes: &Vec<ProcessInfo>) -> (current: Option<&ProcessInfo>)
    ensures
        processes.len() == 0 ==> current is None,
        processes.len() > 0 ==> current == Some(&processes[0]),
{
    if processes.len() > 0 {
        Some(&processes[0])
    } else {
        None
    }
}

/// The verdicts on the process that a rule is held against: the first of `processes`, which
/// are those that carry the rule's name. There are none where no such process runs.
pub fn reconcile_first(rule: &AnanicyRule, processes: &Vec<ProcessInfo>) -> (verdicts: Option<
    Reconciliation,
>)
    ensures
        processes.len() == 0 ==> verdicts is None,
        processes.len() > 0 ==> verdicts == Some(reconciled(rule@, processes[0]@)),
{
    match current_process(processes) {
        Some(process) => Some(reconcile(rule, process)),
        None => None,
    }
}

/// The words in which a verdict is reported: `<label> ok`, `<label> <have>! (want <want>)`,
/// `<label>: <have>`, or nothing where there is no verdict.
pub open spec fn status_text(
    label: Seq<char>,
    want: Seq<char>,
    have: Seq<char>,
    verdict: Option<Verdict>,
) -> Seq<char> {
    match verdict {
        Some(Verdict::Met) => label + " ok"@,
        Some(Verdict::Mismatch) => label + " "@ + have + "! (want "@ + want + ")"@,
        Some(Verdict::InfoOnly) => label + ": "@ + have,
        None => Seq::empty(),
    }
}

fn write_status(label: &str, want: &str, have: &str, verdict: Option<Verdict>) -> (out: String)
    ensures
        out@ == status_text(label@, want@, have@, verdict),
{
    let mut out = String::new();
    match verdict {
        Some(Verdict::Met) => {
            out.append(label);
            out.append(" ok");
            assert(out@ =~= label@ + " ok"@);
        },
        Some(Verdict::Mismatch) => {
            out.append(label);
            out.append(" ");
            out.append(have);
            out.append("! (want ");
            out.append(want);
            out.append(")");
            assert(out@ =~= label@ + " "@ + have@ + "! (want "@ + want@ + ")"@);
        },
        Some(Verdict::InfoOnly) => {
            out.append(label);
            out.append(": ");
            out.append(have);
            assert(out@ =~= label@ + ": "@ + have@);
        },
        None => {},
    }
    out
}

/// The decimal text of an optional number; empty where there is none.
pub open spec fn number_text(value: Option<i32>) -> Seq<char> {
    match value {
        Some(n) => decimal(n as int),
        None => Seq::empty(),
    }
}

/// The text of an optional text; empty where there is none.
pub open spec fn plain_text(value: Option<Seq<char>>) -> Seq<char> {
    match value {
        Some(text) => text,
        None => Seq::empty(),
    }
}

/// The shortened form of an optional control-group path; empty where there is none.
pub open spec fn short_text(value: Option<Seq<char>>) -> Seq<char> {
    match value {
        Some(text) => shortened(text),
        None => Seq::empty(),
    }
}

/// Reports the verdict on a numeric attribute in words: see [`status_text`].
pub fn check_i32(label: &str, want: Option<i32>, have: Option<i32>) -> (out: String)
    ensures
        out@ == status_text(
            label@,
            number_text(want),
            number_text(have),
            number_verdict(want, have),
        ),
{
    let wanted = match want {
        Some(n) => decimal_string(n as i64),
        None => String::new(),
    };
    let had = match have {
        Some(n) => decimal_string(n as i64),
        None => String::new(),
    };
    write_status(label, wanted.as_str(), had.as_str(), compare_i32(want, have))
}

/// Reports the verdict on a textual attribute in words: see [`status_text`].
pub fn check_str(label: &str, want: &Option<String>, have: &Option<String>) -> (out: String)
    ensures
        out@ == status_text(
            label@,
            plain_text(text_of(*want)),
            plain_text(text_of(*have)),
            text_verdict(text_of(*want), text_of(*have)),
        ),
{
    let wanted = match want {
        Some(text) => text.clone(),
        None => String::new(),
    };
    let had = match have {
        Some(text) => text.clone(),
        None => String::new(),
    };
    write_status(label, wanted.as_str(), had.as_str(), compare_str(want, have))
}

/// Reports the verdict on the control group in words, with the paths shortened for display;
/// the verdict itself is on the full paths. See [`status_text`].
pub fn check_cgroup(label: &str, want: &Option<String>, have: &Option<String>) -> (out: String)
    ensures
        out@ == status_text(
            label@,
            short_text(text_of(*want)),
            short_text(text_of(*have)),
            text_verdict(text_of(*want), text_of(*have)),
        ),
{
    let wanted = match want {
        Some(text) => shorten_cgroup(text.as_str()),
        None => String::new(),
    };
    let had = match have {
        Some(text) => shorten_cgroup(text.as_str()),
        None => String::new(),
    };
    write_status(label, wanted.as_str(), had.as_str(), compare_str(want, have))
}


/// The words on a numeric attribute: see [`status_text`].
pub open spec fn number_status(label: Seq<char>, want: Option<i32>, have: Option<i32>) -> Seq<char> {
    status_text(label, number_text(want), number_text(have), number_verdict(want, have))
}

/// The words on a textual attribute: see [`status_text`].
pub open spec fn text_status(
    label: Seq<char>,
    want: Option<Seq<char>>,
    have: Option<Seq<char>>,
) -> Seq<char> {
    status_text(label, plain_text(want), plain_text(have), text_verdict(want, have))
}

/// The words on the control group, with the paths shortened: see [`status_text`].
pub open spec fn cgroup_status(
    label: Seq<char>,
    want: Option<Seq<char>>,
    have: Option<Seq<char>>,
) -> Seq<char> {
    status_text(label, short_text(want), short_text(have), text_verdict(want, have))
}

/// The report on one attribute: the verdict, and the words in which it is reported.
#[derive(Debug)]
pub struct StatusReport {
    pub verdict: Verdict,
    pub text: String,
}

/// What a [`StatusReport`] holds, with the words as a sequence of characters.
pub ghost struct ReportView {
    pub verdict: Verdict,
    pub text: Seq<char>,
}

impl View for StatusReport {
    type V = ReportView;

    open spec fn view(&self) -> ReportView {
        ReportView { verdict: self.verdict, text: self.text@ }
    }
}

/// The views of the reports in a list.
pub open spec fn report_views(reports: Seq<StatusReport>) -> Seq<ReportView> {
    Seq::new(reports.len(), |i: int| reports[i]@)
}

/// `reports` with one more behind them, if there is a verdict to report.
pub open spec fn with_report(
    reports: Seq<ReportView>,
    verdict: Option<Verdict>,
    text: Seq<char>,
) -> Seq<ReportView> {
    match verdict {
        Some(v) => reports.push(ReportView { verdict: v, text }),
        None => reports,
    }
}

/// The reports on niceness, latency hint, scheduling policy, I/O class, out-of-memory score
/// and control group, in this order, each with its verdict; an attribute without a verdict
/// has no report.
pub open spec fn status_reports_of(rule: RuleView, process: ProcessView) -> Seq<ReportView> {
    let nice = with_report(
        Seq::empty(),
        number_verdict(rule.nice, process.nice),
        number_status("Nice"@, rule.nice, process.nice),
    );
    let latency = with_report(
        nice,
        number_verdict(rule.latency_nice, process.latency_nice),
        number_status("LatNice"@, rule.latency_nice, process.latency_nice),
    );
    let sched = with_report(
        latency,
        text_verdict(rule.sched, process.sched_policy),
        text_status("Sched"@, rule.sched, process.sched_policy),
    );
    let io = with_report(
        sched,
        text_verdict(rule.ioclass, process.ioclass),
        text_status("IO"@, rule.ioclass, process.ioclass),
    );
    let oom = with_report(
        io,
        number_verdict(rule.oom_score_adj, process.oom_score_adj),
        number_status("OOM"@, rule.oom_score_adj, process.oom_score_adj),
    );
    with_report(
        oom,
        text_verdict(rule.cgroup, process.cgroup),
        cgroup_status("Cgroup"@, rule.cgroup, process.cgroup),
    )
}

/// A verdict is reported in words that are not empty, and without a verdict there are none:
/// to report the attributes that have a verdict is to report the words that are not empty.
pub proof fn lemma_words_where_verdict(
    label: Seq<char>,
    want: Seq<char>,
    have: Seq<char>,
    verdict: Option<Verdict>,
)
    ensures
        status_text(label, want, have, verdict).len() > 0 <==> verdict is Some,
{
    reveal_strlit(" ok");
    reveal_strlit(" ");
    reveal_strlit(": ");
}

fn push_report(reports: &mut Vec<StatusReport>, verdict: Option<Verdict>, text: String)
    ensures
        report_views(final(reports)@) == with_report(report_views(old(reports)@), verdict, text@),
{
    let ghost before = report_views(reports@);
    match verdict {
        Some(v) => {
            let report = StatusReport { verdict: v, text };
            reports.push(report);
            assert(report_views(reports@) =~= before.push(report@));
        },
        None => {},
    }
}

/// Judges the attributes of a process against a rule and puts each verdict in words: see
/// [`status_reports_of`].
pub fn status_reports(rule: &AnanicyRule, process: &ProcessInfo) -> (reports: Vec<StatusReport>)
    ensures
        report_views(reports@) == status_reports_of(rule@, process@),
{
    let mut reports: Vec<StatusReport> = Vec::new();
    assert(report_views(reports@) =~= Seq::<ReportView>::empty());
    push_report(
        &mut reports,
        compare_i32(rule.nice, process.nice),
        check_i32("Nice", rule.nice, process.nice),
    );
    push_report(
        &mut reports,
        compare_i32(rule.latency_nice, process.latency_nice),
        check_i32("LatNice", rule.latency_nice, process.latency_nice),
    );
    push_report(
        &mut reports,
        compare_str(&rule.sched, &process.sched_policy),
        check_str("Sched", &rule.sched, &process.sched_policy),
    );
    push_report(
        &mut reports,
        compare_str(&rule.ioclass, &process.ioclass),
        check_str("IO", &rule.ioclass, &process.ioclass),
    );
    push_report(
        &mut reports,
        compare_i32(rule.oom_score_adj, process.oom_score_adj),
        check_i32("OOM", rule.oom_score_adj, process.oom_score_adj),
    );
    push_report(
        &mut reports,
        compare_str(&rule.cgroup, &process.cgroup),
        check_cgroup("Cgroup", &rule.cgroup, &process.cgroup),
    );
    reports
}

} // verus!
