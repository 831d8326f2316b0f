//! A report on whether the server can work: what is in order, what needs attention and what fails.
use vstd::prelude::*;
use vstd::string::*;

use crate::duplicate::{lemma_views_push, optional, views};
use crate::text::{chars_of, text_of, trim, trimmed};

pub mod profiles;
pub mod report;
pub mod runtimes;
pub mod server;

verus! {

pub const AUTH_KEY_REMEDIATION: &'static str =
    "Run:\n  norted-server auth keys create --name <LABEL>";

pub const MODELS_REMEDIATION: &'static str =
    "Run:\n  norted-server models list\nThen configure an existing local model directory under [models].paths.";

pub const RUNTIMES_REMEDIATION: &'static str = "Run:\n  norted-server runtimes list";

#[derive(Debug, Clone, Copy, PartialEq, Eq, Structural)]
pub enum DoctorStatus {
    Pass,
    Warning,
    Fail,
}

impl DoctorStatus {
    pub open spec fn name(self) -> Seq<char> {
        match self {
            DoctorStatus::Pass => "PASS"@,
            DoctorStatus::Warning => "WARN"@,
            DoctorStatus::Fail => "FAIL"@,
        }
    }

    pub fn label(self) -> (result: &'static str)
        ensures
            result@ == self.name(),
    {
        match self {
            DoctorStatus::Pass => "PASS",
            DoctorStatus::Warning => "WARN",
            DoctorStatus::Fail => "FAIL",
        }
    }
}

/// The outcome of a check.
#[derive(Debug)]
pub struct DoctorFinding {
    pub code: String,
    pub category: String,
    pub status: DoctorStatus,
    pub message: String,
    pub detail: Option<String>,
    pub remediation: Vec<String>,
}

#[verifier::ext_equal]
pub struct FindingView {
    pub code: Seq<char>,
    pub category: Seq<char>,
    pub status: DoctorStatus,
    pub message: Seq<char>,
    pub detail: Option<Seq<char>>,
    pub remediation: Seq<Seq<char>>,
}

impl View for DoctorFinding {
    type V = FindingView;

    open spec fn view(&self) -> FindingView {
        FindingView {
            code: self.code@,
            category: self.category@,
            status: self.status,
            message: self.message@,
            detail: optional(self.detail),
            remediation: views(self.remediation@),
        }
    }
}

/// A check that found all in order.
pub open spec fn passed(
    code: Seq<char>,
    category: Seq<char>,
    message: Seq<char>,
    detail: Option<Seq<char>>,
) -> FindingView {
    FindingView {
        code,
        category,
        status: DoctorStatus::Pass,
        message,
        detail,
        remediation: Seq::empty(),
    }
}

/// A check that found something to do about.
pub open spec fn flagged(
    code: Seq<char>,
    category: Seq<char>,
    status: DoctorStatus,
    message: Seq<char>,
    detail: Option<Seq<char>>,
    remediation: Seq<char>,
) -> FindingView {
    FindingView { code, category, status, message, detail, remediation: seq![remediation] }
}

pub fn pass(code: &str, category: &str, message: &str, detail: Option<String>) -> (result:
    DoctorFinding)
    ensures
        result@ == passed(code@, category@, message@, optional(detail)),
{
    let remediation: Vec<String> = Vec::new();
    proof {
        assert(views(remediation@) =~= Seq::empty());
    }
    DoctorFinding {
        code: code.to_owned(),
        category: category.to_owned(),
        status: DoctorStatus::Pass,
        message: message.to_owned(),
        detail,
        remediation,
    }
}

pub fn finding(
    code: &str,
    category: &str,
    status: DoctorStatus,
    message: &str,
    detail: Option<String>,
    remediation: &[&str],
) -> (result: DoctorFinding)
    ensures
        result@ == (FindingView {
            code: code@,
            category: category@,
            status,
            message: message@,
            detail: optional(detail),
            remediation: remediation@.map_values(|line: &str| line@),
        }),
{
    let ghost expected = remediation@.map_values(|line: &str| line@);
    let mut lines: Vec<String> = Vec::new();
    let mut i: usize = 0;
    proof {
        assert(views(lines@) =~= expected.take(0));
    }
    while i < remediation.len()
        invariant
            i <= remediation@.len(),
            expected == remediation@.map_values(|line: &str| line@),
            views(lines@) == expected.take(i as int),
        decreases remediation@.len() - i,
    {
        let line = remediation[i].to_owned();
        proof {
            lemma_views_push(lines@, line);
            assert(expected.take(i + 1) =~= expected.take(i as int).push(expected[i as int]));
        }
        lines.push(line);
        i += 1;
    }
    proof {
        assert(expected.take(expected.len() as int) =~= expected);
    }
    DoctorFinding {
        code: code.to_owned(),
        category: category.to_owned(),
        status,
        message: message.to_owned(),
        detail,
        remediation: lines,
    }
}

pub(crate) fn flag(
    code: &str,
    category: &str,
    status: DoctorStatus,
    message: &str,
    detail: Option<String>,
    remediation: &str,
) -> (result: DoctorFinding)
    ensures
        result@ == flagged(code@, category@, status, message@, optional(detail), remediation@),
{
    let result = finding(code, category, status, message, detail, &[remediation]);
    proof {
        assert(result@.remediation =~= seq![remediation@]);
    }
    result
}

pub const MAX_DETAIL_CHARS: usize = 800;

/// A text on one line.
pub open spec fn on_one_line(text: Seq<char>) -> Seq<char> {
    text.map_values(
        |c: char|
            if c == '\r' || c == '\n' {
                ' '
            } else {
                c
            },
    )
}

/// A text on one line and not too long: without blanks around it, and cut with an ellipsis.
pub open spec fn bounded(text: Seq<char>) -> Seq<char> {
    let line = on_one_line(trimmed(text));
    if line.len() <= MAX_DETAIL_CHARS {
        line
    } else {
        line.take(MAX_DETAIL_CHARS as int).push('…')
    }
}

pub fn bounded_detail(detail: &str) -> (result: String)
    ensures
        result@ == bounded(detail@),
{
    let chars = chars_of(trim(detail).as_str());
    let ghost line = on_one_line(trimmed(detail@));
    let mut result: Vec<char> = Vec::new();
    let mut i: usize = 0;
    while i < chars.len() && i < MAX_DETAIL_CHARS
        invariant
            i <= chars@.len(),
            i <= MAX_DETAIL_CHARS,
            line == on_one_line(chars@),
            result@ == line.take(i as int),
        decreases chars@.len() - i,
    {
        let c = chars[i];
        let kept = if c == '\r' || c == '\n' {
            ' '
        } else {
            c
        };
        proof {
            assert(line[i as int] == kept);
            assert(line.take(i + 1) =~= line.take(i as int).push(kept));
        }
        result.push(kept);
        i += 1;
    }
    if chars.len() > MAX_DETAIL_CHARS {
        result.push('…');
    } else {
        proof {
            assert(line.take(line.len() as int) =~= line);
        }
    }
    text_of(&result)
}

/// The bounded form of a text that may be missing.
pub open spec fn bounded_optional(text: Option<Seq<char>>) -> Option<Seq<char>> {
    match text {
        Some(text) => Some(bounded(text)),
        None => None,
    }
}

/// What is reported never has more than one line, nor more than the bound and an ellipsis.
pub proof fn law_details_are_bounded(text: Seq<char>)
    ensures
        bounded(text).len() <= MAX_DETAIL_CHARS + 1,
        !bounded(text).contains('\n'),
        !bounded(text).contains('\r'),
{
    let line = on_one_line(trimmed(text));
    let result = bounded(text);
    assert forall|i: int| 0 <= i < result.len() implies result[i] != '\n' && result[i] != '\r' by {
        if i < line.len() && i < MAX_DETAIL_CHARS {
            assert(result[i] == line[i]);
        }
    }
}

/// How many checks came out in which way.
#[derive(Debug, Clone, Copy, PartialEq, Eq, Structural)]
pub struct DoctorSummary {
    pub passes: usize,
    pub warnings: usize,
    pub failures: usize,
    pub problems: usize,
}

/// How many checks have a status.
pub open spec fn count_of(checks: Seq<FindingView>, status: DoctorStatus) -> nat
    decreases checks.len(),
{
    if checks.len() == 0 {
        0
    } else {
        count_of(checks.drop_last(), status) + if checks.last().status == status {
            1nat
        } else {
            0nat
        }
    }
}

#[derive(Debug)]
pub struct DoctorReport {
    pub status: DoctorStatus,
    pub summary: DoctorSummary,
    pub checks: Vec<DoctorFinding>,
}

#[verifier::ext_equal]
pub struct ReportView {
    pub status: DoctorStatus,
    pub summary: DoctorSummary,
    pub checks: Seq<FindingView>,
}

impl View for DoctorReport {
    type V = ReportView;

    open spec fn view(&self) -> ReportView {
        ReportView {
            status: self.status,
            summary: self.summary,
            checks: views(self.checks@),
        }
    }
}

/// The report of some checks: it fails where one fails, and warns where none fails but one warns.
/// Problems are warnings and failures.
pub open spec fn reported(checks: Seq<FindingView>) -> ReportView {
    let failures = count_of(checks, DoctorStatus::Fail);
    let warnings = count_of(checks, DoctorStatus::Warning);
    ReportView {
        status: if failures > 0 {
            DoctorStatus::Fail
        } else if warnings > 0 {
            DoctorStatus::Warning
        } else {
            DoctorStatus::Pass
        },
        summary: DoctorSummary {
            passes: count_of(checks, DoctorStatus::Pass) as usize,
            warnings: warnings as usize,
            failures: failures as usize,
            problems: (warnings + failures) as usize,
        },
        checks,
    }
}

impl DoctorReport {
    pub fn new(checks: Vec<DoctorFinding>) -> (result: DoctorReport)
        ensures
            result@ == reported(views(checks@)),
    {
        let ghost all = views(checks@);
        let mut passes: usize = 0;
        let mut warnings: usize = 0;
        let mut failures: usize = 0;
        let mut i: usize = 0;
        while i < checks.len()
            invariant
                i <= checks@.len(),
                all == views(checks@),
                passes + warnings + failures == i,
                passes == count_of(all.take(i as int), DoctorStatus::Pass),
                warnings == count_of(all.take(i as int), DoctorStatus::Warning),
                failures == count_of(all.take(i as int), DoctorStatus::Fail),
            decreases checks@.len() - i,
        {
            proof {
                assert(all.take(i + 1).drop_last() =~= all.take(i as int));
                assert(all.take(i + 1).last() == checks@[i as int]@);
            }
            match checks[i].status {
                DoctorStatus::Pass => {
                    passes += 1;
                },
                DoctorStatus::Warning => {
                    warnings += 1;
                },
                DoctorStatus::Fail => {
                    failures += 1;
                },
            }
            i += 1;
        }
        proof {
            assert(all.take(all.len() as int) =~= all);
        }
        let status = if failures > 0 {
            DoctorStatus::Fail
        } else if warnings > 0 {
            DoctorStatus::Warning
        } else {
            DoctorStatus::Pass
        };
        DoctorReport {
            status,
            summary: DoctorSummary { passes, warnings, failures, problems: warnings + failures },
            checks,
        }
    }

    pub fn has_failures(&self) -> (result: bool)
        ensures
            result == (self@.summary.failures > 0),
    {
        self.summary.failures > 0
    }
}

/// Every check is counted once, as a pass, a warning or a failure, and what is no pass is a problem. A
/// report fails if and only if a check fails, and passes if and only if all checks pass.
pub proof fn law_summary_counts_every_check(checks: Seq<FindingView>)
    requires
        checks.len() <= usize::MAX,
    ensures
        ({
            let report = reported(checks);
            &&& report.summary.passes + report.summary.problems == checks.len()
            &&& report.summary.problems == report.summary.warnings + report.summary.failures
            &&& (report.status == DoctorStatus::Fail) == (exists|i: int|
                0 <= i < checks.len() && (#[trigger] checks[i]).status == DoctorStatus::Fail)
            &&& (report.status == DoctorStatus::Pass) == (forall|i: int|
                0 <= i < checks.len() ==> (#[trigger] checks[i]).status == DoctorStatus::Pass)
        }),
{
    lemma_counts(checks);
    lemma_count(checks, DoctorStatus::Fail);
    lemma_count(checks, DoctorStatus::Warning);
    let report = reported(checks);
    if report.status == DoctorStatus::Pass {
        assert forall|i: int| 0 <= i < checks.len() implies (#[trigger] checks[i]).status
            == DoctorStatus::Pass by {
            assert(checks[i].status != DoctorStatus::Fail);
            assert(checks[i].status != DoctorStatus::Warning);
        }
    }
}

proof fn lemma_counts(checks: Seq<FindingView>)
    ensures
        count_of(checks, DoctorStatus::Pass) + count_of(checks, DoctorStatus::Warning) + count_of(
            checks,
            DoctorStatus::Fail,
        ) == checks.len(),
    decreases checks.len(),
{
    if checks.len() > 0 {
        lemma_counts(checks.drop_last());
    }
}

proof fn lemma_count(checks: Seq<FindingView>, status: DoctorStatus)
    ensures
        (count_of(checks, status) > 0) == (exists|i: int|
            0 <= i < checks.len() && (#[trigger] checks[i]).status == status),
    decreases checks.len(),
{
    if checks.len() > 0 {
        let rest = checks.drop_last();
        lemma_count(rest, status);
        if count_of(checks, status) > 0 {
            if checks.last().status == status {
                assert(checks[checks.len() - 1].status == status);
            } else {
                let i = choose|i: int| 0 <= i < rest.len() && (#[trigger] rest[i]).status == status;
                assert(checks[i] == rest[i]);
            }
        }
        if exists|i: int| 0 <= i < checks.len() && (#[trigger] checks[i]).status == status {
            let i = choose|i: int| 0 <= i < checks.len() && (#[trigger] checks[i]).status == status;
            if i < rest.len() {
                assert(rest[i] == checks[i]);
            }
        }
    }
}

/// Appends findings to others.
pub(crate) fn extend(checks: &mut Vec<DoctorFinding>, more: Vec<DoctorFinding>)
    ensures
        views(final(checks)@) == views(old(checks)@) + views(more@),
{
    let ghost before = checks@;
    let mut more = more;
    let ghost added = more@;
    checks.append(&mut more);
    proof {
        assert(checks@ =~= before + added);
        assert(views(checks@) =~= views(before) + views(added));
    }
}

/// A text that is short enough, on one line and without blanks around it is shown as it is; of a longer one
/// the beginning and an ellipsis.
pub proof fn law_short_details_are_shown_whole(text: Seq<char>)
    requires
        text.len() > 0,
        !crate::text::is_space(text[0]),
        !crate::text::is_space(text.last()),
        forall|i: int| 0 <= i < text.len() ==> #[trigger] text[i] != '\n' && text[i] != '\r',
    ensures
        text.len() <= MAX_DETAIL_CHARS ==> bounded(text) == text,
        text.len() > MAX_DETAIL_CHARS ==> bounded(text) == text.take(MAX_DETAIL_CHARS as int).push(
            '…',
        ),
        bounded_optional(Some(text)) == Some(bounded(text)),
        bounded_optional(None) is None,
{
    assert(trimmed(text) == text);
    assert(on_one_line(text) =~= text);
}

/// What is in order has nothing to do about it; what is flagged has one thing. Each is told with its code,
/// its category and its words.
pub proof fn law_findings_are_told_as_they_are(
    code: Seq<char>,
    category: Seq<char>,
    status: DoctorStatus,
    message: Seq<char>,
    detail: Option<Seq<char>>,
    remediation: Seq<char>,
)
    ensures
        ({
            let (good, bad) = (
                passed(code, category, message, detail),
                flagged(code, category, status, message, detail, remediation),
            );
            &&& good.status == DoctorStatus::Pass && good.remediation.len() == 0
            &&& good.code == code && good.category == category && good.message == message
            &&& good.detail == detail
            &&& bad.status == status && bad.remediation == seq![remediation]
            &&& bad.code == code && bad.category == category && bad.message == message
            &&& bad.detail == detail
        }),
        DoctorStatus::Pass.name() == "PASS"@,
        DoctorStatus::Warning.name() == "WARN"@,
        DoctorStatus::Fail.name() == "FAIL"@,
{
}

/// A report counts each check under its status, and holds the checks in their order.
pub proof fn law_checks_are_counted(checks: Seq<FindingView>, next: FindingView, status: DoctorStatus)
    ensures
        count_of(checks.push(next), status) == count_of(checks, status) + if next.status == status {
            1nat
        } else {
            0nat
        },
        count_of(Seq::empty(), status) == 0,
        reported(checks).checks == checks,
{
    assert(checks.push(next).drop_last() =~= checks);
    assert(checks.push(next).last() == next);
}

} // verus!
