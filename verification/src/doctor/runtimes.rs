//! Checks of the runtime store, of the installed runtimes and of the choices between them.
use vstd::prelude::*;
use vstd::string::*;

use crate::duplicate::{lemma_views_push, optional, views};
use crate::outside::{quoted, quoted_text};
use crate::resolution::{
    inspected, resolve_from_local_inspection, InstalledRuntimeStatus, RuntimeLocalInspection,
    StatusView, WantedModel,
};
use crate::runtimes::{CompatibilityView, RuntimeAcquisitionMethod, RuntimeCompatibility};
use crate::selections::RuntimeSelections;
use crate::store::{RuntimeStoreError, StoreErrorView};
use crate::table::{ordered, Table};
use crate::text::{
    ascii_upper, cat2, cat3, cat5, contains_text, decimal, decimal_text, join, joined, same,
    to_ascii_upper,
};

use super::server::{list1, list2};
use super::{
    bounded, bounded_detail, bounded_optional, extend, flag, flagged, pass, passed, DoctorFinding,
    DoctorStatus, FindingView, RUNTIMES_REMEDIATION,
};

verus! {

/// What is wrong with something in the runtime store.
#[derive(Debug, Clone, Copy, PartialEq, Eq, Structural)]
pub enum RuntimeStoreIssueKind {
    Io,
    InvalidManifest,
    UnsafePath,
    ProvenanceConflict,
}

#[derive(Debug)]
pub struct RuntimeStoreIssue {
    pub kind: RuntimeStoreIssueKind,
    pub message: String,
}

/// What is wrong where an error of the runtime store tells of it.
pub open spec fn error_kind(error: StoreErrorView) -> RuntimeStoreIssueKind {
    match error {
        StoreErrorView::InvalidManifest { .. } => RuntimeStoreIssueKind::InvalidManifest,
        StoreErrorView::UnsafePath(_) => RuntimeStoreIssueKind::UnsafePath,
        StoreErrorView::ProvenanceConflict { .. } => RuntimeStoreIssueKind::ProvenanceConflict,
        _ => RuntimeStoreIssueKind::Io,
    }
}

/// The issue that an error of the runtime store tells of.
pub fn store_issue(error: &RuntimeStoreError) -> (result: RuntimeStoreIssue)
    ensures
        result.kind == error_kind(error@),
        result.message@ == error@.text(),
{
    let kind = match error {
        RuntimeStoreError::InvalidManifest { .. } => RuntimeStoreIssueKind::InvalidManifest,
        RuntimeStoreError::UnsafePath(_) => RuntimeStoreIssueKind::UnsafePath,
        RuntimeStoreError::ProvenanceConflict { .. } => RuntimeStoreIssueKind::ProvenanceConflict,
        _ => RuntimeStoreIssueKind::Io,
    };
    RuntimeStoreIssue { kind, message: error.message() }
}

/// What looking at the runtimes of this host found.
#[derive(Debug)]
pub struct RuntimeFindings {
    pub store_error: Option<String>,
    pub store_issues: Vec<RuntimeStoreIssue>,
    pub adapter_warnings: Vec<String>,
    pub installed: Vec<InstalledRuntimeStatus>,
    pub selections: Option<RuntimeSelections>,
    pub selections_error: Option<String>,
}

impl StatusView {
    /// Whether a runtime was installed by the server.
    pub open spec fn managed(self) -> bool {
        self.runtime.manifest.acquisition_method != RuntimeAcquisitionMethod::ExternalBinary
    }
}

fn is_managed(status: &InstalledRuntimeStatus) -> (result: bool)
    ensures
        result == status@.managed(),
{
    match status.runtime.manifest.acquisition_method {
        RuntimeAcquisitionMethod::ExternalBinary => false,
        _ => true,
    }
}

/// How many of the runtimes were installed by the server.
pub open spec fn managed_count(installed: Seq<StatusView>) -> nat
    decreases installed.len(),
{
    if installed.len() == 0 {
        0
    } else {
        managed_count(installed.drop_last()) + if installed.last().managed() {
            1nat
        } else {
            0nat
        }
    }
}

fn count_managed(installed: &Vec<InstalledRuntimeStatus>) -> (result: usize)
    ensures
        result == managed_count(views(installed@)),
{
    let ghost all = views(installed@);
    let mut count: usize = 0;
    let mut i: usize = 0;
    while i < installed.len()
        invariant
            i <= installed@.len(),
            count <= i,
            all == views(installed@),
            count == managed_count(all.take(i as int)),
        decreases installed@.len() - i,
    {
        proof {
            assert(all.take(i + 1).drop_last() =~= all.take(i as int));
            assert(all.take(i + 1).last() == installed@[i as int]@);
        }
        if is_managed(&installed[i]) {
            count += 1;
        }
        i += 1;
    }
    proof {
        assert(all.take(all.len() as int) =~= all);
    }
    count
}

pub open spec fn store_checks(found: RuntimeFindings) -> Seq<FindingView> {
    match found.store_error {
        Some(error) => seq![
            flagged(
                "runtime.store_unavailable"@,
                "runtimes"@,
                DoctorStatus::Fail,
                "Managed runtime store is inaccessible or structurally unsafe."@,
                Some(bounded(error@)),
                RUNTIMES_REMEDIATION@,
            ),
        ],
        None => if found.store_issues@.len() == 0 {
            seq![
                passed(
                    "runtime.store"@,
                    "runtimes"@,
                    "Managed runtime store contains "@ + decimal(
                        managed_count(views(found.installed@)),
                    ) + " valid runtime(s)."@,
                    None,
                ),
            ]
        } else {
            Seq::empty()
        },
    }
}

pub open spec fn issue_code(kind: RuntimeStoreIssueKind) -> Seq<char> {
    match kind {
        RuntimeStoreIssueKind::Io => "runtime.store_io"@,
        RuntimeStoreIssueKind::InvalidManifest => "runtime.manifest_invalid"@,
        RuntimeStoreIssueKind::UnsafePath => "runtime.path_unsafe"@,
        RuntimeStoreIssueKind::ProvenanceConflict => "runtime.provenance_invalid"@,
    }
}

pub open spec fn issue_check(issue: RuntimeStoreIssue) -> FindingView {
    flagged(
        issue_code(issue.kind),
        "runtimes"@,
        DoctorStatus::Fail,
        "An installed managed runtime failed integrity validation."@,
        Some(bounded(issue.message@)),
        RUNTIMES_REMEDIATION@,
    )
}

pub open spec fn external_check(warning: Seq<char>) -> FindingView {
    flagged(
        "runtime.external_invalid"@,
        "runtimes"@,
        DoctorStatus::Warning,
        "An external runtime could not be included."@,
        Some(bounded(warning)),
        "Review `norted-server engines list`; managed runtime packs remain separate."@,
    )
}

pub open spec fn runtime_check(status: StatusView) -> FindingView {
    let manifest = status.runtime.manifest;
    match status.compatibility {
        CompatibilityView::NeedsAttention(reason) => flagged(
            "runtime.needs_attention"@,
            "runtimes"@,
            DoctorStatus::Warning,
            "Runtime "@ + manifest.runtime_id + " needs attention."@,
            Some(bounded(reason)),
            RUNTIMES_REMEDIATION@,
        ),
        CompatibilityView::Incompatible(reason) => flagged(
            "runtime.incompatible"@,
            "runtimes"@,
            DoctorStatus::Warning,
            "Runtime "@ + manifest.runtime_id + " is incompatible with this host or adapter."@,
            Some(bounded(reason)),
            RUNTIMES_REMEDIATION@,
        ),
        _ => passed(
            "runtime.compatible."@ + manifest.runtime_id,
            "runtimes"@,
            "Runtime "@ + manifest.runtime_id + " is compatible with this host and adapter."@,
            Some(
                manifest.identity.engine_id + " "@ + manifest.identity.version + " / "@
                    + manifest.identity.variant,
            ),
        ),
    }
}

/// The checks of the first installed runtimes. Those that were not installed by the server are not
/// checked here.
pub open spec fn installed_checks(installed: Seq<StatusView>) -> Seq<FindingView>
    decreases installed.len(),
{
    if installed.len() == 0 {
        Seq::empty()
    } else if installed.last().managed() {
        installed_checks(installed.drop_last()).push(runtime_check(installed.last()))
    } else {
        installed_checks(installed.drop_last())
    }
}

fn runtime_finding(status: &InstalledRuntimeStatus) -> (result: DoctorFinding)
    ensures
        result@ == runtime_check(status@),
{
    let manifest = &status.runtime.manifest;
    let id = manifest.runtime_id.as_str();
    match &status.compatibility {
        RuntimeCompatibility::NeedsAttention(reason) => flag(
            "runtime.needs_attention",
            "runtimes",
            DoctorStatus::Warning,
            cat3("Runtime ", id, " needs attention.").as_str(),
            Some(bounded_detail(reason.as_str())),
            RUNTIMES_REMEDIATION,
        ),
        RuntimeCompatibility::Incompatible(reason) => flag(
            "runtime.incompatible",
            "runtimes",
            DoctorStatus::Warning,
            cat3("Runtime ", id, " is incompatible with this host or adapter.").as_str(),
            Some(bounded_detail(reason.as_str())),
            RUNTIMES_REMEDIATION,
        ),
        _ => pass(
            cat2("runtime.compatible.", id).as_str(),
            "runtimes",
            cat3("Runtime ", id, " is compatible with this host and adapter.").as_str(),
            Some(
                cat5(
                    manifest.identity.engine_id.as_str(),
                    " ",
                    manifest.identity.version.as_str(),
                    " / ",
                    manifest.identity.variant.as_str(),
                ),
            ),
        ),
    }
}

/// How a compatibility is written in diagnostics.
pub open spec fn compatibility_text(compatibility: CompatibilityView) -> Seq<char> {
    match compatibility {
        CompatibilityView::Recommended => "Recommended"@,
        CompatibilityView::Compatible => "Compatible"@,
        CompatibilityView::NeedsAttention(reason) => "NeedsAttention("@ + quoted(reason) + ")"@,
        CompatibilityView::Incompatible(reason) => "Incompatible("@ + quoted(reason) + ")"@,
    }
}

pub fn write_compatibility(compatibility: &RuntimeCompatibility) -> (result: String)
    ensures
        result@ == compatibility_text(compatibility@),
{
    match compatibility {
        RuntimeCompatibility::Recommended => "Recommended".to_owned(),
        RuntimeCompatibility::Compatible => "Compatible".to_owned(),
        RuntimeCompatibility::NeedsAttention(reason) => cat3(
            "NeedsAttention(",
            quoted_text(reason.as_str()).as_str(),
            ")",
        ),
        RuntimeCompatibility::Incompatible(reason) => cat3(
            "Incompatible(",
            quoted_text(reason.as_str()).as_str(),
            ")",
        ),
    }
}

/// The last of the runtimes that has an identifier.
pub open spec fn status_of(installed: Seq<StatusView>, id: Seq<char>) -> Option<StatusView>
    decreases installed.len(),
{
    if installed.len() == 0 {
        None
    } else if installed.last().runtime.manifest.runtime_id == id {
        Some(installed.last())
    } else {
        status_of(installed.drop_last(), id)
    }
}

fn find_status<'a>(installed: &'a Vec<InstalledRuntimeStatus>, id: &str) -> (result: Option<
    &'a InstalledRuntimeStatus,
>)
    ensures
        crate::updates::referenced(result) == status_of(views(installed@), id@),
{
    let ghost all = views(installed@);
    let mut i: usize = installed.len();
    proof {
        assert(all.take(i as int) =~= all);
    }
    while i > 0
        invariant
            i <= installed@.len(),
            all == views(installed@),
            status_of(all, id@) == status_of(all.take(i as int), id@),
        decreases i,
    {
        let at: usize = i - 1;
        proof {
            assert(all.take(i as int).last() == installed@[at as int]@);
            assert(all.take(i as int).drop_last() =~= all.take(at as int));
        }
        if same(installed[at].runtime.manifest.runtime_id.as_str(), id) {
            return Some(&installed[at]);
        }
        i = at;
    }
    None
}

/// What is said of a choice: of a runtime that is missing, of one that cannot be used, or of one that is
/// in order.
pub open spec fn selection_check(
    target: Seq<char>,
    runtime_id: Seq<char>,
    status: Option<StatusView>,
    clear_command: Seq<char>,
) -> FindingView {
    match status {
        None => flagged(
            "runtime.selection_missing"@,
            "runtime_selections"@,
            DoctorStatus::Warning,
            "The "@ + target + " selection references missing runtime `"@ + runtime_id + "`."@,
            Some("Automatic fallback would be required."@),
            "Run:\n  norted-server runtimes list\n  "@ + clear_command,
        ),
        Some(status) => if !status.compatibility.usable() {
            flagged(
                "runtime.selection_incompatible"@,
                "runtime_selections"@,
                DoctorStatus::Warning,
                "The "@ + target + " selection references an incompatible runtime."@,
                Some(runtime_id + ": "@ + compatibility_text(status.compatibility)),
                "Run:\n  norted-server runtimes list\n  "@ + clear_command,
            )
        } else {
            passed(
                "runtime.selection"@,
                "runtime_selections"@,
                "The "@ + target + " runtime selection is installed and host-compatible."@,
                Some(runtime_id),
            )
        },
    }
}

pub fn inspect_selection(
    target: &str,
    runtime_id: &str,
    status: Option<&InstalledRuntimeStatus>,
    clear_command: &str,
) -> (result: DoctorFinding)
    ensures
        result@ == selection_check(
            target@,
            runtime_id@,
            crate::updates::referenced(status),
            clear_command@,
        ),
{
    match status {
        None => flag(
            "runtime.selection_missing",
            "runtime_selections",
            DoctorStatus::Warning,
            cat5(
                "The ",
                target,
                " selection references missing runtime `",
                runtime_id,
                "`.",
            ).as_str(),
            Some("Automatic fallback would be required.".to_owned()),
            cat2("Run:\n  norted-server runtimes list\n  ", clear_command).as_str(),
        ),
        Some(status) => {
            if !status.compatibility.is_usable() {
                flag(
                    "runtime.selection_incompatible",
                    "runtime_selections",
                    DoctorStatus::Warning,
                    cat3(
                        "The ",
                        target,
                        " selection references an incompatible runtime.",
                    ).as_str(),
                    Some(
                        cat3(
                            runtime_id,
                            ": ",
                            write_compatibility(&status.compatibility).as_str(),
                        ),
                    ),
                    cat2("Run:\n  norted-server runtimes list\n  ", clear_command).as_str(),
                )
            } else {
                pass(
                    "runtime.selection",
                    "runtime_selections",
                    cat3(
                        "The ",
                        target,
                        " runtime selection is installed and host-compatible.",
                    ).as_str(),
                    Some(runtime_id.to_owned()),
                )
            }
        },
    }
}

pub open spec fn format_selection_check(
    format: Seq<char>,
    runtime_id: Seq<char>,
    installed: Seq<StatusView>,
) -> FindingView {
    let status = status_of(installed, runtime_id);
    if status is Some && !status->0.runtime.manifest.supported_formats.contains(format) {
        flagged(
            "runtime.selection_incompatible"@,
            "runtime_selections"@,
            DoctorStatus::Warning,
            "The "@ + ascii_upper(format)
                + " default selection references a runtime that does not support that format."@,
            Some(runtime_id),
            "Run:\n  norted-server runtimes clear-selection --format "@ + format,
        )
    } else {
        selection_check(
            ascii_upper(format) + " default"@,
            runtime_id,
            status,
            "norted-server runtimes clear-selection --format "@ + format,
        )
    }
}

fn format_selection_finding(
    format: &str,
    runtime_id: &str,
    installed: &Vec<InstalledRuntimeStatus>,
) -> (result: DoctorFinding)
    ensures
        result@ == format_selection_check(format@, runtime_id@, views(installed@)),
{
    let status = find_status(installed, runtime_id);
    let upper = to_ascii_upper(format);
    match status {
        Some(status) => {
            if !contains_text(&status.runtime.manifest.supported_formats, format) {
                return flag(
                    "runtime.selection_incompatible",
                    "runtime_selections",
                    DoctorStatus::Warning,
                    cat3(
                        "The ",
                        upper.as_str(),
                        " default selection references a runtime that does not support that format.",
                    ).as_str(),
                    Some(runtime_id.to_owned()),
                    cat2(
                        "Run:\n  norted-server runtimes clear-selection --format ",
                        format,
                    ).as_str(),
                );
            }
        },
        None => {},
    }
    inspect_selection(
        cat2(upper.as_str(), " default").as_str(),
        runtime_id,
        status,
        cat2("norted-server runtimes clear-selection --format ", format).as_str(),
    )
}

pub open spec fn model_selection_checks(
    model_id: Seq<char>,
    runtime_id: Seq<char>,
    installed: Seq<StatusView>,
    models: Seq<Seq<char>>,
) -> Seq<FindingView> {
    let last = selection_check(
        "model "@ + model_id,
        runtime_id,
        status_of(installed, runtime_id),
        "norted-server runtimes clear-selection --model "@ + model_id,
    );
    if models.contains(model_id) {
        seq![last]
    } else {
        seq![
            flagged(
                "runtime.selection_model_missing"@,
                "runtime_selections"@,
                DoctorStatus::Warning,
                "Runtime selection references missing model `"@ + model_id + "`."@,
                Some("Selected runtime: "@ + runtime_id),
                "Run:\n  norted-server runtimes clear-selection --model "@ + model_id,
            ),
            last,
        ]
    }
}

fn model_selection_findings(
    model_id: &str,
    runtime_id: &str,
    installed: &Vec<InstalledRuntimeStatus>,
    models: &Vec<String>,
) -> (result: Vec<DoctorFinding>)
    ensures
        views(result@) == model_selection_checks(
            model_id@,
            runtime_id@,
            views(installed@),
            views(models@),
        ),
{
    let last = inspect_selection(
        cat2("model ", model_id).as_str(),
        runtime_id,
        find_status(installed, runtime_id),
        cat2("norted-server runtimes clear-selection --model ", model_id).as_str(),
    );
    if contains_text(models, model_id) {
        list1(last)
    } else {
        list2(
            flag(
                "runtime.selection_model_missing",
                "runtime_selections",
                DoctorStatus::Warning,
                cat3(
                    "Runtime selection references missing model `",
                    model_id,
                    "`.",
                ).as_str(),
                Some(cat2("Selected runtime: ", runtime_id)),
                cat2(
                    "Run:\n  norted-server runtimes clear-selection --model ",
                    model_id,
                ).as_str(),
            ),
            last,
        )
    }
}

/// The checks of the choices for the first of some formats.
pub open spec fn format_checks(
    chosen: Map<Seq<char>, Seq<char>>,
    installed: Seq<StatusView>,
    count: int,
) -> Seq<FindingView>
    decreases count,
{
    if count <= 0 {
        Seq::empty()
    } else {
        let format = ordered(chosen.dom())[count - 1];
        format_checks(chosen, installed, count - 1).push(
            format_selection_check(format, chosen[format], installed),
        )
    }
}

/// The checks of the choices for the first of some models.
pub open spec fn override_checks(
    chosen: Map<Seq<char>, Seq<char>>,
    installed: Seq<StatusView>,
    models: Seq<Seq<char>>,
    count: int,
) -> Seq<FindingView>
    decreases count,
{
    if count <= 0 {
        Seq::empty()
    } else {
        let model = ordered(chosen.dom())[count - 1];
        override_checks(chosen, installed, models, count - 1) + model_selection_checks(
            model,
            chosen[model],
            installed,
            models,
        )
    }
}

pub open spec fn selection_checks(found: RuntimeFindings, models: Seq<Seq<char>>) -> Seq<FindingView> {
    match found.selections {
        None => seq![
            flagged(
                "runtime.selections_invalid"@,
                "runtime_selections"@,
                DoctorStatus::Fail,
                "Runtime selections are unreadable or invalid."@,
                bounded_optional(optional(found.selections_error)),
                "Correct runtime-selections.json using the current schema. Doctor will not clear selections."@,
            ),
        ],
        Some(selections) => {
            let installed = views(found.installed@);
            let formats = selections@.format_defaults;
            let overrides = selections@.model_overrides;
            seq![
                passed(
                    "runtime.selections_schema"@,
                    "runtime_selections"@,
                    "Runtime selection state is readable and valid."@,
                    None,
                ),
            ] + format_checks(formats, installed, ordered(formats.dom()).len() as int)
                + override_checks(
                overrides,
                installed,
                models,
                ordered(overrides.dom()).len() as int,
            )
        },
    }
}

fn add_format_checks(
    checks: &mut Vec<DoctorFinding>,
    chosen: &Table<String>,
    installed: &Vec<InstalledRuntimeStatus>,
)
    ensures
        views(final(checks)@) == views(old(checks)@) + format_checks(
            chosen@,
            views(installed@),
            ordered(chosen@.dom()).len() as int,
        ),
{
    let ghost before = views(checks@);
    let ghost all = views(installed@);
    let count: usize = chosen.len();
    let mut i: usize = 0;
    proof {
        assert(before + Seq::<FindingView>::empty() =~= before);
    }
    while i < count
        invariant
            i <= count,
            count == chosen.keys().len(),
            ordered(chosen@.dom()) == chosen.keys(),
            all == views(installed@),
            views(checks@) == before + format_checks(chosen@, all, i as int),
        decreases count - i,
    {
        let ghost so_far = format_checks(chosen@, all, i as int);
        let check = format_selection_finding(
            chosen.key_at(i).as_str(),
            chosen.value_at(i).as_str(),
            installed,
        );
        proof {
            lemma_views_push(checks@, check);
            assert((before + so_far).push(check@) =~= before + so_far.push(check@));
        }
        checks.push(check);
        i += 1;
    }
}

fn add_override_checks(
    checks: &mut Vec<DoctorFinding>,
    chosen: &Table<String>,
    installed: &Vec<InstalledRuntimeStatus>,
    models: &Vec<String>,
)
    ensures
        views(final(checks)@) == views(old(checks)@) + override_checks(
            chosen@,
            views(installed@),
            views(models@),
            ordered(chosen@.dom()).len() as int,
        ),
{
    let ghost before = views(checks@);
    let ghost all = views(installed@);
    let ghost known = views(models@);
    let count: usize = chosen.len();
    let mut i: usize = 0;
    proof {
        assert(before + Seq::<FindingView>::empty() =~= before);
    }
    while i < count
        invariant
            i <= count,
            count == chosen.keys().len(),
            ordered(chosen@.dom()) == chosen.keys(),
            all == views(installed@),
            known == views(models@),
            views(checks@) == before + override_checks(chosen@, all, known, i as int),
        decreases count - i,
    {
        let ghost so_far = override_checks(chosen@, all, known, i as int);
        let more = model_selection_findings(
            chosen.key_at(i).as_str(),
            chosen.value_at(i).as_str(),
            installed,
            models,
        );
        let ghost added = views(more@);
        extend(checks, more);
        proof {
            assert((before + so_far) + added =~= before + (so_far + added));
        }
        i += 1;
    }
}

fn inspect_selections(found: &RuntimeFindings, models: &Vec<String>) -> (result: Vec<DoctorFinding>)
    ensures
        views(result@) == selection_checks(*found, views(models@)),
{
    match &found.selections {
        None => {
            let detail = match &found.selections_error {
                Some(error) => Some(bounded_detail(error.as_str())),
                None => None,
            };
            list1(
                flag(
                    "runtime.selections_invalid",
                    "runtime_selections",
                    DoctorStatus::Fail,
                    "Runtime selections are unreadable or invalid.",
                    detail,
                    "Correct runtime-selections.json using the current schema. Doctor will not clear selections.",
                ),
            )
        },
        Some(selections) => {
            let mut checks = list1(
                pass(
                    "runtime.selections_schema",
                    "runtime_selections",
                    "Runtime selection state is readable and valid.",
                    None,
                ),
            );
            add_format_checks(&mut checks, &selections.format_defaults, &found.installed);
            add_override_checks(
                &mut checks,
                &selections.model_overrides,
                &found.installed,
                models,
            );
            checks
        },
    }
}

pub open spec fn runtime_checks(found: RuntimeFindings, models: Seq<Seq<char>>) -> Seq<FindingView> {
    store_checks(found) + Seq::new(
        found.store_issues@.len(),
        |i: int| issue_check(found.store_issues@[i]),
    ) + Seq::new(
        found.adapter_warnings@.len(),
        |i: int| external_check(found.adapter_warnings@[i]@),
    ) + installed_checks(views(found.installed@)) + selection_checks(found, models)
}

fn inspect_store(found: &RuntimeFindings) -> (result: Vec<DoctorFinding>)
    ensures
        views(result@) == store_checks(*found),
{
    match &found.store_error {
        Some(error) => list1(
            flag(
                "runtime.store_unavailable",
                "runtimes",
                DoctorStatus::Fail,
                "Managed runtime store is inaccessible or structurally unsafe.",
                Some(bounded_detail(error.as_str())),
                RUNTIMES_REMEDIATION,
            ),
        ),
        None => {
            if found.store_issues.len() == 0 {
                let count: usize = count_managed(&found.installed);
                list1(
                    pass(
                        "runtime.store",
                        "runtimes",
                        cat3(
                            "Managed runtime store contains ",
                            decimal_text(count as u64).as_str(),
                            " valid runtime(s).",
                        ).as_str(),
                        None,
                    ),
                )
            } else {
                let none: Vec<DoctorFinding> = Vec::new();
                proof {
                    assert(views(none@) =~= Seq::empty());
                }
                none
            }
        },
    }
}

fn inspect_issues(issues: &Vec<RuntimeStoreIssue>) -> (result: Vec<DoctorFinding>)
    ensures
        views(result@) == Seq::new(issues@.len(), |i: int| issue_check(issues@[i])),
{
    let ghost expected = Seq::new(issues@.len(), |i: int| issue_check(issues@[i]));
    let mut checks: Vec<DoctorFinding> = Vec::new();
    let mut i: usize = 0;
    proof {
        assert(views(checks@) =~= expected.take(0));
    }
    while i < issues.len()
        invariant
            i <= issues@.len(),
            expected == Seq::new(issues@.len(), |k: int| issue_check(issues@[k])),
            views(checks@) == expected.take(i as int),
        decreases issues@.len() - i,
    {
        let code = match issues[i].kind {
            RuntimeStoreIssueKind::Io => "runtime.store_io",
            RuntimeStoreIssueKind::InvalidManifest => "runtime.manifest_invalid",
            RuntimeStoreIssueKind::UnsafePath => "runtime.path_unsafe",
            RuntimeStoreIssueKind::ProvenanceConflict => "runtime.provenance_invalid",
        };
        let check = flag(
            code,
            "runtimes",
            DoctorStatus::Fail,
            "An installed managed runtime failed integrity validation.",
            Some(bounded_detail(issues[i].message.as_str())),
            RUNTIMES_REMEDIATION,
        );
        proof {
            lemma_views_push(checks@, check);
            assert(expected.take(i + 1) =~= expected.take(i as int).push(expected[i as int]));
        }
        checks.push(check);
        i += 1;
    }
    proof {
        assert(expected.take(expected.len() as int) =~= expected);
    }
    checks
}

fn inspect_externals(warnings: &Vec<String>) -> (result: Vec<DoctorFinding>)
    ensures
        views(result@) == Seq::new(warnings@.len(), |i: int| external_check(warnings@[i]@)),
{
    let ghost expected = Seq::new(warnings@.len(), |i: int| external_check(warnings@[i]@));
    let mut checks: Vec<DoctorFinding> = Vec::new();
    let mut i: usize = 0;
    proof {
        assert(views(checks@) =~= expected.take(0));
    }
    while i < warnings.len()
        invariant
            i <= warnings@.len(),
            expected == Seq::new(warnings@.len(), |k: int| external_check(warnings@[k]@)),
            views(checks@) == expected.take(i as int),
        decreases warnings@.len() - i,
    {
        let check = flag(
            "runtime.external_invalid",
            "runtimes",
            DoctorStatus::Warning,
            "An external runtime could not be included.",
            Some(bounded_detail(warnings[i].as_str())),
            "Review `norted-server engines list`; managed runtime packs remain separate.",
        );
        proof {
            lemma_views_push(checks@, check);
            assert(expected.take(i + 1) =~= expected.take(i as int).push(expected[i as int]));
        }
        checks.push(check);
        i += 1;
    }
    proof {
        assert(expected.take(expected.len() as int) =~= expected);
    }
    checks
}

fn inspect_installed(installed: &Vec<InstalledRuntimeStatus>) -> (result: Vec<DoctorFinding>)
    ensures
        views(result@) == installed_checks(views(installed@)),
{
    let ghost all = views(installed@);
    let mut checks: Vec<DoctorFinding> = Vec::new();
    let mut i: usize = 0;
    proof {
        assert(views(checks@) =~= installed_checks(all.take(0)));
    }
    while i < installed.len()
        invariant
            i <= installed@.len(),
            all == views(installed@),
            views(checks@) == installed_checks(all.take(i as int)),
        decreases installed@.len() - i,
    {
        proof {
            assert(all.take(i + 1).drop_last() =~= all.take(i as int));
            assert(all.take(i + 1).last() == installed@[i as int]@);
        }
        if is_managed(&installed[i]) {
            let check = runtime_finding(&installed[i]);
            proof {
                lemma_views_push(checks@, check);
            }
            checks.push(check);
        }
        i += 1;
    }
    proof {
        assert(all.take(all.len() as int) =~= all);
    }
    checks
}

/// Checks the runtime store, what is installed in it, and the choices for formats and models.
pub fn inspect_runtimes(found: &RuntimeFindings, models: &Vec<String>) -> (result: Vec<DoctorFinding>)
    ensures
        views(result@) == runtime_checks(*found, views(models@)),
{
    let mut checks = inspect_store(found);
    extend(&mut checks, inspect_issues(&found.store_issues));
    extend(&mut checks, inspect_externals(&found.adapter_warnings));
    extend(&mut checks, inspect_installed(&found.installed));
    extend(&mut checks, inspect_selections(found, models));
    checks
}

/// A model, and what was found on this host for it.
#[derive(Debug)]
pub struct ModelInspection {
    pub model: WantedModel,
    pub inspection: RuntimeLocalInspection,
}

pub open spec fn fallback_checks(entry: ModelInspection) -> Seq<FindingView> {
    match inspected(entry.inspection, entry.model@, None) {
        Ok(selection) => if selection.notices.len() > 0 {
            seq![
                flagged(
                    "runtime.selection_fallback"@,
                    "runtime_selections"@,
                    DoctorStatus::Warning,
                    "Model `"@ + entry.model@.id + "` requires automatic runtime fallback."@,
                    Some(bounded(joined(selection.notices, "; "@))),
                    "Run:\n  norted-server runtimes list\n  norted-server runtimes clear-selection --model "@
                        + entry.model@.id,
                ),
            ]
        } else {
            Seq::empty()
        },
        Err(_) => Seq::empty(),
    }
}

/// The checks of the runtimes for the first of some models.
pub open spec fn model_runtime_checks(entries: Seq<ModelInspection>, count: int) -> Seq<FindingView>
    decreases count,
{
    if count <= 0 {
        Seq::empty()
    } else {
        model_runtime_checks(entries, count - 1) + fallback_checks(entries[count - 1])
    }
}

fn fallback_findings(entry: &ModelInspection) -> (result: Vec<DoctorFinding>)
    ensures
        views(result@) == fallback_checks(*entry),
{
    let none: Vec<DoctorFinding> = Vec::new();
    proof {
        assert(views(none@) =~= Seq::empty());
    }
    match resolve_from_local_inspection(&entry.model, &None, &entry.inspection) {
        Ok(selection) => {
            proof {
                assert(views(selection.notices@).len() == selection.notices@.len());
            }
            if selection.notices.len() > 0 {
                let id = entry.model.id.as_str();
                list1(
                    flag(
                        "runtime.selection_fallback",
                        "runtime_selections",
                        DoctorStatus::Warning,
                        cat3("Model `", id, "` requires automatic runtime fallback.").as_str(),
                        Some(bounded_detail(join(&selection.notices, "; ").as_str())),
                        cat2(
                            "Run:\n  norted-server runtimes list\n  norted-server runtimes clear-selection --model ",
                            id,
                        ).as_str(),
                    ),
                )
            } else {
                none
            }
        },
        Err(_) => none,
    }
}

/// Checks which models fall back from the runtime that was chosen for them. Nothing is checked where
/// the store or the choices could not be read.
pub fn inspect_model_runtime_selections(found: &RuntimeFindings, entries: &Vec<ModelInspection>) -> (result:
    Vec<DoctorFinding>)
    ensures
        views(result@) == if found.selections is None || found.store_error is Some {
            Seq::empty()
        } else {
            model_runtime_checks(entries@, entries@.len() as int)
        },
{
    let mut checks: Vec<DoctorFinding> = Vec::new();
    proof {
        assert(views(checks@) =~= Seq::empty());
    }
    if found.selections.is_none() || found.store_error.is_some() {
        return checks;
    }
    let mut i: usize = 0;
    while i < entries.len()
        invariant
            i <= entries@.len(),
            views(checks@) == model_runtime_checks(entries@, i as int),
        decreases entries@.len() - i,
    {
        extend(&mut checks, fallback_findings(&entries[i]));
        i += 1;
    }
    checks
}

/// Of an error of the store is told whether a record, a path or an origin is wrong; any other is one of
/// reading or writing, and each is a failure under its own code.
pub proof fn law_store_errors_are_told_apart(error: StoreErrorView, issue: RuntimeStoreIssue)
    ensures
        error_kind(error) == RuntimeStoreIssueKind::InvalidManifest <==> error is InvalidManifest,
        error_kind(error) == RuntimeStoreIssueKind::UnsafePath <==> error is UnsafePath,
        error_kind(error) == RuntimeStoreIssueKind::ProvenanceConflict <==> error
            is ProvenanceConflict,
        issue_check(issue).status == DoctorStatus::Fail,
        issue.kind == RuntimeStoreIssueKind::Io ==> issue_check(issue).code == "runtime.store_io"@,
        issue.kind == RuntimeStoreIssueKind::InvalidManifest ==> issue_check(issue).code
            == "runtime.manifest_invalid"@,
        issue.kind == RuntimeStoreIssueKind::UnsafePath ==> issue_check(issue).code
            == "runtime.path_unsafe"@,
        issue.kind == RuntimeStoreIssueKind::ProvenanceConflict ==> issue_check(issue).code
            == "runtime.provenance_invalid"@,
        issue_check(issue).detail == Some(bounded(issue.message@)),
{
}

/// A store that cannot be read is one failure; one with nothing wrong in it passes; and one with issues
/// is told by its issues alone.
pub proof fn law_stores_are_judged(found: RuntimeFindings)
    ensures
        found.store_error is Some ==> store_checks(found).len() == 1 && store_checks(found)[0].status
            == DoctorStatus::Fail && store_checks(found)[0].code == "runtime.store_unavailable"@,
        found.store_error is None && found.store_issues@.len() == 0 ==> store_checks(found).len()
            == 1 && store_checks(found)[0].status == DoctorStatus::Pass,
        found.store_error is None && found.store_issues@.len() > 0 ==> store_checks(found).len()
            == 0,
{
}

/// A runtime passes where it is recommended or compatible, and is warned of otherwise, with the reason.
pub proof fn law_runtimes_are_judged(status: StatusView, reason: Seq<char>)
    ensures
        ({
            let check = runtime_check(status);
            &&& check.status == DoctorStatus::Pass <==> status.compatibility is Recommended
                || status.compatibility is Compatible
            &&& check.status != DoctorStatus::Pass ==> check.status == DoctorStatus::Warning
            &&& status.compatibility == CompatibilityView::NeedsAttention(reason) ==> check.code
                == "runtime.needs_attention"@ && check.detail == Some(bounded(reason))
            &&& status.compatibility == CompatibilityView::Incompatible(reason) ==> check.code
                == "runtime.incompatible"@ && check.detail == Some(bounded(reason))
        }),
{
}

/// The runtimes that the server installed are checked, each once and in their order, and those are counted;
/// binaries of someone else's are not.
pub proof fn law_managed_runtimes_are_checked(installed: Seq<StatusView>, next: StatusView)
    ensures
        next.runtime.manifest.acquisition_method == RuntimeAcquisitionMethod::ExternalBinary
            ==> installed_checks(installed.push(next)) == installed_checks(installed)
            && managed_count(installed.push(next)) == managed_count(installed),
        next.runtime.manifest.acquisition_method != RuntimeAcquisitionMethod::ExternalBinary
            ==> installed_checks(installed.push(next)) == installed_checks(installed).push(
            runtime_check(next),
        ) && managed_count(installed.push(next)) == managed_count(installed) + 1,
        installed_checks(Seq::empty()).len() == 0,
        managed_count(Seq::empty()) == 0,
{
    assert(installed.push(next).drop_last() =~= installed);
    assert(installed.push(next).last() == next);
}

/// The status of a chosen runtime is that of the last one with its identifier.
pub proof fn law_statuses_are_found_by_identifier(installed: Seq<StatusView>, id: Seq<char>)
    ensures
        match status_of(installed, id) {
            Some(status) => status.runtime.manifest.runtime_id == id && installed.contains(status),
            None => forall|i: int|
                0 <= i < installed.len() ==> (#[trigger] installed[i]).runtime.manifest.runtime_id
                    != id,
        },
    decreases installed.len(),
{
    if installed.len() > 0 {
        let rest = installed.drop_last();
        law_statuses_are_found_by_identifier(rest, id);
        assert(installed[installed.len() - 1] == installed.last());
        if installed.last().runtime.manifest.runtime_id != id {
            if let Some(status) = status_of(rest, id) {
                assert(installed[rest.index_of(status)] == status);
            } else {
                assert forall|i: int| 0 <= i < installed.len() implies (
                #[trigger] installed[i]).runtime.manifest.runtime_id != id by {
                    if i < rest.len() {
                        assert(rest[i] == installed[i]);
                    }
                }
            }
        }
    }
}

/// A choice passes exactly where its runtime is installed and fits this host, and one for a format only
/// where the runtime supports it; a missing runtime, and a missing model, are warned of.
pub proof fn law_choices_are_judged(
    format: Seq<char>,
    model_id: Seq<char>,
    runtime_id: Seq<char>,
    installed: Seq<StatusView>,
    models: Seq<Seq<char>>,
)
    ensures
        ({
            let status = status_of(installed, runtime_id);
            let usable = status is Some && !(status->0.compatibility is Incompatible);
            let chosen = format_selection_check(format, runtime_id, installed);
            let checks = model_selection_checks(model_id, runtime_id, installed, models);
            &&& chosen.status == DoctorStatus::Pass <==> usable
                && status->0.runtime.manifest.supported_formats.contains(format)
            &&& chosen.status != DoctorStatus::Pass ==> chosen.status == DoctorStatus::Warning
            &&& status is None ==> chosen.code == "runtime.selection_missing"@
            &&& status is Some && chosen.status != DoctorStatus::Pass ==> chosen.code
                == "runtime.selection_incompatible"@
            &&& models.contains(model_id) ==> checks.len() == 1
            &&& !models.contains(model_id) ==> checks.len() == 2 && checks[0].code
                == "runtime.selection_model_missing"@ && checks[0].status == DoctorStatus::Warning
            &&& checks.last().status == DoctorStatus::Pass <==> usable
            &&& status is None ==> checks.last().code == "runtime.selection_missing"@
        }),
{
}

/// Each choice for a format is checked, in the order of the formats.
pub proof fn law_each_choice_is_checked(
    chosen: Map<Seq<char>, Seq<char>>,
    installed: Seq<StatusView>,
    count: int,
    i: int,
)
    requires
        0 <= i < count,
    ensures
        format_checks(chosen, installed, count).len() == count,
        format_checks(chosen, installed, count)[i] == format_selection_check(
            ordered(chosen.dom())[i],
            chosen[ordered(chosen.dom())[i]],
            installed,
        ),
    decreases count,
{
    let before = format_checks(chosen, installed, count - 1);
    assert(format_checks(chosen, installed, 0).len() == 0);
    if i < count - 1 {
        law_each_choice_is_checked(chosen, installed, count - 1, i);
    } else if count > 1 {
        law_each_choice_is_checked(chosen, installed, count - 1, 0);
    }
    assert(before.len() == count - 1);
}

/// A model is warned of exactly where a runtime was chosen for it with notices of what is in the way of the
/// choice.
pub proof fn law_fallbacks_are_warned_of(entry: ModelInspection)
    ensures
        fallback_checks(entry).len() == 1 <==> inspected(entry.inspection, entry.model@, None) is Ok
            && inspected(entry.inspection, entry.model@, None)->Ok_0.notices.len() > 0,
        fallback_checks(entry).len() <= 1,
        fallback_checks(entry).len() == 1 ==> fallback_checks(entry)[0].status
            == DoctorStatus::Warning && fallback_checks(entry)[0].code
            == "runtime.selection_fallback"@,
{
}

} // verus!
