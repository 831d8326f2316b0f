//! What is shown of runtimes, of the choices between them and of their settings.
use vstd::prelude::*;
use vstd::string::*;

use crate::catalog::{
    show_state, shown_state, CheckView, ProviderErrorView, ResultView, RuntimeProviderError,
    RuntimeSearchResult, RuntimeSearchSnapshot, RuntimeUpdateCheck,
};
use crate::doctor::runtimes::{compatibility_text, write_compatibility};
use crate::duplicate::{lemma_views_push, optional, views};
use crate::imports::path_below;
use crate::outside::{quoted, quoted_text};
use crate::references::append_texts;
use crate::resolution::{InstalledRuntimeStatus, StatusView};
use crate::runtimes::{InstalledRuntime, RuntimeCompatibility, RuntimeView};
use crate::selections::{RuntimeSelections, SelectionsView};
use crate::table::{ordered, Table};
use crate::text::{
    ascii_upper, begins, cat2, cat3, cat4, cat5, cat6, cat7, ends_with, join, joined, pad_left,
    pad_right, padded_left, padded_right, starts_with, to_ascii_upper,
};
use crate::updates::{RuntimeUpdateState, UpdateView};

use super::{
    lines1, lines2, lines3, lines4, no_lines, or_else, text_or, truncate, truncated, warn,
    warning_lines,
};

verus! {

pub open spec fn runtime_row(
    id: Seq<char>,
    engine: Seq<char>,
    backend: Seq<char>,
    state: Seq<char>,
    version: Seq<char>,
) -> Seq<char> {
    padded_right(id, 52) + " "@ + padded_right(engine, 12) + " "@ + padded_right(backend, 14)
        + " "@ + (padded_right(state, 12) + " "@ + version)
}

fn show_runtime_row(id: &str, engine: &str, backend: &str, state: &str, version: &str) -> (result:
    String)
    ensures
        result@ == runtime_row(id@, engine@, backend@, state@, version@),
{
    let rest = cat3(pad_right(state, 12).as_str(), " ", version);
    cat7(
        pad_right(id, 52).as_str(),
        " ",
        pad_right(engine, 12).as_str(),
        " ",
        pad_right(backend, 14).as_str(),
        " ",
        rest.as_str(),
    )
}

/// A runtime as it is listed: what it is selected for, else how it fits.
pub open spec fn runtime_line(status: StatusView) -> Seq<char> {
    let manifest = status.runtime.manifest;
    let state = if status.selected_for.len() == 0 {
        compatibility_text(status.compatibility)
    } else {
        "selected: "@ + joined(status.selected_for, ", "@)
    };
    runtime_row(
        manifest.runtime_id,
        manifest.identity.engine_id,
        manifest.identity.accelerator,
        truncated(state, 12),
        manifest.identity.version,
    )
}

fn show_runtime(status: &InstalledRuntimeStatus) -> (result: String)
    ensures
        result@ == runtime_line(status@),
{
    let manifest = &status.runtime.manifest;
    proof {
        assert(views(status.selected_for@).len() == status.selected_for@.len());
    }
    let state = if status.selected_for.len() == 0 {
        write_compatibility(&status.compatibility)
    } else {
        cat2("selected: ", join(&status.selected_for, ", ").as_str())
    };
    show_runtime_row(
        manifest.runtime_id.as_str(),
        manifest.identity.engine_id.as_str(),
        manifest.identity.accelerator.as_str(),
        truncate(state.as_str(), 12).as_str(),
        manifest.identity.version.as_str(),
    )
}

pub open spec fn list_lines(installed: Seq<StatusView>) -> Seq<Seq<char>> {
    if installed.len() == 0 {
        seq!["No runtime packs are installed or configured."@]
    } else {
        seq![runtime_row("RUNTIME ID"@, "ENGINE"@, "BACKEND"@, "STATE"@, "VERSION"@)]
            + installed.map_values(|status: StatusView| runtime_line(status))
    }
}

/// The installed runtimes, and what is warned of.
pub fn runtimes_list(installed: &Vec<InstalledRuntimeStatus>, warnings: &Vec<String>) -> (result: (
    Vec<String>,
    Vec<String>,
))
    ensures
        views(result.0@) == list_lines(views(installed@)),
        views(result.1@) == warning_lines(views(warnings@)),
{
    let ghost all = views(installed@);
    let warned = warn(warnings);
    if installed.len() == 0 {
        return (lines1("No runtime packs are installed or configured.".to_owned()), warned);
    }
    let mut lines = lines1(
        show_runtime_row("RUNTIME ID", "ENGINE", "BACKEND", "STATE", "VERSION"),
    );
    let ghost head = views(lines@);
    let ghost expected = all.map_values(|status: StatusView| runtime_line(status));
    let mut i: usize = 0;
    proof {
        assert(head + expected.take(0) =~= head);
    }
    while i < installed.len()
        invariant
            i <= installed@.len(),
            all == views(installed@),
            expected == all.map_values(|status: StatusView| runtime_line(status)),
            views(lines@) == head + expected.take(i as int),
        decreases installed@.len() - i,
    {
        let line = show_runtime(&installed[i]);
        proof {
            lemma_views_push(lines@, line);
            assert(all[i as int] == installed@[i as int]@);
            assert(expected.take(i + 1) =~= expected.take(i as int).push(expected[i as int]));
            assert((head + expected.take(i as int)).push(line@) =~= head + expected.take(i + 1));
        }
        lines.push(line);
        i += 1;
    }
    proof {
        assert(expected.take(expected.len() as int) =~= expected);
    }
    (lines, warned)
}

/// What is shown beside a found runtime: its size, where there is something to download, and notes.
#[derive(Debug)]
pub struct SearchNotes {
    pub size: Option<String>,
    pub notes: Vec<String>,
}

pub open spec fn search_row(
    id: Seq<char>,
    engine: Seq<char>,
    backend: Seq<char>,
    version: Seq<char>,
    acquisition: Seq<char>,
) -> Seq<char> {
    padded_right(id, 52) + " "@ + padded_right(engine, 11) + " "@ + padded_right(backend, 13)
        + " "@ + (padded_right(version, 10) + " "@ + padded_left(acquisition, 20))
}

fn show_search_row(id: &str, engine: &str, backend: &str, version: &str, acquisition: &str) -> (result:
    String)
    ensures
        result@ == search_row(id@, engine@, backend@, version@, acquisition@),
{
    let rest = cat3(pad_right(version, 10).as_str(), " ", pad_left(acquisition, 20).as_str());
    cat7(
        pad_right(id, 52).as_str(),
        " ",
        pad_right(engine, 11).as_str(),
        " ",
        pad_right(backend, 13).as_str(),
        " ",
        rest.as_str(),
    )
}

pub open spec fn result_lines(result: ResultView, notes: SearchNotes) -> Seq<Seq<char>> {
    let runtime = result.entry.available;
    seq![
        search_row(
            runtime.runtime_id,
            runtime.identity.engine_id,
            runtime.identity.accelerator,
            runtime.identity.version,
            match notes.size {
                Some(size) => "upstream binary "@ + size@,
                None => "source build"@,
            },
        ) + if result.installed {
            " installed"@
        } else {
            ""@
        },
        "  "@ + runtime.identity.platform + " "@ + runtime.identity.architecture + " / "@
            + runtime.identity.variant + ("  "@ + compatibility_text(result.entry.compatibility)),
    ] + views(notes.notes@).map_values(|note: Seq<char>| "  Note: "@ + note)
}

fn show_notes(notes: &Vec<String>) -> (result: Vec<String>)
    ensures
        views(result@) == views(notes@).map_values(|note: Seq<char>| "  Note: "@ + note),
{
    let ghost all = views(notes@);
    let ghost expected = all.map_values(|note: Seq<char>| "  Note: "@ + note);
    let mut lines = no_lines();
    let mut i: usize = 0;
    proof {
        assert(views(lines@) =~= expected.take(0));
    }
    while i < notes.len()
        invariant
            i <= notes@.len(),
            all == views(notes@),
            expected == all.map_values(|note: Seq<char>| "  Note: "@ + note),
            views(lines@) == expected.take(i as int),
        decreases notes@.len() - i,
    {
        let line = cat2("  Note: ", notes[i].as_str());
        proof {
            lemma_views_push(lines@, line);
            assert(all[i as int] == notes@[i as int]@);
            assert(expected.take(i + 1) =~= expected.take(i as int).push(expected[i as int]));
        }
        lines.push(line);
        i += 1;
    }
    proof {
        assert(expected.take(expected.len() as int) =~= expected);
    }
    lines
}

fn show_result(result: &RuntimeSearchResult, notes: &SearchNotes) -> (lines: Vec<String>)
    ensures
        views(lines@) == result_lines(result@, *notes),
{
    let runtime = &result.entry.available;
    let acquisition = match &notes.size {
        Some(size) => cat2("upstream binary ", size.as_str()),
        None => "source build".to_owned(),
    };
    let row = show_search_row(
        runtime.runtime_id.as_str(),
        runtime.identity.engine_id.as_str(),
        runtime.identity.accelerator.as_str(),
        runtime.identity.version.as_str(),
        acquisition.as_str(),
    );
    let fit = cat2("  ", write_compatibility(&result.entry.compatibility).as_str());
    let mut lines = lines2(
        cat2(
            row.as_str(),
            if result.installed {
                " installed"
            } else {
                ""
            },
        ),
        cat7(
            "  ",
            runtime.identity.platform.as_str(),
            " ",
            runtime.identity.architecture.as_str(),
            " / ",
            runtime.identity.variant.as_str(),
            fit.as_str(),
        ),
    );
    append_texts(&mut lines, show_notes(&notes.notes));
    lines
}

/// The lines of the first found runtimes.
pub open spec fn results_lines(
    results: Seq<ResultView>,
    notes: Seq<SearchNotes>,
    count: int,
) -> Seq<Seq<char>>
    decreases count,
{
    if count <= 0 {
        Seq::empty()
    } else {
        results_lines(results, notes, count - 1) + result_lines(
            results[count - 1],
            notes[count - 1],
        )
    }
}

pub open spec fn provider_line(error: ProviderErrorView) -> Seq<char> {
    "Warning: "@ + error.provider_id + ": "@ + error.message + if error.using_stale_cache {
        " (showing stale cache)"@
    } else {
        ""@
    }
}

fn show_provider_errors(errors: &Vec<RuntimeProviderError>) -> (result: Vec<String>)
    ensures
        views(result@) == views(errors@).map_values(
            |error: ProviderErrorView| provider_line(error),
        ),
{
    let ghost all = views(errors@);
    let ghost expected = all.map_values(|error: ProviderErrorView| provider_line(error));
    let mut lines = no_lines();
    let mut i: usize = 0;
    proof {
        assert(views(lines@) =~= expected.take(0));
    }
    while i < errors.len()
        invariant
            i <= errors@.len(),
            all == views(errors@),
            expected == all.map_values(|error: ProviderErrorView| provider_line(error)),
            views(lines@) == expected.take(i as int),
        decreases errors@.len() - i,
    {
        let error = &errors[i];
        let line = cat5(
            "Warning: ",
            error.provider_id.as_str(),
            ": ",
            error.message.as_str(),
            if error.using_stale_cache {
                " (showing stale cache)"
            } else {
                ""
            },
        );
        proof {
            lemma_views_push(lines@, line);
            assert(all[i as int] == errors@[i as int]@);
            assert(expected.take(i + 1) =~= expected.take(i as int).push(expected[i as int]));
        }
        lines.push(line);
        i += 1;
    }
    proof {
        assert(expected.take(expected.len() as int) =~= expected);
    }
    lines
}

pub open spec fn search_lines(results: Seq<ResultView>, notes: Seq<SearchNotes>) -> Seq<Seq<char>> {
    if results.len() == 0 {
        seq!["No upstream runtime packs matched the query."@]
    } else {
        seq![
            search_row("RUNTIME ID"@, "ENGINE"@, "BACKEND"@, "VERSION"@, "ACQUISITION"@),
        ] + results_lines(results, notes, results.len() as int)
    }
}

/// The runtimes that were found, and what is warned of.
pub fn runtimes_search(snapshot: &RuntimeSearchSnapshot, notes: &Vec<SearchNotes>) -> (result: (
    Vec<String>,
    Vec<String>,
))
    requires
        notes@.len() == snapshot.results@.len(),
    ensures
        views(result.0@) == search_lines(snapshot@.results, notes@),
        views(result.1@) == snapshot@.provider_errors.map_values(
            |error: ProviderErrorView| provider_line(error),
        ),
{
    let ghost all = snapshot@.results;
    let warned = show_provider_errors(&snapshot.provider_errors);
    proof {
        assert(all.len() == snapshot.results@.len());
    }
    if snapshot.results.len() == 0 {
        return (lines1("No upstream runtime packs matched the query.".to_owned()), warned);
    }
    let mut lines = lines1(
        show_search_row("RUNTIME ID", "ENGINE", "BACKEND", "VERSION", "ACQUISITION"),
    );
    let ghost head = views(lines@);
    let mut i: usize = 0;
    proof {
        assert(head + Seq::<Seq<char>>::empty() =~= head);
    }
    while i < snapshot.results.len()
        invariant
            i <= snapshot.results@.len(),
            notes@.len() == snapshot.results@.len(),
            all == views(snapshot.results@),
            views(lines@) == head + results_lines(all, notes@, i as int),
        decreases snapshot.results@.len() - i,
    {
        let more = show_result(&snapshot.results[i], &notes[i]);
        let ghost added = views(more@);
        append_texts(&mut lines, more);
        proof {
            let so_far = results_lines(all, notes@, i as int);
            assert(all[i as int] == snapshot.results@[i as int]@);
            assert((head + so_far) + added =~= head + (so_far + added));
        }
        i += 1;
    }
    (lines, warned)
}

/// The path of the program of a runtime.
pub open spec fn entry_path(runtime: RuntimeView) -> Seq<char> {
    if begins(runtime.manifest.entrypoint, "/"@) {
        runtime.manifest.entrypoint
    } else {
        path_below(runtime.installation_root, runtime.manifest.entrypoint)
    }
}

pub fn entrypoint_path(runtime: &InstalledRuntime) -> (result: String)
    ensures
        result@ == entry_path(runtime@),
{
    let entrypoint = runtime.manifest.entrypoint.as_str();
    let root = runtime.installation_root.as_str();
    if starts_with(entrypoint, "/") {
        entrypoint.to_owned()
    } else if ends_with(root, "/") {
        cat2(root, entrypoint)
    } else {
        cat3(root, "/", entrypoint)
    }
}

pub open spec fn operation_lines(operation: Seq<char>, runtime: RuntimeView) -> Seq<Seq<char>> {
    seq![
        "Runtime "@ + operation + " complete."@,
        "  ID:       "@ + runtime.manifest.runtime_id,
        "  Engine:   "@ + runtime.manifest.identity.engine_id,
        "  Version:  "@ + runtime.manifest.identity.version,
    ] + seq![
        "  Variant:  "@ + runtime.manifest.identity.variant,
        "  Binary:   "@ + entry_path(runtime),
        "  SHA-256:  "@ + runtime.manifest.entrypoint_sha256,
    ]
}

pub fn runtime_operation(operation: &str, runtime: &InstalledRuntime) -> (result: Vec<String>)
    ensures
        views(result@) == operation_lines(operation@, runtime@),
{
    let mut lines = lines4(
        cat3("Runtime ", operation, " complete."),
        cat2("  ID:       ", runtime.manifest.runtime_id.as_str()),
        cat2("  Engine:   ", runtime.manifest.identity.engine_id.as_str()),
        cat2("  Version:  ", runtime.manifest.identity.version.as_str()),
    );
    append_texts(
        &mut lines,
        lines3(
            cat2("  Variant:  ", runtime.manifest.identity.variant.as_str()),
            cat2("  Binary:   ", entrypoint_path(runtime).as_str()),
            cat2("  SHA-256:  ", runtime.manifest.entrypoint_sha256.as_str()),
        ),
    );
    lines
}

pub fn runtime_removed(runtime_id: &str) -> (result: Vec<String>)
    ensures
        views(result@) == seq!["Removed runtime "@ + runtime_id@ + "."@],
{
    lines1(cat3("Removed runtime ", runtime_id, "."))
}

pub open spec fn format_line(format: Seq<char>, runtime: Seq<char>) -> Seq<char> {
    "  "@ + ascii_upper(format) + " default: "@ + runtime
}

pub open spec fn model_line(model: Seq<char>, runtime: Seq<char>) -> Seq<char> {
    "  Model "@ + model + ": "@ + runtime
}

pub open spec fn selection_lines(operation: Seq<char>, selections: SelectionsView) -> Seq<Seq<char>> {
    seq!["Runtime selection "@ + operation + " complete."@] + ordered(
        selections.format_defaults.dom(),
    ).map_values(|format: Seq<char>| format_line(format, selections.format_defaults[format]))
        + ordered(selections.model_overrides.dom()).map_values(
        |model: Seq<char>| model_line(model, selections.model_overrides[model]),
    )
}

fn show_formats(chosen: &Table<String>) -> (result: Vec<String>)
    ensures
        views(result@) == ordered(chosen@.dom()).map_values(
            |format: Seq<char>| format_line(format, chosen@[format]),
        ),
{
    let count: usize = chosen.len();
    let ghost keys = chosen.keys();
    let ghost expected = keys.map_values(|format: Seq<char>| format_line(format, chosen@[format]));
    let mut lines = no_lines();
    let mut i: usize = 0;
    proof {
        assert(views(lines@) =~= expected.take(0));
    }
    while i < count
        invariant
            i <= count,
            keys == chosen.keys(),
            count == keys.len(),
            expected == keys.map_values(
                |format: Seq<char>| format_line(format, chosen@[format]),
            ),
            views(lines@) == expected.take(i as int),
        decreases count - i,
    {
        let line = cat4(
            "  ",
            to_ascii_upper(chosen.key_at(i).as_str()).as_str(),
            " default: ",
            chosen.value_at(i).as_str(),
        );
        proof {
            lemma_views_push(lines@, line);
            assert(expected.take(i + 1) =~= expected.take(i as int).push(expected[i as int]));
        }
        lines.push(line);
        i += 1;
    }
    proof {
        assert(expected.take(expected.len() as int) =~= expected);
    }
    lines
}

fn show_overrides(chosen: &Table<String>) -> (result: Vec<String>)
    ensures
        views(result@) == ordered(chosen@.dom()).map_values(
            |model: Seq<char>| model_line(model, chosen@[model]),
        ),
{
    let count: usize = chosen.len();
    let ghost keys = chosen.keys();
    let ghost expected = keys.map_values(|model: Seq<char>| model_line(model, chosen@[model]));
    let mut lines = no_lines();
    let mut i: usize = 0;
    proof {
        assert(views(lines@) =~= expected.take(0));
    }
    while i < count
        invariant
            i <= count,
            keys == chosen.keys(),
            count == keys.len(),
            expected == keys.map_values(|model: Seq<char>| model_line(model, chosen@[model])),
            views(lines@) == expected.take(i as int),
        decreases count - i,
    {
        let line = cat4(
            "  Model ",
            chosen.key_at(i).as_str(),
            ": ",
            chosen.value_at(i).as_str(),
        );
        proof {
            lemma_views_push(lines@, line);
            assert(expected.take(i + 1) =~= expected.take(i as int).push(expected[i as int]));
        }
        lines.push(line);
        i += 1;
    }
    proof {
        assert(expected.take(expected.len() as int) =~= expected);
    }
    lines
}

pub fn runtime_selections(operation: &str, selections: &RuntimeSelections) -> (result: Vec<String>)
    ensures
        views(result@) == selection_lines(operation@, selections@),
{
    let mut lines = lines1(cat3("Runtime selection ", operation, " complete."));
    append_texts(&mut lines, show_formats(&selections.format_defaults));
    append_texts(&mut lines, show_overrides(&selections.model_overrides));
    lines
}

/// An optional text as diagnostics write it.
pub open spec fn optional_text(text: Option<Seq<char>>) -> Seq<char> {
    match text {
        Some(text) => "Some("@ + quoted(text) + ")"@,
        None => "None"@,
    }
}

fn write_optional(text: &Option<String>) -> (result: String)
    ensures
        result@ == optional_text(optional(*text)),
{
    match text {
        Some(text) => cat3("Some(", quoted_text(text.as_str()).as_str(), ")"),
        None => "None".to_owned(),
    }
}

/// A state with all that it holds, as diagnostics write it.
pub open spec fn state_text(state: UpdateView) -> Seq<char> {
    match state {
        UpdateView::NewerCompatibleVersion { runtime_id, version } => {
            "NewerCompatibleVersion { runtime_id: "@ + quoted(runtime_id) + ", version: "@
                + quoted(version) + " }"@
        },
        UpdateView::Pinned { newer_runtime_id, newer_version } => {
            "Pinned { newer_runtime_id: "@ + optional_text(newer_runtime_id)
                + ", newer_version: "@ + optional_text(newer_version) + " }"@
        },
        _ => shown_state(state),
    }
}

fn write_state(state: &RuntimeUpdateState) -> (result: String)
    ensures
        result@ == state_text(state@),
{
    match state {
        RuntimeUpdateState::NewerCompatibleVersion { runtime_id, version } => cat5(
            "NewerCompatibleVersion { runtime_id: ",
            quoted_text(runtime_id.as_str()).as_str(),
            ", version: ",
            quoted_text(version.as_str()).as_str(),
            " }",
        ),
        RuntimeUpdateState::Pinned { newer_runtime_id, newer_version } => cat5(
            "Pinned { newer_runtime_id: ",
            write_optional(newer_runtime_id).as_str(),
            ", newer_version: ",
            write_optional(newer_version).as_str(),
            " }",
        ),
        _ => show_state(state),
    }
}

pub open spec fn update_line(check: CheckView) -> Seq<char> {
    "  "@ + check.runtime.manifest.identity.engine_id + " "@
        + check.runtime.manifest.identity.version + ": "@ + state_text(check.state)
}

pub open spec fn update_lines(checks: Seq<CheckView>) -> Seq<Seq<char>> {
    if checks.len() == 0 {
        seq!["No managed runtimes are installed."@]
    } else {
        checks.map_values(|check: CheckView| update_line(check))
    }
}

pub fn runtime_updates(checks: &Vec<RuntimeUpdateCheck>) -> (result: Vec<String>)
    ensures
        views(result@) == update_lines(views(checks@)),
{
    let ghost all = views(checks@);
    if checks.len() == 0 {
        return lines1("No managed runtimes are installed.".to_owned());
    }
    let ghost expected = all.map_values(|check: CheckView| update_line(check));
    let mut lines = no_lines();
    let mut i: usize = 0;
    proof {
        assert(views(lines@) =~= expected.take(0));
    }
    while i < checks.len()
        invariant
            i <= checks@.len(),
            all == views(checks@),
            expected == all.map_values(|check: CheckView| update_line(check)),
            views(lines@) == expected.take(i as int),
        decreases checks@.len() - i,
    {
        let check = &checks[i];
        let line = cat6(
            "  ",
            check.runtime.manifest.identity.engine_id.as_str(),
            " ",
            check.runtime.manifest.identity.version.as_str(),
            ": ",
            write_state(&check.state).as_str(),
        );
        proof {
            lemma_views_push(lines@, line);
            assert(all[i as int] == checks@[i as int]@);
            assert(expected.take(i + 1) =~= expected.take(i as int).push(expected[i as int]));
        }
        lines.push(line);
        i += 1;
    }
    proof {
        assert(expected.take(expected.len() as int) =~= expected);
    }
    lines
}

/// A setting as it is listed, with its value and where that comes from, where it is set.
#[derive(Debug)]
pub struct SettingRow {
    pub id: String,
    pub label: String,
    pub supported: bool,
    pub unsupported_reason: Option<String>,
    pub value: Option<String>,
    pub source: String,
}

pub open spec fn schema_line(row: SettingRow) -> Seq<char> {
    let support = if row.supported {
        "supported"@
    } else {
        "unsupported: "@ + or_else(optional(row.unsupported_reason), "unknown reason"@)
    };
    "  "@ + padded_right(row.id@, 38) + " "@ + padded_right(support, 11) + " "@ + row.label@
}

fn show_schema_line(row: &SettingRow) -> (result: String)
    ensures
        result@ == schema_line(*row),
{
    let support = if row.supported {
        "supported".to_owned()
    } else {
        cat2("unsupported: ", text_or(&row.unsupported_reason, "unknown reason"))
    };
    cat6(
        "  ",
        pad_right(row.id.as_str(), 38).as_str(),
        " ",
        pad_right(support.as_str(), 11).as_str(),
        " ",
        row.label.as_str(),
    )
}

pub fn settings_schema(engine_id: &str, runtime_id: &Option<String>, rows: &Vec<SettingRow>) -> (result:
    Vec<String>)
    ensures
        views(result@) == seq![
            "Load settings for "@ + engine_id@ + " / "@ + or_else(
                optional(*runtime_id),
                "no exact runtime"@,
            ),
        ] + Seq::new(rows@.len(), |i: int| schema_line(rows@[i])),
{
    let mut lines = lines1(
        cat4("Load settings for ", engine_id, " / ", text_or(runtime_id, "no exact runtime")),
    );
    let ghost head = views(lines@);
    let ghost expected = Seq::new(rows@.len(), |i: int| schema_line(rows@[i]));
    let mut i: usize = 0;
    proof {
        assert(head + expected.take(0) =~= head);
    }
    while i < rows.len()
        invariant
            i <= rows@.len(),
            expected == Seq::new(rows@.len(), |k: int| schema_line(rows@[k])),
            views(lines@) == head + expected.take(i as int),
        decreases rows@.len() - i,
    {
        let line = show_schema_line(&rows[i]);
        proof {
            lemma_views_push(lines@, line);
            assert(expected.take(i + 1) =~= expected.take(i as int).push(expected[i as int]));
            assert((head + expected.take(i as int)).push(line@) =~= head + expected.take(i + 1));
        }
        lines.push(line);
        i += 1;
    }
    proof {
        assert(expected.take(expected.len() as int) =~= expected);
    }
    lines
}

pub open spec fn setting_row(id: Seq<char>, value: Seq<char>, source: Seq<char>) -> Seq<char> {
    padded_right(id, 38) + " "@ + padded_right(value, 20) + " "@ + source
}

fn show_setting_row(id: &str, value: &str, source: &str) -> (result: String)
    ensures
        result@ == setting_row(id@, value@, source@),
{
    cat5(pad_right(id, 38).as_str(), " ", pad_right(value, 20).as_str(), " ", source)
}

/// A setting with its value, marked where the runtime does not take it; or that it is left to the
/// engine.
pub open spec fn effective_line(row: SettingRow) -> Seq<char> {
    match row.value {
        Some(value) => setting_row(
            row.id@,
            value@,
            row.source@ + if row.supported {
                ""@
            } else {
                " [incompatible: "@ + or_else(optional(row.unsupported_reason), "unsupported"@)
                    + "]"@
            },
        ),
        None => setting_row(row.id@, "<upstream default>"@, "upstream"@),
    }
}

fn show_effective_line(row: &SettingRow) -> (result: String)
    ensures
        result@ == effective_line(*row),
{
    match &row.value {
        Some(value) => {
            let suffix = if row.supported {
                "".to_owned()
            } else {
                cat3(" [incompatible: ", text_or(&row.unsupported_reason, "unsupported"), "]")
            };
            show_setting_row(
                row.id.as_str(),
                value.as_str(),
                cat2(row.source.as_str(), suffix.as_str()).as_str(),
            )
        },
        None => show_setting_row(row.id.as_str(), "<upstream default>", "upstream"),
    }
}

pub open spec fn effective_lines(
    runtime_id: Seq<char>,
    engine_id: Seq<char>,
    profile: Option<Seq<char>>,
    rows: Seq<SettingRow>,
) -> Seq<Seq<char>> {
    seq![
        "Runtime: "@ + runtime_id,
        "Engine:  "@ + engine_id,
        "Profile: "@ + or_else(profile, "none"@),
        setting_row("SETTING"@, "VALUE"@, "SOURCE"@),
    ] + Seq::new(rows.len(), |i: int| effective_line(rows[i]))
}

pub fn effective_settings(
    runtime_id: &str,
    engine_id: &str,
    profile: &Option<String>,
    rows: &Vec<SettingRow>,
) -> (result: Vec<String>)
    ensures
        views(result@) == effective_lines(runtime_id@, engine_id@, optional(*profile), rows@),
{
    let mut lines = lines4(
        cat2("Runtime: ", runtime_id),
        cat2("Engine:  ", engine_id),
        cat2("Profile: ", text_or(profile, "none")),
        show_setting_row("SETTING", "VALUE", "SOURCE"),
    );
    let ghost head = views(lines@);
    let ghost expected = Seq::new(rows@.len(), |i: int| effective_line(rows@[i]));
    let mut i: usize = 0;
    proof {
        assert(head + expected.take(0) =~= head);
    }
    while i < rows.len()
        invariant
            i <= rows@.len(),
            expected == Seq::new(rows@.len(), |k: int| effective_line(rows@[k])),
            views(lines@) == head + expected.take(i as int),
        decreases rows@.len() - i,
    {
        let line = show_effective_line(&rows[i]);
        proof {
            lemma_views_push(lines@, line);
            assert(expected.take(i + 1) =~= expected.take(i as int).push(expected[i as int]));
            assert((head + expected.take(i as int)).push(line@) =~= head + expected.take(i + 1));
        }
        lines.push(line);
        i += 1;
    }
    proof {
        assert(expected.take(expected.len() as int) =~= expected);
    }
    lines
}

pub fn settings_mutation(operation: &str, scope: &str) -> (result: Vec<String>)
    ensures
        views(result@) == seq![
            "Load settings "@ + operation@ + ": "@ + scope@,
            "Changes apply on the next model load."@,
        ],
{
    lines2(
        cat4("Load settings ", operation, ": ", scope),
        "Changes apply on the next model load.".to_owned(),
    )
}

pub fn profile_compatibility(
    model: (&str, &str),
    profile: (&str, &str),
    runtime_id: &str,
    compatibility: &RuntimeCompatibility,
) -> (result: Vec<String>)
    ensures
        views(result@) == seq![
            "Serve Profile compatibility"@,
            "  Model:       "@ + model.0@ + " ("@ + model.1@ + ")"@,
            "  Profile:     "@ + profile.0@ + " ("@ + profile.1@ + ")"@,
        ] + seq![
            "  Runtime:     "@ + runtime_id@,
            "  Status:      "@ + compatibility_text(compatibility@),
        ],
{
    let mut lines = lines3(
        "Serve Profile compatibility".to_owned(),
        cat5("  Model:       ", model.0, " (", model.1, ")"),
        cat5("  Profile:     ", profile.0, " (", profile.1, ")"),
    );
    append_texts(
        &mut lines,
        lines2(
            cat2("  Runtime:     ", runtime_id),
            cat2("  Status:      ", write_compatibility(compatibility).as_str()),
        ),
    );
    lines
}

/// A listed runtime is shown with what it is selected for, or else with how it fits.
pub proof fn law_runtimes_are_listed_with_their_state(installed: Seq<StatusView>, i: int)
    requires
        0 <= i < installed.len(),
    ensures
        ({
            let lines = list_lines(installed);
            let manifest = installed[i].runtime.manifest;
            &&& lines.len() == installed.len() + 1
            &&& installed[i].selected_for.len() == 0 ==> lines[i + 1] == runtime_row(
                manifest.runtime_id,
                manifest.identity.engine_id,
                manifest.identity.accelerator,
                truncated(compatibility_text(installed[i].compatibility), 12),
                manifest.identity.version,
            )
            &&& installed[i].selected_for.len() > 0 ==> lines[i + 1] == runtime_row(
                manifest.runtime_id,
                manifest.identity.engine_id,
                manifest.identity.accelerator,
                truncated("selected: "@ + joined(installed[i].selected_for, ", "@), 12),
                manifest.identity.version,
            )
        }),
{
}

/// Each found runtime is shown with two lines and a line for each note, in the order of the search.
pub proof fn law_found_runtimes_are_shown(
    results: Seq<ResultView>,
    notes: Seq<SearchNotes>,
    count: int,
)
    requires
        0 < count <= results.len(),
        results.len() == notes.len(),
    ensures
        results_lines(results, notes, count) == results_lines(results, notes, count - 1)
            + result_lines(results[count - 1], notes[count - 1]),
        result_lines(results[count - 1], notes[count - 1]).len() == 2 + notes[count
            - 1].notes@.len(),
        results_lines(results, notes, 0).len() == 0,
{
}

/// A stale answer of a provider is told as such.
pub proof fn law_stale_answers_are_told(error: ProviderErrorView)
    ensures
        !error.using_stale_cache ==> provider_line(error) == "Warning: "@ + error.provider_id
            + ": "@ + error.message,
        error.using_stale_cache ==> provider_line(error) == "Warning: "@ + error.provider_id
            + ": "@ + error.message + " (showing stale cache)"@,
{
    reveal_strlit("");
    assert("Warning: "@ + error.provider_id + ": "@ + error.message + ""@ =~= "Warning: "@
        + error.provider_id + ": "@ + error.message);
}

/// The program of a runtime is where its record says, below its installation unless that is a path from
/// the root.
pub proof fn law_programs_are_below_their_installation(runtime: RuntimeView)
    ensures
        begins(runtime.manifest.entrypoint, "/"@) ==> entry_path(runtime)
            == runtime.manifest.entrypoint,
        !begins(runtime.manifest.entrypoint, "/"@) && !crate::text::ends(
            runtime.installation_root,
            "/"@,
        ) ==> entry_path(runtime) == runtime.installation_root + "/"@
            + runtime.manifest.entrypoint,
{
}

/// Each choice for a format and for a model is shown, in order, with the runtime that is chosen.
pub proof fn law_choices_are_shown(operation: Seq<char>, selections: SelectionsView, i: int)
    ensures
        ({
            let formats = ordered(selections.format_defaults.dom());
            let models = ordered(selections.model_overrides.dom());
            let lines = selection_lines(operation, selections);
            &&& lines.len() == 1 + formats.len() + models.len()
            &&& 0 <= i < formats.len() ==> lines[1 + i] == "  "@ + ascii_upper(formats[i])
                + " default: "@ + selections.format_defaults[formats[i]]
            &&& 0 <= i < models.len() ==> lines[1 + formats.len() + i] == "  Model "@ + models[i]
                + ": "@ + selections.model_overrides[models[i]]
        }),
{
}

/// Each check for updates is shown, in their order.
pub proof fn law_update_checks_are_shown(checks: Seq<CheckView>, i: int)
    requires
        0 <= i < checks.len(),
    ensures
        update_lines(checks).len() == checks.len(),
        update_lines(checks)[i] == "  "@ + checks[i].runtime.manifest.identity.engine_id + " "@
            + checks[i].runtime.manifest.identity.version + ": "@ + state_text(checks[i].state),
{
}

/// A setting that has a value is shown with it and where it comes from, and is marked where the runtime
/// does not take it; one without is left to the engine.
pub proof fn law_settings_are_shown_with_their_source(row: SettingRow)
    ensures
        row.value is None ==> effective_line(row) == setting_row(
            row.id@,
            "<upstream default>"@,
            "upstream"@,
        ),
        row.value is Some && row.supported ==> effective_line(row) == setting_row(
            row.id@,
            row.value->0@,
            row.source@,
        ),
        row.value is Some && !row.supported && row.unsupported_reason is Some ==> effective_line(
            row,
        ) == setting_row(
            row.id@,
            row.value->0@,
            row.source@ + (" [incompatible: "@ + row.unsupported_reason->0@ + "]"@),
        ),
{
    reveal_strlit("");
    assert(row.source@ + ""@ =~= row.source@);
}

} // verus!
