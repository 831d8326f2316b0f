//! What the commands print, line by line.
use vstd::prelude::*;
use vstd::string::*;

use crate::doctor::server::PublicAuthStatus;
use crate::doctor::DoctorStatus;
use crate::duplicate::{lemma_views_push, optional, views};
use crate::engines::{EngineStatus, EngineStatusView, InstallationState, InstallationStateView};
use crate::lifecycle::{BackendLifecycle, NoticeView, RuntimeNotice, RuntimeNoticeLevel};
use crate::references::append_texts;
use crate::schemas::ModelServingCapabilities;
use crate::text::{
    cat2, cat3, cat4, cat5, cat6, cat7, chars_of, decimal, decimal_text, join, joined, pad_left,
    pad_right, padded_left, padded_right, same, text_of,
};

pub mod profiles;
pub mod runtimes;

verus! {

pub(crate) fn no_lines() -> (result: Vec<String>)
    ensures
        views(result@) == Seq::<Seq<char>>::empty(),
{
    let result: Vec<String> = Vec::new();
    proof {
        assert(views(result@) =~= Seq::<Seq<char>>::empty());
    }
    result
}

pub(crate) fn lines1(a: String) -> (result: Vec<String>)
    ensures
        views(result@) == seq![a@],
{
    let ghost expected = seq![a@];
    let result = vec![a];
    proof {
        assert(views(result@) =~= expected);
    }
    result
}

pub(crate) fn lines2(a: String, b: String) -> (result: Vec<String>)
    ensures
        views(result@) == seq![a@, b@],
{
    let ghost expected = seq![a@, b@];
    let result = vec![a, b];
    proof {
        assert(views(result@) =~= expected);
    }
    result
}

pub(crate) fn lines3(a: String, b: String, c: String) -> (result: Vec<String>)
    ensures
        views(result@) == seq![a@, b@, c@],
{
    let ghost expected = seq![a@, b@, c@];
    let result = vec![a, b, c];
    proof {
        assert(views(result@) =~= expected);
    }
    result
}

pub(crate) fn lines4(a: String, b: String, c: String, d: String) -> (result: Vec<String>)
    ensures
        views(result@) == seq![a@, b@, c@, d@],
{
    let ghost expected = seq![a@, b@, c@, d@];
    let result = vec![a, b, c, d];
    proof {
        assert(views(result@) =~= expected);
    }
    result
}

/// A line with a value, if there is one.
pub open spec fn field(label: Seq<char>, value: Option<Seq<char>>) -> Seq<Seq<char>> {
    match value {
        Some(value) => seq![label + value],
        None => Seq::empty(),
    }
}

pub(crate) fn add_field(lines: &mut Vec<String>, label: &str, value: &Option<String>)
    ensures
        views(final(lines)@) == views(old(lines)@) + field(label@, optional(*value)),
{
    let ghost before = views(lines@);
    match value {
        Some(value) => {
            append_texts(lines, lines1(cat2(label, value.as_str())));
        },
        None => {
            proof {
                assert(before + Seq::<Seq<char>>::empty() =~= before);
            }
        },
    }
}

/// A line that is there on a condition.
pub open spec fn line_if(condition: bool, line: Seq<char>) -> Seq<Seq<char>> {
    if condition {
        seq![line]
    } else {
        Seq::empty()
    }
}

pub(crate) fn add_line_if(lines: &mut Vec<String>, condition: bool, line: &str)
    ensures
        views(final(lines)@) == views(old(lines)@) + line_if(condition, line@),
{
    let ghost before = views(lines@);
    if condition {
        append_texts(lines, lines1(line.to_owned()));
    } else {
        proof {
            assert(before + Seq::<Seq<char>>::empty() =~= before);
        }
    }
}

/// A value, or what stands for none.
pub open spec fn or_else(value: Option<Seq<char>>, otherwise: Seq<char>) -> Seq<char> {
    match value {
        Some(value) => value,
        None => otherwise,
    }
}

pub(crate) fn text_or<'a>(value: &'a Option<String>, otherwise: &'a str) -> (result: &'a str)
    ensures
        result@ == or_else(optional(*value), otherwise@),
{
    match value {
        Some(value) => value.as_str(),
        None => otherwise,
    }
}

/// The models as the server knows them.
#[derive(Debug)]
pub enum ModelsShown {
    Discovered(u64),
    Other(String),
}

/// What the running server says of itself.
#[derive(Debug)]
pub struct ControlSummary {
    pub available_engine_count: u64,
    pub installed_engine_count: u64,
    pub running_engine_count: u64,
    pub lifecycle: BackendLifecycle,
    pub model_id: Option<String>,
    pub engine_id: Option<String>,
    pub runtime_id: Option<String>,
    pub runtime_version: Option<String>,
    pub runtime_variant: Option<String>,
    pub runtime_executable_sha256: Option<String>,
    pub recent_events: Vec<RuntimeNotice>,
}

/// What is known of the server.
#[derive(Debug)]
pub struct ServerShown {
    pub label: String,
    pub observation: Option<String>,
    pub endpoint: Option<String>,
    pub auth: PublicAuthStatus,
    pub models: ModelsShown,
    pub control: Option<ControlSummary>,
}

pub open spec fn control_lines(control: ControlSummary) -> Seq<Seq<char>> {
    seq![
        "  Adapters:        "@ + decimal(control.available_engine_count as nat)
            + " registered, "@ + (decimal(control.installed_engine_count as nat)
            + " external binaries, "@ + decimal(control.running_engine_count as nat)
            + " backend running"@),
        "  Backend:         "@ + control.lifecycle.name_text(),
        "  Active model:    "@ + or_else(optional(control.model_id), "none"@),
    ] + field("  Active engine:   "@, optional(control.engine_id)) + field(
        "  Active runtime:  "@,
        optional(control.runtime_id),
    ) + field("  Runtime version: "@, optional(control.runtime_version)) + field(
        "  Runtime variant: "@,
        optional(control.runtime_variant),
    ) + field("  Runtime SHA-256: "@, optional(control.runtime_executable_sha256))
}

fn show_control(control: &ControlSummary) -> (result: Vec<String>)
    ensures
        views(result@) == control_lines(*control),
{
    let counts = cat4(
        decimal_text(control.installed_engine_count).as_str(),
        " external binaries, ",
        decimal_text(control.running_engine_count).as_str(),
        " backend running",
    );
    let mut lines = lines3(
        cat4(
            "  Adapters:        ",
            decimal_text(control.available_engine_count).as_str(),
            " registered, ",
            counts.as_str(),
        ),
        cat2("  Backend:         ", control.lifecycle.name()),
        cat2("  Active model:    ", text_or(&control.model_id, "none")),
    );
    add_field(&mut lines, "  Active engine:   ", &control.engine_id);
    add_field(&mut lines, "  Active runtime:  ", &control.runtime_id);
    add_field(&mut lines, "  Runtime version: ", &control.runtime_version);
    add_field(&mut lines, "  Runtime variant: ", &control.runtime_variant);
    add_field(&mut lines, "  Runtime SHA-256: ", &control.runtime_executable_sha256);
    lines
}

pub open spec fn status_lines(server: ServerShown) -> Seq<Seq<char>> {
    seq!["Norted Server"@, "  Server:          "@ + server.label@] + field(
        "  Observation:     unavailable: "@,
        optional(server.observation),
    ) + field("  Endpoint:        "@, optional(server.endpoint)) + seq![
        "  Public bind:     "@ + server.auth.bind@,
        "  Auth configured: "@ + server.auth.configured_mode@,
        "  Auth effective:  "@ + server.auth.effective_mode@,
        "  Active API keys: "@ + decimal(server.auth.active_key_count as nat),
    ] + line_if(
        server.auth.insecure_remote,
        "  SECURITY:        WARNING: remote authentication is disabled"@,
    ) + seq![
        match server.models {
            ModelsShown::Discovered(count) => "  Models:          "@ + decimal(count as nat)
                + " discovered"@,
            ModelsShown::Other(label) => "  Models:          "@ + label@,
        },
    ] + match server.control {
        Some(control) => control_lines(control),
        None => seq![
            "  Adapters:        unavailable (no private control observation)"@,
            "  Active model:    unavailable"@,
        ],
    }
}

pub fn status(server: &ServerShown) -> (result: Vec<String>)
    ensures
        views(result@) == status_lines(*server),
{
    let mut lines = lines2(
        "Norted Server".to_owned(),
        cat2("  Server:          ", server.label.as_str()),
    );
    add_field(&mut lines, "  Observation:     unavailable: ", &server.observation);
    add_field(&mut lines, "  Endpoint:        ", &server.endpoint);
    append_texts(
        &mut lines,
        lines4(
            cat2("  Public bind:     ", server.auth.bind.as_str()),
            cat2("  Auth configured: ", server.auth.configured_mode.as_str()),
            cat2("  Auth effective:  ", server.auth.effective_mode.as_str()),
            cat2("  Active API keys: ", decimal_text(server.auth.active_key_count).as_str()),
        ),
    );
    add_line_if(
        &mut lines,
        server.auth.insecure_remote,
        "  SECURITY:        WARNING: remote authentication is disabled",
    );
    let models = match &server.models {
        ModelsShown::Discovered(count) => cat3(
            "  Models:          ",
            decimal_text(*count).as_str(),
            " discovered",
        ),
        ModelsShown::Other(label) => cat2("  Models:          ", label.as_str()),
    };
    append_texts(&mut lines, lines1(models));
    let control = match &server.control {
        Some(control) => show_control(control),
        None => lines2(
            "  Adapters:        unavailable (no private control observation)".to_owned(),
            "  Active model:    unavailable".to_owned(),
        ),
    };
    append_texts(&mut lines, control);
    lines
}

/// A model as it is listed. Its size is given as it is shown.
#[derive(Debug)]
pub struct ModelRow {
    pub id: String,
    pub format: String,
    pub size: String,
    pub path: String,
}

/// Four columns: two to the left, one to the right, and the rest.
pub open spec fn model_row(
    id: Seq<char>,
    format: Seq<char>,
    size: Seq<char>,
    path: Seq<char>,
) -> Seq<char> {
    padded_right(id, 36) + " "@ + padded_right(format, 7) + " "@ + padded_left(size, 12) + "  "@
        + path
}

fn show_model_row(id: &str, format: &str, size: &str, path: &str) -> (result: String)
    ensures
        result@ == model_row(id@, format@, size@, path@),
{
    cat7(
        pad_right(id, 36).as_str(),
        " ",
        pad_right(format, 7).as_str(),
        " ",
        pad_left(size, 12).as_str(),
        "  ",
        path,
    )
}

pub open spec fn model_lines(
    rows: Seq<ModelRow>,
    has_paths: bool,
    config_path: Seq<char>,
) -> Seq<Seq<char>> {
    if rows.len() == 0 {
        seq!["No model artifacts discovered."@] + line_if(
            !has_paths,
            "Configure one or more search directories in "@ + config_path
                + " under [models].paths."@,
        )
    } else {
        seq![model_row("MODEL ID"@, "FORMAT"@, "SIZE"@, "PATH"@)] + Seq::new(
            rows.len(),
            |i: int| model_row(rows[i].id@, rows[i].format@, rows[i].size@, rows[i].path@),
        )
    }
}

pub fn models(rows: &Vec<ModelRow>, has_paths: bool, config_path: &str) -> (result: Vec<String>)
    ensures
        views(result@) == model_lines(rows@, has_paths, config_path@),
{
    if rows.len() == 0 {
        let mut lines = lines1("No model artifacts discovered.".to_owned());
        add_line_if(
            &mut lines,
            !has_paths,
            cat3(
                "Configure one or more search directories in ",
                config_path,
                " under [models].paths.",
            ).as_str(),
        );
        return lines;
    }
    let mut lines = lines1(show_model_row("MODEL ID", "FORMAT", "SIZE", "PATH"));
    let ghost head = views(lines@);
    let ghost expected = Seq::new(
        rows@.len(),
        |i: int| model_row(rows@[i].id@, rows@[i].format@, rows@[i].size@, rows@[i].path@),
    );
    let mut i: usize = 0;
    proof {
        assert(head + expected.take(0) =~= head);
    }
    while i < rows.len()
        invariant
            i <= rows@.len(),
            expected == Seq::new(
                rows@.len(),
                |k: int|
                    model_row(rows@[k].id@, rows@[k].format@, rows@[k].size@, rows@[k].path@),
            ),
            views(lines@) == head + expected.take(i as int),
        decreases rows@.len() - i,
    {
        let line = show_model_row(
            rows[i].id.as_str(),
            rows[i].format.as_str(),
            rows[i].size.as_str(),
            rows[i].path.as_str(),
        );
        proof {
            lemma_views_push(lines@, line);
            assert(expected.take(i + 1) =~= expected.take(i as int).push(expected[i as int]));
            assert((head + expected.take(i as int)).push(line@) =~= head + expected.take(i + 1));
        }
        lines.push(line);
        i += 1;
    }
    proof {
        assert(expected.take(expected.len() as int) =~= expected);
    }
    lines
}

/// The lines for some warnings.
pub open spec fn warning_lines(warnings: Seq<Seq<char>>) -> Seq<Seq<char>> {
    warnings.map_values(|warning: Seq<char>| "Warning: "@ + warning)
}

pub fn warn(warnings: &Vec<String>) -> (result: Vec<String>)
    ensures
        views(result@) == warning_lines(views(warnings@)),
{
    let ghost all = views(warnings@);
    let ghost expected = warning_lines(all);
    let mut lines = no_lines();
    let mut i: usize = 0;
    proof {
        assert(views(lines@) =~= expected.take(0));
    }
    while i < warnings.len()
        invariant
            i <= warnings@.len(),
            all == views(warnings@),
            expected == warning_lines(all),
            views(lines@) == expected.take(i as int),
        decreases warnings@.len() - i,
    {
        let line = cat2("Warning: ", warnings[i].as_str());
        proof {
            lemma_views_push(lines@, line);
            assert(all[i as int] == warnings@[i as int]@);
            assert(expected.take(i + 1) =~= expected.take(i as int).push(expected[i as int]));
        }
        lines.push(line);
        i += 1;
    }
    proof {
        assert(expected.take(expected.len() as int) =~= expected);
    }
    lines
}

/// Texts with commas between them, or that there are none.
pub open spec fn comma_text(values: Seq<Seq<char>>) -> Seq<char> {
    if values.len() == 0 {
        "none"@
    } else {
        joined(values, ", "@)
    }
}

pub fn comma_list(values: &Vec<String>) -> (result: String)
    ensures
        result@ == comma_text(views(values@)),
{
    proof {
        assert(views(values@).len() == values@.len());
    }
    if values.len() == 0 {
        "none".to_owned()
    } else {
        join(values, ", ")
    }
}

pub open spec fn yes_text(value: bool) -> Seq<char> {
    if value {
        "yes"@
    } else {
        "no"@
    }
}

pub fn yes_no(value: bool) -> (result: &'static str)
    ensures
        result@ == yes_text(value),
{
    if value {
        "yes"
    } else {
        "no"
    }
}

/// What an artifact of the NInfer format says of itself.
#[derive(Debug)]
pub struct NinferIdentity {
    pub container_version: String,
    pub model_id: String,
    pub weights_id: String,
}

/// What is known of the package of a model.
#[derive(Debug)]
pub struct PackageShown {
    pub kind: String,
    pub manifest_schema: String,
    pub manifest_version: String,
    pub validation_status: String,
    pub runtime_policy: Option<String>,
    pub runtime_package_capability: Option<String>,
    pub sharp_required: bool,
    pub sharp_validated: bool,
    pub sharp_application_capability: Option<String>,
    pub canonical_lineage_key_short: Option<String>,
    pub ninfer_benchmark_profiles: Vec<String>,
}

pub open spec fn package_lines(package: PackageShown) -> Seq<Seq<char>> {
    seq![
        "Package:              "@ + package.kind@,
        "Package manifest:     "@ + package.manifest_schema@ + " v"@ + package.manifest_version@,
        "Package validation:   "@ + package.validation_status@,
        "Package policy:       "@ + or_else(optional(package.runtime_policy), "n/a"@),
    ] + seq![
        "Package runtime:      "@ + or_else(
            optional(package.runtime_package_capability),
            "unknown"@,
        ),
        "Sharp:                required="@ + yes_text(package.sharp_required) + " validated="@
            + yes_text(package.sharp_validated) + " application="@ + or_else(
            optional(package.sharp_application_capability),
            "unknown"@,
        ),
    ] + field("Package lineage:      "@, optional(package.canonical_lineage_key_short)) + line_if(
        package.ninfer_benchmark_profiles@.len() > 0,
        "Package profiles:     "@ + comma_text(views(package.ninfer_benchmark_profiles@)),
    )
}

fn show_package(package: &PackageShown) -> (result: Vec<String>)
    ensures
        views(result@) == package_lines(*package),
{
    let mut lines = lines4(
        cat2("Package:              ", package.kind.as_str()),
        cat4(
            "Package manifest:     ",
            package.manifest_schema.as_str(),
            " v",
            package.manifest_version.as_str(),
        ),
        cat2("Package validation:   ", package.validation_status.as_str()),
        cat2("Package policy:       ", text_or(&package.runtime_policy, "n/a")),
    );
    append_texts(
        &mut lines,
        lines2(
            cat2(
                "Package runtime:      ",
                text_or(&package.runtime_package_capability, "unknown"),
            ),
            cat6(
                "Sharp:                required=",
                yes_no(package.sharp_required),
                " validated=",
                yes_no(package.sharp_validated),
                " application=",
                text_or(&package.sharp_application_capability, "unknown"),
            ),
        ),
    );
    add_field(&mut lines, "Package lineage:      ", &package.canonical_lineage_key_short);
    let profiles = cat2(
        "Package profiles:     ",
        comma_list(&package.ninfer_benchmark_profiles).as_str(),
    );
    add_line_if(&mut lines, package.ninfer_benchmark_profiles.len() > 0, profiles.as_str());
    lines
}

pub open spec fn info_lines(
    model: ModelServingCapabilities,
    identity: Option<NinferIdentity>,
    package: Option<PackageShown>,
) -> Seq<Seq<char>> {
    seq![
        "Model:                "@ + model.model_id@,
        "Format:               "@ + model.format@,
    ] + match identity {
        Some(identity) => seq![
            "Container version:    "@ + identity.container_version@,
            "Native model:         "@ + identity.model_id@,
            "Native weights:       "@ + identity.weights_id@,
        ],
        None => Seq::empty(),
    } + match package {
        Some(package) => package_lines(package),
        None => Seq::empty(),
    } + seq![
        "Compatible engines:   "@ + comma_text(views(model.compatible_engine_ids@)),
        "Compatible runtimes:  "@ + comma_text(views(model.compatible_installed_runtime_ids@)),
        "Selected runtime:     "@ + or_else(optional(model.selected_runtime_id), "none"@),
        "Active:               "@ + yes_text(model.active),
    ] + seq![
        "Text input/output:    "@ + yes_text(model.text_input) + " / "@ + yes_text(
            model.text_output,
        ),
        "Responses:            "@ + yes_text(model.responses),
        "Chat Completions:     "@ + yes_text(model.chat_completions),
        "Streaming:            "@ + yes_text(model.streaming),
    ] + seq![
        "Tool calling:         "@ + yes_text(model.tools),
        "Vision:               "@ + yes_text(model.vision),
        "Structured output:    "@ + yes_text(model.structured_output),
    ]
}

pub fn model_info(
    model: &ModelServingCapabilities,
    identity: &Option<NinferIdentity>,
    package: &Option<PackageShown>,
) -> (result: Vec<String>)
    ensures
        views(result@) == info_lines(*model, *identity, *package),
{
    let mut lines = lines2(
        cat2("Model:                ", model.model_id.as_str()),
        cat2("Format:               ", model.format.as_str()),
    );
    let native = match identity {
        Some(identity) => lines3(
            cat2("Container version:    ", identity.container_version.as_str()),
            cat2("Native model:         ", identity.model_id.as_str()),
            cat2("Native weights:       ", identity.weights_id.as_str()),
        ),
        None => no_lines(),
    };
    append_texts(&mut lines, native);
    let packaged = match package {
        Some(package) => show_package(package),
        None => no_lines(),
    };
    append_texts(&mut lines, packaged);
    append_texts(
        &mut lines,
        lines4(
            cat2(
                "Compatible engines:   ",
                comma_list(&model.compatible_engine_ids).as_str(),
            ),
            cat2(
                "Compatible runtimes:  ",
                comma_list(&model.compatible_installed_runtime_ids).as_str(),
            ),
            cat2("Selected runtime:     ", text_or(&model.selected_runtime_id, "none")),
            cat2("Active:               ", yes_no(model.active)),
        ),
    );
    append_texts(
        &mut lines,
        lines4(
            cat4(
                "Text input/output:    ",
                yes_no(model.text_input),
                " / ",
                yes_no(model.text_output),
            ),
            cat2("Responses:            ", yes_no(model.responses)),
            cat2("Chat Completions:     ", yes_no(model.chat_completions)),
            cat2("Streaming:            ", yes_no(model.streaming)),
        ),
    );
    append_texts(
        &mut lines,
        lines3(
            cat2("Tool calling:         ", yes_no(model.tools)),
            cat2("Vision:               ", yes_no(model.vision)),
            cat2("Structured output:    ", yes_no(model.structured_output)),
        ),
    );
    lines
}

pub open spec fn auth_lines(status: PublicAuthStatus) -> Seq<Seq<char>> {
    seq![
        "Norted public API authentication"@,
        "  Bind:             "@ + status.bind@,
        "  Exposure:         "@ + if status.loopback {
            "loopback"@
        } else {
            "remote"@
        },
    ] + seq![
        "  Configured mode:  "@ + status.configured_mode@,
        "  Effective mode:   "@ + status.effective_mode@,
        "  Active API keys:  "@ + decimal(status.active_key_count as nat),
        "  Bind allowed:     "@ + yes_text(status.bind_allowed),
    ]
}

/// What is shown of the authentication, and what is warned of.
pub fn auth_status(status: &PublicAuthStatus) -> (result: (Vec<String>, Vec<String>))
    ensures
        views(result.0@) == auth_lines(*status),
        views(result.1@) == line_if(
            status.insecure_remote,
            "WARNING: remote HTTP serving has authentication disabled; prompts, outputs, and credentials have no Norted transport protection."@,
        ),
{
    let mut lines = lines3(
        "Norted public API authentication".to_owned(),
        cat2("  Bind:             ", status.bind.as_str()),
        cat2(
            "  Exposure:         ",
            if status.loopback {
                "loopback"
            } else {
                "remote"
            },
        ),
    );
    append_texts(
        &mut lines,
        lines4(
            cat2("  Configured mode:  ", status.configured_mode.as_str()),
            cat2("  Effective mode:   ", status.effective_mode.as_str()),
            cat2("  Active API keys:  ", decimal_text(status.active_key_count).as_str()),
            cat2("  Bind allowed:     ", yes_no(status.bind_allowed)),
        ),
    );
    let warnings = if status.insecure_remote {
        lines1(
            "WARNING: remote HTTP serving has authentication disabled; prompts, outputs, and credentials have no Norted transport protection.".to_owned(),
        )
    } else {
        no_lines()
    };
    (lines, warnings)
}

/// What is shown of a key.
#[derive(Debug)]
pub struct ApiKeySummary {
    pub key_id: String,
    pub name: String,
    pub display_prefix: String,
    pub active: bool,
}

pub open spec fn key_row(
    id: Seq<char>,
    name: Seq<char>,
    prefix: Seq<char>,
    state: Seq<char>,
) -> Seq<char> {
    padded_right(id, 38) + " "@ + padded_right(name, 24) + " "@ + padded_right(prefix, 20) + " "@
        + state
}

fn show_key_row(id: &str, name: &str, prefix: &str, state: &str) -> (result: String)
    ensures
        result@ == key_row(id@, name@, prefix@, state@),
{
    cat7(
        pad_right(id, 38).as_str(),
        " ",
        pad_right(name, 24).as_str(),
        " ",
        pad_right(prefix, 20).as_str(),
        " ",
        state,
    )
}

pub open spec fn key_line(key: ApiKeySummary) -> Seq<char> {
    key_row(
        key.key_id@,
        key.name@,
        key.display_prefix@ + "..."@,
        if key.active {
            "active"@
        } else {
            "revoked"@
        },
    )
}

pub open spec fn key_lines(keys: Seq<ApiKeySummary>) -> Seq<Seq<char>> {
    if keys.len() == 0 {
        seq!["No Norted API keys exist."@]
    } else {
        seq![key_row("KEY ID"@, "NAME"@, "PREFIX"@, "STATE"@)] + Seq::new(
            keys.len(),
            |i: int| key_line(keys[i]),
        )
    }
}

pub fn api_keys(keys: &Vec<ApiKeySummary>) -> (result: Vec<String>)
    ensures
        views(result@) == key_lines(keys@),
{
    if keys.len() == 0 {
        return lines1("No Norted API keys exist.".to_owned());
    }
    let mut lines = lines1(show_key_row("KEY ID", "NAME", "PREFIX", "STATE"));
    let ghost head = views(lines@);
    let ghost expected = Seq::new(keys@.len(), |i: int| key_line(keys@[i]));
    let mut i: usize = 0;
    proof {
        assert(head + expected.take(0) =~= head);
    }
    while i < keys.len()
        invariant
            i <= keys@.len(),
            expected == Seq::new(keys@.len(), |k: int| key_line(keys@[k])),
            views(lines@) == head + expected.take(i as int),
        decreases keys@.len() - i,
    {
        let key = &keys[i];
        let line = show_key_row(
            key.key_id.as_str(),
            key.name.as_str(),
            cat2(key.display_prefix.as_str(), "...").as_str(),
            if key.active {
                "active"
            } else {
                "revoked"
            },
        );
        proof {
            lemma_views_push(lines@, line);
            assert(expected.take(i + 1) =~= expected.take(i as int).push(expected[i as int]));
            assert((head + expected.take(i as int)).push(line@) =~= head + expected.take(i + 1));
        }
        lines.push(line);
        i += 1;
    }
    proof {
        assert(expected.take(expected.len() as int) =~= expected);
    }
    lines
}

pub fn api_key_created(key_id: &str, name: &str, shown_once: &str) -> (result: Vec<String>)
    ensures
        views(result@) == seq![
            "Created Norted API key "@ + key_id@ + " ("@ + name@ + ")"@,
            "The secret is shown once; store it securely:"@,
            shown_once@,
        ],
{
    lines3(
        cat5("Created Norted API key ", key_id, " (", name, ")"),
        "The secret is shown once; store it securely:".to_owned(),
        shown_once.to_owned(),
    )
}

pub fn api_key_revoked(key_id: &str, name: &str) -> (result: Vec<String>)
    ensures
        views(result@) == seq!["Revoked Norted API key "@ + key_id@ + " ("@ + name@ + ")."@],
{
    lines1(cat5("Revoked Norted API key ", key_id, " (", name, ")."))
}

/// What is shown of an engine.
pub open spec fn engine_lines(engine: EngineStatusView) -> Seq<Seq<char>> {
    let state = match engine.probe.installation {
        InstallationStateView::NotInstalled => "not installed"@,
        InstallationStateView::Invalid { .. } => "invalid"@,
        InstallationStateView::Installed { .. } => if engine.probe.healthy {
            "available"@
        } else {
            "unhealthy"@
        },
    };
    seq![
        "  "@ + engine.identity.display_name + ": "@ + state,
        "    Health: "@ + engine.probe.detail,
    ] + match engine.probe.installation {
        InstallationStateView::Installed { installation } => seq![
            "    Binary: "@ + installation.binary_path,
            "    Version: "@ + or_else(installation.version, "unknown"@),
            "    Revision: "@ + or_else(installation.revision, "unknown"@),
            "    Source: external configured binary"@,
        ],
        _ => Seq::empty(),
    }
}

/// The lines of the first engines.
pub open spec fn engines_lines(engines: Seq<EngineStatusView>) -> Seq<Seq<char>>
    decreases engines.len(),
{
    if engines.len() == 0 {
        Seq::empty()
    } else {
        engines_lines(engines.drop_last()) + engine_lines(engines.last())
    }
}

fn show_engine(engine: &EngineStatus) -> (result: Vec<String>)
    ensures
        views(result@) == engine_lines(engine@),
{
    let state = match &engine.probe.installation {
        InstallationState::NotInstalled => "not installed",
        InstallationState::Invalid { reason: _ } => "invalid",
        InstallationState::Installed { installation: _ } => if engine.probe.healthy {
            "available"
        } else {
            "unhealthy"
        },
    };
    let mut lines = lines2(
        cat4("  ", engine.identity.display_name.as_str(), ": ", state),
        cat2("    Health: ", engine.probe.detail.as_str()),
    );
    let more = match &engine.probe.installation {
        InstallationState::Installed { installation } => lines4(
            cat2("    Binary: ", installation.binary_path.as_str()),
            cat2("    Version: ", text_or(&installation.version, "unknown")),
            cat2("    Revision: ", text_or(&installation.revision, "unknown")),
            "    Source: external configured binary".to_owned(),
        ),
        _ => no_lines(),
    };
    append_texts(&mut lines, more);
    lines
}

pub fn engines(source: &str, list: &Vec<EngineStatus>) -> (result: Vec<String>)
    ensures
        views(result@) == seq!["Inference engines ("@ + source@ + ")"@] + engines_lines(
            views(list@),
        ),
{
    let ghost all = views(list@);
    let mut lines = lines1(cat3("Inference engines (", source, ")"));
    let ghost head = views(lines@);
    let mut i: usize = 0;
    proof {
        assert(head + engines_lines(all.take(0)) =~= head);
    }
    while i < list.len()
        invariant
            i <= list@.len(),
            all == views(list@),
            views(lines@) == head + engines_lines(all.take(i as int)),
        decreases list@.len() - i,
    {
        let more = show_engine(&list[i]);
        let ghost added = views(more@);
        proof {
            assert(all.take(i + 1).drop_last() =~= all.take(i as int));
            assert(all.take(i + 1).last() == list@[i as int]@);
        }
        append_texts(&mut lines, more);
        proof {
            let so_far = engines_lines(all.take(i as int));
            assert((head + so_far) + added =~= head + (so_far + added));
        }
        i += 1;
    }
    proof {
        assert(all.take(all.len() as int) =~= all);
    }
    lines
}

/// What is shown after a load or an unload.
pub open spec fn operation_lines(operation: Seq<char>, status: ControlSummary) -> Seq<Seq<char>> {
    seq![
        if operation == "load"@ {
            "Load"@
        } else {
            "Unload"@
        } + " complete."@,
        "  Backend: "@ + status.lifecycle.name_text(),
        "  Model:   "@ + or_else(optional(status.model_id), "none"@),
    ] + field("  Engine:  "@, optional(status.engine_id)) + field(
        "  Runtime: "@,
        optional(status.runtime_id),
    ) + match status.runtime_version {
        Some(version) => seq![
            "  Version: "@ + version@ + match status.runtime_variant {
                Some(variant) => " / "@ + variant@,
                None => ""@,
            },
        ],
        None => Seq::empty(),
    }
}

pub open spec fn level_text(level: RuntimeNoticeLevel) -> Seq<char> {
    match level {
        RuntimeNoticeLevel::Info => "Info"@,
        RuntimeNoticeLevel::Warning => "Warning"@,
        RuntimeNoticeLevel::Error => "Error"@,
    }
}

/// The warnings and errors among the first events.
pub open spec fn event_lines(events: Seq<NoticeView>) -> Seq<Seq<char>>
    decreases events.len(),
{
    if events.len() == 0 {
        Seq::empty()
    } else if events.last().level == RuntimeNoticeLevel::Info {
        event_lines(events.drop_last())
    } else {
        event_lines(events.drop_last()).push(
            "  "@ + level_text(events.last().level) + ": "@ + events.last().message,
        )
    }
}

fn show_events(events: &Vec<RuntimeNotice>) -> (result: Vec<String>)
    ensures
        views(result@) == event_lines(views(events@)),
{
    let ghost all = views(events@);
    let mut lines = no_lines();
    let mut i: usize = 0;
    proof {
        assert(views(lines@) =~= event_lines(all.take(0)));
    }
    while i < events.len()
        invariant
            i <= events@.len(),
            all == views(events@),
            views(lines@) == event_lines(all.take(i as int)),
        decreases events@.len() - i,
    {
        proof {
            assert(all.take(i + 1).drop_last() =~= all.take(i as int));
            assert(all.take(i + 1).last() == events@[i as int]@);
        }
        let level = match events[i].level {
            RuntimeNoticeLevel::Info => None,
            RuntimeNoticeLevel::Warning => Some("Warning"),
            RuntimeNoticeLevel::Error => Some("Error"),
        };
        match level {
            Some(level) => {
                let line = cat4("  ", level, ": ", events[i].message.as_str());
                proof {
                    lemma_views_push(lines@, line);
                }
                lines.push(line);
            },
            None => {},
        }
        i += 1;
    }
    proof {
        assert(all.take(all.len() as int) =~= all);
    }
    lines
}

/// What is shown after a load or an unload, and what is warned of.
pub fn control_operation(operation: &str, status: &ControlSummary) -> (result: (
    Vec<String>,
    Vec<String>,
))
    ensures
        views(result.0@) == operation_lines(operation@, *status),
        views(result.1@) == event_lines(views(status.recent_events@)),
{
    let done = if same(operation, "load") {
        "Load"
    } else {
        "Unload"
    };
    let mut lines = lines3(
        cat2(done, " complete."),
        cat2("  Backend: ", status.lifecycle.name()),
        cat2("  Model:   ", text_or(&status.model_id, "none")),
    );
    add_field(&mut lines, "  Engine:  ", &status.engine_id);
    add_field(&mut lines, "  Runtime: ", &status.runtime_id);
    let version = match &status.runtime_version {
        Some(version) => {
            let variant = match &status.runtime_variant {
                Some(variant) => cat2(" / ", variant.as_str()),
                None => "".to_owned(),
            };
            lines1(cat3("  Version: ", version.as_str(), variant.as_str()))
        },
        None => no_lines(),
    };
    append_texts(&mut lines, version);
    (lines, show_events(&status.recent_events))
}

/// Where the configuration comes from.
#[derive(Debug, Clone, Copy, PartialEq, Eq, Structural)]
pub enum ConfigSource {
    File,
    Defaults,
}

impl ConfigSource {
    pub open spec fn name(self) -> Seq<char> {
        match self {
            ConfigSource::File => "file"@,
            ConfigSource::Defaults => "defaults"@,
        }
    }

    /// What stands for the source where it is written for machines.
    pub fn label(self) -> (result: &'static str)
        ensures
            result@ == self.name(),
    {
        match self {
            ConfigSource::File => "file",
            ConfigSource::Defaults => "defaults",
        }
    }
}

pub open spec fn config_lines(path: Seq<char>, source: ConfigSource) -> Seq<Seq<char>> {
    seq![
        "# path: "@ + path,
        "# source: "@ + match source {
            ConfigSource::File => "file"@,
            ConfigSource::Defaults => "built-in defaults; no file written"@,
        },
    ]
}

/// The lines above the configuration.
pub fn config(path: &str, source: ConfigSource) -> (result: Vec<String>)
    ensures
        views(result@) == config_lines(path@, source),
{
    let shown = match source {
        ConfigSource::File => "file",
        ConfigSource::Defaults => "built-in defaults; no file written",
    };
    lines2(cat2("# path: ", path), cat2("# source: ", shown))
}

/// A check as it is listed.
#[derive(Debug)]
pub struct DoctorCheck {
    pub status: DoctorStatus,
    pub name: String,
    pub detail: String,
    pub fatal: bool,
}

pub open spec fn check_line(check: DoctorCheck) -> Seq<char> {
    "  "@ + padded_right(check.status.name(), 4) + "  "@ + padded_right(check.name@, 20) + " "@
        + check.detail@
}

/// How many of the first checks are fatal.
pub open spec fn fatal_count(checks: Seq<DoctorCheck>) -> nat
    decreases checks.len(),
{
    if checks.len() == 0 {
        0
    } else {
        fatal_count(checks.drop_last()) + if checks.last().fatal {
            1nat
        } else {
            0nat
        }
    }
}

/// How many of the first checks warn.
pub open spec fn warning_count(checks: Seq<DoctorCheck>) -> nat
    decreases checks.len(),
{
    if checks.len() == 0 {
        0
    } else {
        warning_count(checks.drop_last()) + if checks.last().status == DoctorStatus::Warning {
            1nat
        } else {
            0nat
        }
    }
}

pub open spec fn doctor_lines(checks: Seq<DoctorCheck>) -> Seq<Seq<char>> {
    seq!["Norted Server doctor"@] + Seq::new(checks.len(), |i: int| check_line(checks[i])) + seq![
        ""@,
        decimal(fatal_count(checks)) + " fatal problem(s), "@ + decimal(warning_count(checks))
            + " warning(s)"@,
    ]
}

pub fn doctor(checks: &Vec<DoctorCheck>) -> (result: Vec<String>)
    ensures
        views(result@) == doctor_lines(checks@),
{
    let mut lines = lines1("Norted Server doctor".to_owned());
    let ghost head = views(lines@);
    let ghost expected = Seq::new(checks@.len(), |i: int| check_line(checks@[i]));
    let mut failures: usize = 0;
    let mut warnings: usize = 0;
    let mut i: usize = 0;
    proof {
        assert(head + expected.take(0) =~= head);
    }
    while i < checks.len()
        invariant
            i <= checks@.len(),
            failures <= i,
            warnings <= i,
            failures == fatal_count(checks@.take(i as int)),
            warnings == warning_count(checks@.take(i as int)),
            expected == Seq::new(checks@.len(), |k: int| check_line(checks@[k])),
            views(lines@) == head + expected.take(i as int),
        decreases checks@.len() - i,
    {
        let check = &checks[i];
        let line = cat6(
            "  ",
            pad_right(check.status.label(), 4).as_str(),
            "  ",
            pad_right(check.name.as_str(), 20).as_str(),
            " ",
            check.detail.as_str(),
        );
        proof {
            lemma_views_push(lines@, line);
            assert(expected.take(i + 1) =~= expected.take(i as int).push(expected[i as int]));
            assert((head + expected.take(i as int)).push(line@) =~= head + expected.take(i + 1));
            assert(checks@.take(i + 1).drop_last() =~= checks@.take(i as int));
            assert(checks@.take(i + 1).last() == checks@[i as int]);
        }
        lines.push(line);
        if check.fatal {
            failures += 1;
        }
        if check.status == DoctorStatus::Warning {
            warnings += 1;
        }
        i += 1;
    }
    proof {
        assert(expected.take(expected.len() as int) =~= expected);
        assert(checks@.take(checks@.len() as int) =~= checks@);
    }
    append_texts(
        &mut lines,
        lines2(
            "".to_owned(),
            cat4(
                decimal_text(failures as u64).as_str(),
                " fatal problem(s), ",
                decimal_text(warnings as u64).as_str(),
                " warning(s)",
            ),
        ),
    );
    lines
}

/// A text that is cut, with an ellipsis, where it is longer than a width.
pub open spec fn truncated(text: Seq<char>, width: nat) -> Seq<char> {
    if text.len() <= width {
        text
    } else if width == 0 {
        seq!['…']
    } else {
        text.take(width - 1).push('…')
    }
}

pub fn truncate(value: &str, width: usize) -> (result: String)
    ensures
        result@ == truncated(value@, width as nat),
{
    let chars = chars_of(value);
    if chars.len() <= width {
        return value.to_owned();
    }
    let kept: usize = if width == 0 {
        0
    } else {
        width - 1
    };
    let mut cut: Vec<char> = Vec::new();
    let mut i: usize = 0;
    while i < kept
        invariant
            i <= kept < chars@.len(),
            chars@ == value@,
            cut@ == value@.take(i as int),
        decreases kept - i,
    {
        proof {
            assert(value@.take(i + 1) =~= value@.take(i as int).push(value@[i as int]));
        }
        cut.push(chars[i]);
        i += 1;
    }
    cut.push('…');
    proof {
        assert(cut@ =~= truncated(value@, width as nat));
    }
    text_of(&cut)
}

/// A cut text is never longer than the width that was asked for, if that is not nothing.
pub proof fn law_truncated_texts_fit(text: Seq<char>, width: nat)
    requires
        width > 0,
    ensures
        truncated(text, width).len() <= width,
{
}

/// Of the events the warnings and errors are shown, in their order; what is only informing is not.
pub proof fn law_warnings_and_errors_are_shown(events: Seq<NoticeView>, next: NoticeView)
    ensures
        next.level == RuntimeNoticeLevel::Info ==> event_lines(events.push(next)) == event_lines(
            events,
        ),
        next.level == RuntimeNoticeLevel::Warning ==> event_lines(events.push(next)) == event_lines(
            events,
        ).push("  Warning: "@ + next.message),
        next.level == RuntimeNoticeLevel::Error ==> event_lines(events.push(next)) == event_lines(
            events,
        ).push("  Error: "@ + next.message),
        event_lines(Seq::empty()).len() == 0,
{
    reveal_strlit("  ");
    reveal_strlit(": ");
    reveal_strlit("Warning");
    reveal_strlit("Error");
    reveal_strlit("  Warning: ");
    reveal_strlit("  Error: ");
    assert(events.push(next).drop_last() =~= events);
    assert(events.push(next).last() == next);
    assert("  "@ + "Warning"@ + ": "@ =~= "  Warning: "@);
    assert("  "@ + "Error"@ + ": "@ =~= "  Error: "@);
}

/// An engine is shown as available where it is installed and healthy; its binary is shown where there is
/// one.
pub proof fn law_engines_are_shown_as_they_are(engine: EngineStatusView)
    ensures
        ({
            let lines = engine_lines(engine);
            let name = "  "@ + engine.identity.display_name + ": "@;
            let installation = engine.probe.installation;
            &&& installation is NotInstalled ==> lines[0] == name + "not installed"@
            &&& installation is Invalid ==> lines[0] == name + "invalid"@
            &&& installation is Installed && engine.probe.healthy ==> lines[0] == name
                + "available"@
            &&& installation is Installed && !engine.probe.healthy ==> lines[0] == name
                + "unhealthy"@
            &&& lines[1] == "    Health: "@ + engine.probe.detail
            &&& installation is Installed ==> lines.len() == 6
            &&& !(installation is Installed) ==> lines.len() == 2
            &&& installation matches InstallationStateView::Installed { installation } ==> lines[2]
                == "    Binary: "@ + installation.binary_path
        }),
{
}

/// A key is shown with its name, the beginning of it, and whether it is active; never more of it.
pub proof fn law_keys_are_shown_as_they_are(keys: Seq<ApiKeySummary>, i: int)
    requires
        0 <= i < keys.len(),
    ensures
        key_lines(keys).len() == keys.len() + 1,
        keys[i].active ==> key_lines(keys)[i + 1] == padded_right(keys[i].key_id@, 38) + " "@
            + padded_right(keys[i].name@, 24) + " "@ + padded_right(
            keys[i].display_prefix@ + "..."@,
            20,
        ) + " active"@,
        !keys[i].active ==> key_lines(keys)[i + 1] == padded_right(keys[i].key_id@, 38) + " "@
            + padded_right(keys[i].name@, 24) + " "@ + padded_right(
            keys[i].display_prefix@ + "..."@,
            20,
        ) + " revoked"@,
{
    reveal_strlit(" ");
    reveal_strlit("active");
    reveal_strlit(" active");
    reveal_strlit("revoked");
    reveal_strlit(" revoked");
    let front = padded_right(keys[i].key_id@, 38) + " "@ + padded_right(keys[i].name@, 24) + " "@
        + padded_right(keys[i].display_prefix@ + "..."@, 20);
    assert(front + " "@ + "active"@ =~= front + " active"@);
    assert(front + " "@ + "revoked"@ =~= front + " revoked"@);
}

/// Each model is shown in a line of its own, in their order; where there is none, how to configure a place
/// for them is told unless there is one.
pub proof fn law_models_are_listed(
    rows: Seq<ModelRow>,
    has_paths: bool,
    config_path: Seq<char>,
    i: int,
)
    ensures
        0 <= i < rows.len() ==> model_lines(rows, has_paths, config_path).len() == rows.len() + 1
            && model_lines(rows, has_paths, config_path)[i + 1] == model_row(
            rows[i].id@,
            rows[i].format@,
            rows[i].size@,
            rows[i].path@,
        ),
        rows.len() == 0 ==> model_lines(rows, has_paths, config_path).len() == if has_paths {
            1nat
        } else {
            2nat
        },
{
}

/// A missing value is told as such, and its line is left out where it has no word for that.
pub proof fn law_missing_values(label: Seq<char>, value: Seq<char>, otherwise: Seq<char>)
    ensures
        field(label, Some(value)) == seq![label + value],
        field(label, None).len() == 0,
        or_else(Some(value), otherwise) == value,
        or_else(None, otherwise) == otherwise,
        line_if(true, label) == seq![label],
        line_if(false, label).len() == 0,
        comma_text(Seq::empty()) == "none"@,
        comma_text(seq![value]) == value,
        yes_text(true) == "yes"@,
        yes_text(false) == "no"@,
{
    assert(seq![value][0] == value);
}

/// A text that is not too wide is shown as it is; a wider one is cut to the width, and says so.
pub proof fn law_wide_texts_are_cut(text: Seq<char>, width: nat)
    ensures
        text.len() <= width ==> truncated(text, width) == text,
        text.len() > width > 0 ==> truncated(text, width).len() == width && truncated(
            text,
            width,
        ).last() == '…' && truncated(text, width).drop_last() == text.take(width - 1),
{
    if text.len() > width && width > 0 {
        assert(truncated(text, width).drop_last() =~= text.take(width - 1));
    }
}

/// Fatal checks and warnings are counted each by itself.
pub proof fn law_shown_checks_are_counted(checks: Seq<DoctorCheck>, next: DoctorCheck)
    ensures
        fatal_count(checks.push(next)) == fatal_count(checks) + if next.fatal {
            1nat
        } else {
            0nat
        },
        warning_count(checks.push(next)) == warning_count(checks) + if next.status
            == DoctorStatus::Warning {
            1nat
        } else {
            0nat
        },
        doctor_lines(checks).len() == checks.len() + 3,
        doctor_lines(checks).last() == decimal(fatal_count(checks)) + " fatal problem(s), "@
            + decimal(warning_count(checks)) + " warning(s)"@,
{
    assert(checks.push(next).drop_last() =~= checks);
    assert(checks.push(next).last() == next);
}

/// An insecure server is warned of, and only such a one; and of a server that cannot be asked it is said
/// that its adapters and its model are not available.
pub proof fn law_insecure_servers_are_warned_of(server: ServerShown)
    ensures
        status_lines(server).contains(
            "  SECURITY:        WARNING: remote authentication is disabled"@,
        ) || !server.auth.insecure_remote,
        server.control is None ==> status_lines(server).last() == "  Active model:    unavailable"@,
        status_lines(server)[1] == "  Server:          "@ + server.label@,
{
    let first = seq!["Norted Server"@, "  Server:          "@ + server.label@] + field(
        "  Observation:     unavailable: "@,
        optional(server.observation),
    ) + field("  Endpoint:        "@, optional(server.endpoint)) + seq![
        "  Public bind:     "@ + server.auth.bind@,
        "  Auth configured: "@ + server.auth.configured_mode@,
        "  Auth effective:  "@ + server.auth.effective_mode@,
        "  Active API keys: "@ + decimal(server.auth.active_key_count as nat),
    ];
    if server.auth.insecure_remote {
        assert(status_lines(server)[first.len() as int]
            == "  SECURITY:        WARNING: remote authentication is disabled"@);
    }
}

/// After a load or an unload it is said which it was, and what is active then.
pub proof fn law_operations_are_told(status: ControlSummary)
    ensures
        operation_lines("load"@, status)[0] == "Load complete."@,
        operation_lines("unload"@, status)[0] == "Unload complete."@,
        operation_lines("load"@, status)[1] == "  Backend: "@ + status.lifecycle.name_text(),
        status.model_id is None ==> operation_lines("load"@, status)[2] == "  Model:   none"@,
{
    reveal_strlit("load");
    reveal_strlit("unload");
    reveal_strlit("Load");
    reveal_strlit("Unload");
    reveal_strlit(" complete.");
    reveal_strlit("Load complete.");
    reveal_strlit("Unload complete.");
    reveal_strlit("  Model:   ");
    reveal_strlit("none");
    reveal_strlit("  Model:   none");
    assert("load"@.len() != "unload"@.len());
    assert("Load"@ + " complete."@ =~= "Load complete."@);
    assert("Unload"@ + " complete."@ =~= "Unload complete."@);
    assert("  Model:   "@ + "none"@ =~= "  Model:   none"@);
}

} // verus!
