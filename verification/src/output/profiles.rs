//! What is shown of profiles: of one in full, or of all in a list.
use vstd::prelude::*;
use vstd::string::*;

use crate::doctor::server::{bool_text, bool_word};
use crate::duplicate::{lemma_views_push, optional, views};
use crate::references::append_texts;
use crate::schemas::sorted_unique;
use crate::table::{ordered, Table};
use crate::text::{
    cat2, cat3, cat4, cat5, cat6, cat7, decimal, decimal_text, join, joined, pad_right,
    padded_right, same,
};

use super::{
    add_field, add_line_if, comma_list, comma_text, field, line_if, lines1, lines2, lines3, lines4,
    no_lines, or_else, text_or,
};

verus! {

/// How a profile has prompts made.
#[derive(Debug)]
pub struct PromptShown {
    pub mode: String,
    pub delivery: String,
    pub template: Option<(String, String)>,
    pub render_generation_prompt: bool,
    pub response_filter: String,
}

/// What a profile asks of generation. Numbers that are no integers are given as they are shown.
#[derive(Debug)]
pub struct GenerationShown {
    pub temperature: Option<String>,
    pub top_p: Option<String>,
    pub top_k: Option<String>,
    pub min_p: Option<String>,
    pub reasoning_effort: Option<String>,
    pub thinking: String,
    pub thinking_required: bool,
    pub allowed_user_overrides: Vec<String>,
}

/// How q27 serves a profile.
#[derive(Debug)]
pub struct Q27Shown {
    pub kv_quality_order: Vec<String>,
    pub mtp_maximum_depth: u64,
    pub mtp_minimum_probability: String,
    pub suffix_drafting: bool,
    pub suffix_width_from_runtime_w_max: bool,
    pub fast_head: bool,
    pub fast_head_override: bool,
}

/// A way to speculate.
#[derive(Debug)]
pub struct SpeculativeShown {
    pub name: String,
    pub speculative_decoding: bool,
    pub backend: Option<String>,
    pub draft_tokens: Option<u64>,
    pub optimized_proposal_head: Option<bool>,
}

/// How NInfer serves a profile.
#[derive(Debug)]
pub struct NinferShown {
    pub kv_cache: String,
    pub kv_dtype: String,
    pub cuda_graph_required: bool,
    pub prefix_reuse_required: bool,
    pub default_speculative_profile: String,
    pub speculative_profiles: Vec<SpeculativeShown>,
}

/// A profile as it is shown.
#[derive(Debug)]
pub struct ServeProfileShown {
    pub name: String,
    pub id: String,
    pub display_name: String,
    pub source: String,
    pub read_only: bool,
    pub description: Option<String>,
    pub artifact_formats: Vec<String>,
    pub architecture: Option<String>,
    pub family: Option<String>,
    pub prompt: PromptShown,
    pub generation: GenerationShown,
    pub context_preferred: Option<u64>,
    pub context_minimum: Option<u64>,
    pub q27: Option<Q27Shown>,
    pub ninfer: Option<NinferShown>,
    pub requirements: Vec<String>,
    pub settings: Vec<(String, String)>,
}

/// Which models have which profile, and how many are served without one.
#[derive(Debug)]
pub struct Assignments {
    pub models: Table<String>,
    pub builders: Table<String>,
    pub raw_models: u64,
}

pub open spec fn access(read_only: bool) -> Seq<char> {
    if read_only {
        "read-only"@
    } else {
        "mutable"@
    }
}

fn show_access(read_only: bool) -> (result: &'static str)
    ensures
        result@ == access(read_only),
{
    if read_only {
        "read-only"
    } else {
        "mutable"
    }
}

/// A text with something before it, or nothing.
pub open spec fn labelled(label: Seq<char>, text: Option<Seq<char>>) -> Seq<char> {
    match text {
        Some(text) => label + text,
        None => ""@,
    }
}

fn show_labelled(label: &str, text: &Option<String>) -> (result: String)
    ensures
        result@ == labelled(label@, optional(*text)),
{
    match text {
        Some(text) => cat2(label, text.as_str()),
        None => "".to_owned(),
    }
}

pub open spec fn applicability_line(profile: ServeProfileShown) -> Seq<char> {
    "  Applicability:      "@ + if profile.artifact_formats@.len() == 0 {
        "any format"@
    } else {
        joined(views(profile.artifact_formats@), ", "@)
    } + labelled(" · architecture "@, optional(profile.architecture)) + labelled(
        " · family "@,
        optional(profile.family),
    )
}

fn show_applicability(profile: &ServeProfileShown) -> (result: String)
    ensures
        result@ == applicability_line(*profile),
{
    let formats = if profile.artifact_formats.len() == 0 {
        "any format".to_owned()
    } else {
        join(&profile.artifact_formats, ", ")
    };
    cat4(
        "  Applicability:      ",
        formats.as_str(),
        show_labelled(" · architecture ", &profile.architecture).as_str(),
        show_labelled(" · family ", &profile.family).as_str(),
    )
}

pub open spec fn template_text(template: Option<(String, String)>) -> Seq<char> {
    match template {
        Some((identity, path)) => identity@ + " ("@ + path@ + ")"@,
        None => "runtime/upstream default"@,
    }
}

pub open spec fn prompt_line(prompt: PromptShown) -> Seq<char> {
    "  Prompt:             "@ + prompt.mode@ + " · "@ + prompt.delivery@ + " · template "@
        + template_text(prompt.template) + (" · generation-prompt="@ + bool_word(
        prompt.render_generation_prompt,
    ) + " · filter="@ + prompt.response_filter@)
}

fn show_prompt(prompt: &PromptShown) -> (result: String)
    ensures
        result@ == prompt_line(*prompt),
{
    let template = match &prompt.template {
        Some((identity, path)) => cat4(identity.as_str(), " (", path.as_str(), ")"),
        None => "runtime/upstream default".to_owned(),
    };
    let rest = cat4(
        " · generation-prompt=",
        bool_text(prompt.render_generation_prompt),
        " · filter=",
        prompt.response_filter.as_str(),
    );
    cat7(
        "  Prompt:             ",
        prompt.mode.as_str(),
        " · ",
        prompt.delivery.as_str(),
        " · template ",
        template.as_str(),
        rest.as_str(),
    )
}

pub open spec fn value_text(value: Option<Seq<char>>) -> Seq<char> {
    or_else(value, "runtime default"@)
}

pub open spec fn number_text(value: Option<u64>) -> Seq<char> {
    match value {
        Some(value) => decimal(value as nat),
        None => "runtime default"@,
    }
}

pub fn optional_value(value: Option<u64>) -> (result: String)
    ensures
        result@ == number_text(value),
{
    match value {
        Some(value) => decimal_text(value),
        None => "runtime default".to_owned(),
    }
}

pub open spec fn generation_line(generation: GenerationShown) -> Seq<char> {
    "  Generation:         temperature="@ + value_text(optional(generation.temperature))
        + " top_p="@ + value_text(optional(generation.top_p)) + " top_k="@ + value_text(
        optional(generation.top_k),
    ) + (" min_p="@ + value_text(optional(generation.min_p)) + " reasoning="@ + value_text(
        optional(generation.reasoning_effort),
    ) + " thinking="@ + generation.thinking@ + if generation.thinking_required {
        " (required)"@
    } else {
        ""@
    })
}

fn show_generation(generation: &GenerationShown) -> (result: String)
    ensures
        result@ == generation_line(*generation),
{
    let rest = cat7(
        " min_p=",
        text_or(&generation.min_p, "runtime default"),
        " reasoning=",
        text_or(&generation.reasoning_effort, "runtime default"),
        " thinking=",
        generation.thinking.as_str(),
        if generation.thinking_required {
            " (required)"
        } else {
            ""
        },
    );
    cat7(
        "  Generation:         temperature=",
        text_or(&generation.temperature, "runtime default"),
        " top_p=",
        text_or(&generation.top_p, "runtime default"),
        " top_k=",
        text_or(&generation.top_k, "runtime default"),
        rest.as_str(),
    )
}

pub open spec fn q27_line(q27: Q27Shown) -> Seq<char> {
    "  q27 strategy:       KV "@ + joined(views(q27.kv_quality_order@), " -> "@) + " · MTP "@
        + decimal(q27.mtp_maximum_depth as nat) + " / pmin "@ + q27.mtp_minimum_probability@ + (
    " · suffix="@ + bool_word(q27.suffix_drafting) + " W_MAX="@ + bool_word(
        q27.suffix_width_from_runtime_w_max,
    ) + (" · fast-head="@ + bool_word(q27.fast_head) + " override="@ + bool_word(
        q27.fast_head_override,
    )))
}

fn show_q27(q27: &Q27Shown) -> (result: String)
    ensures
        result@ == q27_line(*q27),
{
    let head = cat4(
        " · fast-head=",
        bool_text(q27.fast_head),
        " override=",
        bool_text(q27.fast_head_override),
    );
    let rest = cat5(
        " · suffix=",
        bool_text(q27.suffix_drafting),
        " W_MAX=",
        bool_text(q27.suffix_width_from_runtime_w_max),
        head.as_str(),
    );
    cat7(
        "  q27 strategy:       KV ",
        join(&q27.kv_quality_order, " -> ").as_str(),
        " · MTP ",
        decimal_text(q27.mtp_maximum_depth).as_str(),
        " / pmin ",
        q27.mtp_minimum_probability.as_str(),
        rest.as_str(),
    )
}

pub open spec fn speculative_text(profile: SpeculativeShown) -> Seq<char> {
    profile.name@ + "="@ + if profile.speculative_decoding {
        or_else(optional(profile.backend), "missing-backend"@) + "/"@ + match profile.draft_tokens {
            Some(tokens) => decimal(tokens as nat),
            None => "missing-drafts"@,
        } + if profile.optimized_proposal_head == Some(true) {
            "/lm-head-draft"@
        } else {
            ""@
        }
    } else {
        "off"@
    }
}

fn show_speculative(profile: &SpeculativeShown) -> (result: String)
    ensures
        result@ == speculative_text(*profile),
{
    let way = if profile.speculative_decoding {
        let tokens = match profile.draft_tokens {
            Some(tokens) => decimal_text(tokens),
            None => "missing-drafts".to_owned(),
        };
        let head = match profile.optimized_proposal_head {
            Some(true) => "/lm-head-draft",
            _ => "",
        };
        cat4(text_or(&profile.backend, "missing-backend"), "/", tokens.as_str(), head)
    } else {
        "off".to_owned()
    };
    cat3(profile.name.as_str(), "=", way.as_str())
}

fn show_all_speculative(list: &Vec<SpeculativeShown>) -> (result: Vec<String>)
    ensures
        views(result@) == Seq::new(list@.len(), |i: int| speculative_text(list@[i])),
{
    let ghost expected = Seq::new(list@.len(), |i: int| speculative_text(list@[i]));
    let mut texts = no_lines();
    let mut i: usize = 0;
    proof {
        assert(views(texts@) =~= expected.take(0));
    }
    while i < list.len()
        invariant
            i <= list@.len(),
            expected == Seq::new(list@.len(), |k: int| speculative_text(list@[k])),
            views(texts@) == expected.take(i as int),
        decreases list@.len() - i,
    {
        let text = show_speculative(&list[i]);
        proof {
            lemma_views_push(texts@, text);
            assert(expected.take(i + 1) =~= expected.take(i as int).push(expected[i as int]));
        }
        texts.push(text);
        i += 1;
    }
    proof {
        assert(expected.take(expected.len() as int) =~= expected);
    }
    texts
}

pub open spec fn ninfer_line(ninfer: NinferShown) -> Seq<char> {
    let ways = ninfer.speculative_profiles@;
    "  NInfer strategy:    KV "@ + ninfer.kv_cache@ + "/"@ + ninfer.kv_dtype@
        + " · CUDA graph="@ + bool_word(ninfer.cuda_graph_required) + (" · prefix reuse="@
        + bool_word(ninfer.prefix_reuse_required) + " · default strategy="@
        + ninfer.default_speculative_profile@ + " · speculative profiles="@ + joined(
        Seq::new(ways.len(), |i: int| speculative_text(ways[i])),
        ", "@,
    ))
}

fn show_ninfer(ninfer: &NinferShown) -> (result: String)
    ensures
        result@ == ninfer_line(*ninfer),
{
    let ways = show_all_speculative(&ninfer.speculative_profiles);
    let rest = cat6(
        " · prefix reuse=",
        bool_text(ninfer.prefix_reuse_required),
        " · default strategy=",
        ninfer.default_speculative_profile.as_str(),
        " · speculative profiles=",
        join(&ways, ", ").as_str(),
    );
    cat7(
        "  NInfer strategy:    KV ",
        ninfer.kv_cache.as_str(),
        "/",
        ninfer.kv_dtype.as_str(),
        " · CUDA graph=",
        bool_text(ninfer.cuda_graph_required),
        rest.as_str(),
    )
}

pub open spec fn override_lines(settings: Seq<(String, String)>) -> Seq<Seq<char>> {
    if settings.len() == 0 {
        seq!["  No overrides; all values inherit."@]
    } else {
        Seq::new(
            settings.len(),
            |i: int| "  "@ + padded_right(settings[i].0@, 38) + " "@ + settings[i].1@,
        )
    }
}

fn show_overrides(settings: &Vec<(String, String)>) -> (result: Vec<String>)
    ensures
        views(result@) == override_lines(settings@),
{
    if settings.len() == 0 {
        return lines1("  No overrides; all values inherit.".to_owned());
    }
    let ghost expected = override_lines(settings@);
    let mut lines = no_lines();
    let mut i: usize = 0;
    proof {
        assert(views(lines@) =~= expected.take(0));
    }
    while i < settings.len()
        invariant
            settings@.len() > 0,
            i <= settings@.len(),
            expected == override_lines(settings@),
            views(lines@) == expected.take(i as int),
        decreases settings@.len() - i,
    {
        let line = cat4(
            "  ",
            pad_right(settings[i].0.as_str(), 38).as_str(),
            " ",
            settings[i].1.as_str(),
        );
        proof {
            lemma_views_push(lines@, line);
            assert(expected.take(i + 1) =~= expected.take(i as int).push(expected[i as int]));
        }
        lines.push(line);
        i += 1;
    }
    proof {
        assert(expected.take(expected.len() as int) =~= expected);
    }
    lines
}

/// The first keys of a table that have a value, in order.
pub open spec fn keys_with(table: Map<Seq<char>, Seq<char>>, value: Seq<char>, count: int) -> Seq<
    Seq<char>,
>
    decreases count,
{
    if count <= 0 {
        Seq::empty()
    } else {
        let key = ordered(table.dom())[count - 1];
        let before = keys_with(table, value, count - 1);
        if table[key] == value {
            before.push(key)
        } else {
            before
        }
    }
}

/// All keys of a table that have a value, in order.
pub open spec fn assigned_to(table: Map<Seq<char>, Seq<char>>, value: Seq<char>) -> Seq<Seq<char>> {
    keys_with(table, value, ordered(table.dom()).len() as int)
}

fn find_assigned(table: &Table<String>, value: &str) -> (result: Vec<String>)
    ensures
        views(result@) == assigned_to(table@, value@),
{
    let count: usize = table.len();
    let mut keys = no_lines();
    let mut i: usize = 0;
    while i < count
        invariant
            i <= count,
            count == table.keys().len(),
            ordered(table@.dom()) == table.keys(),
            views(keys@) == keys_with(table@, value@, i as int),
        decreases count - i,
    {
        if same(table.value_at(i).as_str(), value) {
            let key = table.key_at(i).clone();
            proof {
                lemma_views_push(keys@, key);
            }
            keys.push(key);
        }
        i += 1;
    }
    keys
}

/// The models that have a profile, by either kind of assignment, each once and in order.
pub open spec fn assigned_models(assignments: Assignments, name: Seq<char>) -> Seq<Seq<char>> {
    ordered(
        (assigned_to(assignments.models@, name) + assigned_to(
            assignments.builders@,
            name,
        )).to_set(),
    )
}

fn find_assigned_models(assignments: &Assignments, name: &str) -> (result: Vec<String>)
    ensures
        views(result@) == assigned_models(*assignments, name@),
{
    let mut models = find_assigned(&assignments.models, name);
    append_texts(&mut models, find_assigned(&assignments.builders, name));
    sorted_unique(&models)
}

pub open spec fn strategy_lines(profile: ServeProfileShown) -> Seq<Seq<char>> {
    (match profile.q27 {
        Some(q27) => seq![q27_line(q27)],
        None => Seq::empty(),
    }) + (match profile.ninfer {
        Some(ninfer) => seq![ninfer_line(ninfer)],
        None => Seq::empty(),
    })
}

fn show_strategies(profile: &ServeProfileShown) -> (result: Vec<String>)
    ensures
        views(result@) == strategy_lines(*profile),
{
    let mut lines = match &profile.q27 {
        Some(q27) => lines1(show_q27(q27)),
        None => no_lines(),
    };
    let more = match &profile.ninfer {
        Some(ninfer) => lines1(show_ninfer(ninfer)),
        None => no_lines(),
    };
    append_texts(&mut lines, more);
    lines
}

/// A profile in full.
pub open spec fn profile_lines(profile: ServeProfileShown, assignments: Assignments) -> Seq<Seq<char>> {
    let models = assigned_models(assignments, profile.name@);
    seq![
        "Serve Profile "@ + profile.display_name@ + " ("@ + profile.id@ + ")"@,
        "  Source:             "@ + profile.source@,
        "  Access:             "@ + access(profile.read_only),
    ] + field("  Description:        "@, optional(profile.description)) + seq![
        applicability_line(profile),
        prompt_line(profile.prompt),
        generation_line(profile.generation),
        "  Context:            preferred="@ + number_text(profile.context_preferred)
            + " minimum="@ + number_text(profile.context_minimum),
    ] + strategy_lines(profile) + seq![
        "  Requirements:       "@ + comma_text(views(profile.requirements@)),
        "  Allowed overrides:  "@ + comma_text(
            views(profile.generation.allowed_user_overrides@),
        ),
    ] + override_lines(profile.settings@) + line_if(
        models.len() > 0,
        "  Assigned models: "@ + joined(models, ", "@),
    )
}

pub fn profile(shown: &ServeProfileShown, assignments: &Assignments) -> (result: Vec<String>)
    ensures
        views(result@) == profile_lines(*shown, *assignments),
{
    let mut lines = lines3(
        cat5(
            "Serve Profile ",
            shown.display_name.as_str(),
            " (",
            shown.id.as_str(),
            ")",
        ),
        cat2("  Source:             ", shown.source.as_str()),
        cat2("  Access:             ", show_access(shown.read_only)),
    );
    add_field(&mut lines, "  Description:        ", &shown.description);
    append_texts(
        &mut lines,
        lines4(
            show_applicability(shown),
            show_prompt(&shown.prompt),
            show_generation(&shown.generation),
            cat4(
                "  Context:            preferred=",
                optional_value(shown.context_preferred).as_str(),
                " minimum=",
                optional_value(shown.context_minimum).as_str(),
            ),
        ),
    );
    append_texts(&mut lines, show_strategies(shown));
    append_texts(
        &mut lines,
        lines2(
            cat2("  Requirements:       ", comma_list(&shown.requirements).as_str()),
            cat2(
                "  Allowed overrides:  ",
                comma_list(&shown.generation.allowed_user_overrides).as_str(),
            ),
        ),
    );
    append_texts(&mut lines, show_overrides(&shown.settings));
    let models = find_assigned_models(assignments, shown.name.as_str());
    proof {
        assert(views(models@).len() == models@.len());
    }
    let assigned = cat2("  Assigned models: ", join(&models, ", ").as_str());
    add_line_if(&mut lines, models.len() > 0, assigned.as_str());
    lines
}

pub open spec fn profile_row(
    name: Seq<char>,
    source: Seq<char>,
    access: Seq<char>,
    assigned: Seq<char>,
) -> Seq<char> {
    padded_right(name, 32) + " "@ + padded_right(source, 18) + " "@ + padded_right(access, 10)
        + " "@ + assigned
}

fn show_profile_row(name: &str, source: &str, access: &str, assigned: &str) -> (result: String)
    ensures
        result@ == profile_row(name@, source@, access@, assigned@),
{
    cat7(
        pad_right(name, 32).as_str(),
        " ",
        pad_right(source, 18).as_str(),
        " ",
        pad_right(access, 10).as_str(),
        " ",
        assigned,
    )
}

/// A profile in the list, with how many assignments it has.
pub open spec fn listed_line(profile: ServeProfileShown, assignments: Assignments) -> Seq<char> {
    profile_row(
        profile.name@,
        profile.source@,
        access(profile.read_only),
        decimal(
            assigned_to(assignments.models@, profile.name@).len() + assigned_to(
                assignments.builders@,
                profile.name@,
            ).len(),
        ),
    )
}

fn show_listed(profile: &ServeProfileShown, assignments: &Assignments) -> (result: String)
    ensures
        result@ == listed_line(*profile, *assignments),
{
    let mut all = find_assigned(&assignments.models, profile.name.as_str());
    append_texts(&mut all, find_assigned(&assignments.builders, profile.name.as_str()));
    let count: usize = all.len();
    proof {
        assert(views(all@).len() == all@.len());
    }
    show_profile_row(
        profile.name.as_str(),
        profile.source.as_str(),
        show_access(profile.read_only),
        decimal_text(count as u64).as_str(),
    )
}

pub open spec fn profiles_lines(
    profiles: Seq<ServeProfileShown>,
    assignments: Assignments,
) -> Seq<Seq<char>> {
    if profiles.len() == 0 {
        seq!["No Serve Profiles exist."@]
    } else {
        seq![profile_row("SERVE PROFILE"@, "SOURCE"@, "ACCESS"@, "ASSIGNED MODELS"@)] + Seq::new(
            profiles.len(),
            |i: int| listed_line(profiles[i], assignments),
        ) + line_if(
            assignments.raw_models > 0,
            "None / Raw runtime defaults: "@ + decimal(assignments.raw_models as nat)
                + " model(s)"@,
        )
    }
}

pub fn profiles(list: &Vec<ServeProfileShown>, assignments: &Assignments) -> (result: Vec<String>)
    ensures
        views(result@) == profiles_lines(list@, *assignments),
{
    if list.len() == 0 {
        return lines1("No Serve Profiles exist.".to_owned());
    }
    let mut lines = lines1(
        show_profile_row("SERVE PROFILE", "SOURCE", "ACCESS", "ASSIGNED MODELS"),
    );
    let ghost head = views(lines@);
    let ghost expected = Seq::new(
        list@.len(),
        |i: int| listed_line(list@[i], *assignments),
    );
    let mut i: usize = 0;
    proof {
        assert(head + expected.take(0) =~= head);
    }
    while i < list.len()
        invariant
            i <= list@.len(),
            expected == Seq::new(
                list@.len(),
                |k: int| listed_line(list@[k], *assignments),
            ),
            views(lines@) == head + expected.take(i as int),
        decreases list@.len() - i,
    {
        let line = show_listed(&list[i], assignments);
        proof {
            lemma_views_push(lines@, line);
            assert(expected.take(i + 1) =~= expected.take(i as int).push(expected[i as int]));
            assert((head + expected.take(i as int)).push(line@) =~= head + expected.take(i + 1));
        }
        lines.push(line);
        i += 1;
    }
    proof {
        assert(expected.take(expected.len() as int) =~= expected);
    }
    let raw = cat3(
        "None / Raw runtime defaults: ",
        decimal_text(assignments.raw_models).as_str(),
        " model(s)",
    );
    add_line_if(&mut lines, assignments.raw_models > 0, raw.as_str());
    lines
}

/// The models of a profile are those that are assigned to it by either kind of assignment.
pub proof fn law_assigned_models_are_shown(
    assignments: Assignments,
    name: Seq<char>,
    model: Seq<char>,
)
    requires
        assignments.models@.dom().finite(),
        assignments.builders@.dom().finite(),
    ensures
        assigned_models(assignments, name).contains(model) <==> assignments.models@.contains_key(
            model,
        ) && assignments.models@[model] == name || assignments.builders@.contains_key(model)
            && assignments.builders@[model] == name,
{
    let first = assigned_to(assignments.models@, name);
    let second = assigned_to(assignments.builders@, name);
    lemma_assigned_to(assignments.models@, name, model);
    lemma_assigned_to(assignments.builders@, name, model);
    let all = first + second;
    crate::table::lemma_ordered(all.to_set());
    if first.contains(model) {
        assert(all[first.index_of(model)] == model);
    }
    if second.contains(model) {
        assert(all[first.len() + second.index_of(model)] == model);
    }
    if all.contains(model) {
        let k = all.index_of(model);
        if k < first.len() {
            assert(first[k] == model);
        } else {
            assert(second[k - first.len()] == model);
        }
    }
    assert(all.to_set().contains(model) == all.contains(model));
}

proof fn lemma_assigned_to(table: Map<Seq<char>, Seq<char>>, value: Seq<char>, key: Seq<char>)
    requires
        table.dom().finite(),
    ensures
        assigned_to(table, value).contains(key) <==> table.contains_key(key) && table[key] == value,
{
    let keys = ordered(table.dom());
    crate::table::lemma_ordered(table.dom());
    lemma_keys_with(table, value, keys.len() as int, key);
    assert(keys.contains(key) == table.dom().contains(key));
    if keys.contains(key) {
        assert(keys[keys.index_of(key)] == key);
    }
}

proof fn lemma_keys_with(
    table: Map<Seq<char>, Seq<char>>,
    value: Seq<char>,
    count: int,
    key: Seq<char>,
)
    ensures
        keys_with(table, value, count).contains(key) <==> exists|i: int|
            0 <= i < count && #[trigger] ordered(table.dom())[i] == key && table[key] == value,
    decreases count,
{
    let keys = ordered(table.dom());
    let all = keys_with(table, value, count);
    if count > 0 {
        let some = keys_with(table, value, count - 1);
        lemma_keys_with(table, value, count - 1, key);
        if some.contains(key) {
            assert(all[some.index_of(key)] == key);
        }
        if table[keys[count - 1]] == value {
            assert(all[all.len() - 1] == keys[count - 1]);
            if all.contains(key) && key != keys[count - 1] {
                assert(some[all.index_of(key)] == key);
            }
        }
    } else {
        assert(!all.contains(key));
    }
}

/// What a way of drafting is shown as: that it is off, or its backend and how many tokens it drafts.
pub proof fn law_drafting_is_shown(profile: SpeculativeShown)
    ensures
        !profile.speculative_decoding ==> speculative_text(profile) == profile.name@ + "=off"@,
        profile.speculative_decoding && profile.backend is Some && profile.draft_tokens is Some
            && profile.optimized_proposal_head == Some(true) ==> speculative_text(profile)
            == profile.name@ + "="@ + (profile.backend->0@ + "/"@ + decimal(
            profile.draft_tokens->0 as nat,
        ) + "/lm-head-draft"@),
{
    reveal_strlit("=");
    reveal_strlit("off");
    reveal_strlit("=off");
    assert(profile.name@ + "="@ + "off"@ =~= profile.name@ + "=off"@);
}

/// A profile that cannot be changed is shown as such, and what is not set is left to the runtime.
pub proof fn law_access_and_defaults_are_shown(value: Seq<char>, number: u64)
    ensures
        access(true) == "read-only"@,
        access(false) == "mutable"@,
        value_text(None) == "runtime default"@,
        value_text(Some(value)) == value,
        number_text(None) == "runtime default"@,
        number_text(Some(number)) == decimal(number as nat),
        template_text(None) == "runtime/upstream default"@,
{
}

} // verus!
