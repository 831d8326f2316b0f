//! A request on its way to a backend: what the settings add to it, and how it is made to fit.
use vstd::prelude::*;
use vstd::string::*;

use crate::duplicate::{duplicate_list, optional, views, Duplicate};
use crate::lifecycle::{ErrorView, RuntimeError};
use crate::supervisor::{EngineError, EngineErrorView};
use crate::table::Table;
use crate::text::{cat5, decimal, decimal_text, same};

verus! {

/// A value of a setting. Numbers that are no integers are held as the bits of a double-precision
/// number, JSON as its text.
#[derive(Debug)]
pub enum SettingValue {
    Boolean(bool),
    FlagEnabled,
    Integer(i64),
    UnsignedInteger(u64),
    Float(u64),
    Text(String),
    StringList(Vec<String>),
    Choice(String),
    UnsignedIntegerOrChoice(UnsignedIntegerOrChoiceValue),
    Json(String),
}

#[derive(Debug)]
pub enum UnsignedIntegerOrChoiceValue {
    UnsignedInteger(u64),
    Choice(String),
}

#[verifier::ext_equal]
pub enum SettingView {
    Boolean(bool),
    FlagEnabled,
    Integer(i64),
    UnsignedInteger(u64),
    Float(u64),
    Text(Seq<char>),
    StringList(Seq<Seq<char>>),
    Choice(Seq<char>),
    NumberOfChoice(u64),
    NamedChoice(Seq<char>),
    Json(Seq<char>),
}

impl View for SettingValue {
    type V = SettingView;

    open spec fn view(&self) -> SettingView {
        match self {
            SettingValue::Boolean(value) => SettingView::Boolean(*value),
            SettingValue::FlagEnabled => SettingView::FlagEnabled,
            SettingValue::Integer(value) => SettingView::Integer(*value),
            SettingValue::UnsignedInteger(value) => SettingView::UnsignedInteger(*value),
            SettingValue::Float(bits) => SettingView::Float(*bits),
            SettingValue::Text(value) => SettingView::Text(value@),
            SettingValue::StringList(values) => SettingView::StringList(views(values@)),
            SettingValue::Choice(value) => SettingView::Choice(value@),
            SettingValue::UnsignedIntegerOrChoice(
                UnsignedIntegerOrChoiceValue::UnsignedInteger(value),
            ) => SettingView::NumberOfChoice(*value),
            SettingValue::UnsignedIntegerOrChoice(UnsignedIntegerOrChoiceValue::Choice(value)) => {
                SettingView::NamedChoice(value@)
            },
            SettingValue::Json(value) => SettingView::Json(value@),
        }
    }
}

impl Duplicate for SettingValue {
    fn duplicate(&self) -> (result: SettingValue) {
        match self {
            SettingValue::Boolean(value) => SettingValue::Boolean(*value),
            SettingValue::FlagEnabled => SettingValue::FlagEnabled,
            SettingValue::Integer(value) => SettingValue::Integer(*value),
            SettingValue::UnsignedInteger(value) => SettingValue::UnsignedInteger(*value),
            SettingValue::Float(bits) => SettingValue::Float(*bits),
            SettingValue::Text(value) => SettingValue::Text(value.clone()),
            SettingValue::StringList(values) => SettingValue::StringList(duplicate_list(values)),
            SettingValue::Choice(value) => SettingValue::Choice(value.clone()),
            SettingValue::UnsignedIntegerOrChoice(choice) => {
                SettingValue::UnsignedIntegerOrChoice(
                    match choice {
                        UnsignedIntegerOrChoiceValue::UnsignedInteger(value) => {
                            UnsignedIntegerOrChoiceValue::UnsignedInteger(*value)
                        },
                        UnsignedIntegerOrChoiceValue::Choice(value) => {
                            UnsignedIntegerOrChoiceValue::Choice(value.clone())
                        },
                    },
                )
            },
            SettingValue::Json(value) => SettingValue::Json(value.clone()),
        }
    }
}

#[derive(Debug, Clone, Copy, PartialEq, Eq, Structural)]
pub enum ReasoningEffort {
    Off,
    Minimal,
    Low,
    Medium,
    High,
    Xhigh,
    Max,
}

/// What a request says of the generation. Numbers that are no integers are held as their bits.
#[derive(Debug)]
pub struct GenerationSettings {
    pub temperature: Option<u64>,
    pub top_p: Option<u64>,
    pub top_k: Option<u64>,
    pub min_p: Option<u64>,
    pub seed: Option<u64>,
    pub repeat_penalty: Option<u64>,
    pub presence_penalty: Option<u64>,
    pub frequency_penalty: Option<u64>,
    pub stop: Option<Vec<String>>,
    pub reasoning_enabled: Option<bool>,
    pub reasoning_budget: Option<i64>,
    pub reasoning_effort: Option<ReasoningEffort>,
}

#[verifier::ext_equal]
pub struct GenerationSettingsView {
    pub temperature: Option<u64>,
    pub top_p: Option<u64>,
    pub top_k: Option<u64>,
    pub min_p: Option<u64>,
    pub seed: Option<u64>,
    pub repeat_penalty: Option<u64>,
    pub presence_penalty: Option<u64>,
    pub frequency_penalty: Option<u64>,
    pub stop: Option<Seq<Seq<char>>>,
    pub reasoning_enabled: Option<bool>,
    pub reasoning_budget: Option<i64>,
    pub reasoning_effort: Option<ReasoningEffort>,
}

impl View for GenerationSettings {
    type V = GenerationSettingsView;

    open spec fn view(&self) -> GenerationSettingsView {
        GenerationSettingsView {
            temperature: self.temperature,
            top_p: self.top_p,
            top_k: self.top_k,
            min_p: self.min_p,
            seed: self.seed,
            repeat_penalty: self.repeat_penalty,
            presence_penalty: self.presence_penalty,
            frequency_penalty: self.frequency_penalty,
            stop: match self.stop {
                Some(stop) => Some(views(stop@)),
                None => None,
            },
            reasoning_enabled: self.reasoning_enabled,
            reasoning_budget: self.reasoning_budget,
            reasoning_effort: self.reasoning_effort,
        }
    }
}

#[derive(Debug, Clone, Copy, PartialEq, Eq, Structural)]
pub enum InferenceRole {
    System,
    Developer,
    User,
    Assistant,
    Tool,
}

impl InferenceRole {
    /// Whether messages of the role are instructions, which are never dropped.
    pub open spec fn instructs(self) -> bool {
        self == InferenceRole::System || self == InferenceRole::Developer
    }

    pub fn is_instruction(self) -> (result: bool)
        ensures
            result == self.instructs(),
    {
        self == InferenceRole::System || self == InferenceRole::Developer
    }
}

/// A message of a conversation.
#[derive(Debug)]
pub struct InferenceMessage {
    pub role: InferenceRole,
    pub content: String,
}

#[verifier::ext_equal]
pub struct MessageView {
    pub role: InferenceRole,
    pub content: Seq<char>,
}

impl View for InferenceMessage {
    type V = MessageView;

    open spec fn view(&self) -> MessageView {
        MessageView { role: self.role, content: self.content@ }
    }
}

/// The form that the answer is to have.
#[derive(Debug)]
pub enum OutputFormat {
    Text,
    JsonObject,
    /// A JSON schema, as its text.
    JsonSchema {
        name: Option<String>,
        description: Option<String>,
        schema: String,
        strict: Option<bool>,
    },
}

#[verifier::ext_equal]
pub enum FormatView {
    Text,
    JsonObject,
    JsonSchema {
        name: Option<Seq<char>>,
        description: Option<Seq<char>>,
        schema: Seq<char>,
        strict: Option<bool>,
    },
}

impl View for OutputFormat {
    type V = FormatView;

    open spec fn view(&self) -> FormatView {
        match self {
            OutputFormat::Text => FormatView::Text,
            OutputFormat::JsonObject => FormatView::JsonObject,
            OutputFormat::JsonSchema { name, description, schema, strict } => {
                FormatView::JsonSchema {
                    name: optional(*name),
                    description: optional(*description),
                    schema: schema@,
                    strict: *strict,
                }
            },
        }
    }
}

#[derive(Debug)]
pub struct InferenceRequest {
    pub model_profile_id: String,
    pub messages: Vec<InferenceMessage>,
    pub generation_settings: GenerationSettings,
    pub max_output_tokens: Option<u32>,
    pub output_format: Option<OutputFormat>,
}

#[verifier::ext_equal]
pub struct RequestView {
    pub model_profile_id: Seq<char>,
    pub messages: Seq<MessageView>,
    pub generation_settings: GenerationSettingsView,
    pub max_output_tokens: Option<u32>,
    pub output_format: Option<FormatView>,
}

impl View for InferenceRequest {
    type V = RequestView;

    open spec fn view(&self) -> RequestView {
        RequestView {
            model_profile_id: self.model_profile_id@,
            messages: views(self.messages@),
            generation_settings: self.generation_settings@,
            max_output_tokens: self.max_output_tokens,
            output_format: optional(self.output_format),
        }
    }
}

/// The settings of a backend, by their identifiers.
pub type SettingsMap = Map<Seq<char>, SettingView>;

/// The value of a setting, if it has one.
pub open spec fn setting(settings: SettingsMap, id: Seq<char>) -> Option<SettingView> {
    if settings.dom().contains(id) {
        Some(settings[id])
    } else {
        None
    }
}

/// What a request says, or else what a setting says.
pub open spec fn or_float(own: Option<u64>, setting: Option<SettingView>) -> Option<u64> {
    match (own, setting) {
        (None, Some(SettingView::Float(bits))) => Some(bits),
        _ => own,
    }
}

pub open spec fn or_unsigned(own: Option<u64>, setting: Option<SettingView>) -> Option<u64> {
    match (own, setting) {
        (None, Some(SettingView::UnsignedInteger(value))) => Some(value),
        _ => own,
    }
}

/// Whether reasoning is on, by the name of a choice.
pub open spec fn reasoning_of(choice: Seq<char>) -> Option<bool> {
    if choice == "on"@ {
        Some(true)
    } else if choice == "off"@ {
        Some(false)
    } else {
        None
    }
}

/// How much reasoning there is, by the name of a choice.
pub open spec fn effort_of(choice: Seq<char>) -> Option<ReasoningEffort> {
    if choice == "none"@ {
        Some(ReasoningEffort::Off)
    } else if choice == "minimal"@ {
        Some(ReasoningEffort::Minimal)
    } else if choice == "low"@ {
        Some(ReasoningEffort::Low)
    } else if choice == "medium"@ {
        Some(ReasoningEffort::Medium)
    } else if choice == "high"@ {
        Some(ReasoningEffort::High)
    } else if choice == "xhigh"@ {
        Some(ReasoningEffort::Xhigh)
    } else if choice == "max"@ {
        Some(ReasoningEffort::Max)
    } else {
        None
    }
}

impl GenerationSettingsView {
    /// The generation settings with the defaults of a backend behind them.
    pub open spec fn with_defaults(self, settings: SettingsMap, budget_default: bool) -> Self {
        GenerationSettingsView {
            temperature: self.temperature,
            top_p: self.top_p,
            top_k: or_unsigned(self.top_k, setting(settings, "top_k"@)),
            min_p: or_float(self.min_p, setting(settings, "min_p"@)),
            seed: match (self.seed, setting(settings, "seed"@)) {
                (None, Some(SettingView::NumberOfChoice(value))) => Some(value),
                _ => self.seed,
            },
            repeat_penalty: or_float(self.repeat_penalty, setting(settings, "repeat_penalty"@)),
            presence_penalty: or_float(
                self.presence_penalty,
                setting(settings, "presence_penalty"@),
            ),
            frequency_penalty: or_float(
                self.frequency_penalty,
                setting(settings, "frequency_penalty"@),
            ),
            stop: match (self.stop, setting(settings, "stop_strings"@)) {
                (None, Some(SettingView::StringList(values))) => Some(values),
                _ => self.stop,
            },
            reasoning_enabled: match (self.reasoning_enabled, setting(settings, "reasoning"@)) {
                (None, Some(SettingView::Choice(choice))) => reasoning_of(choice),
                _ => self.reasoning_enabled,
            },
            reasoning_budget: match (self.reasoning_budget, setting(settings, "reasoning_budget"@)) {
                (None, Some(SettingView::Integer(value))) => if budget_default {
                    Some(value)
                } else {
                    None
                },
                _ => self.reasoning_budget,
            },
            reasoning_effort: match (self.reasoning_effort, setting(settings, "reasoning_effort"@)) {
                (None, Some(SettingView::Choice(choice))) => effort_of(choice),
                _ => self.reasoning_effort,
            },
        }
    }
}

impl RequestView {
    /// Whether a conversation brings instructions of its own.
    pub open spec fn instructed(self) -> bool {
        exists|i: int|
            0 <= i < self.messages.len() && (#[trigger] self.messages[i]).role.instructs()
    }

    /// The request with the defaults of a backend behind what it says itself.
    pub open spec fn with_defaults(self, settings: SettingsMap, budget_default: bool) -> Self {
        RequestView {
            model_profile_id: self.model_profile_id,
            generation_settings: self.generation_settings.with_defaults(settings, budget_default),
            max_output_tokens: match (
                self.max_output_tokens,
                setting(settings, "max_output_tokens"@),
            ) {
                (None, Some(SettingView::UnsignedInteger(value))) => if value <= u32::MAX {
                    Some(value as u32)
                } else {
                    None
                },
                _ => self.max_output_tokens,
            },
            messages: match setting(settings, "system_prompt"@) {
                Some(SettingView::Text(prompt)) => if self.instructed() {
                    self.messages
                } else {
                    seq![MessageView { role: InferenceRole::System, content: prompt }]
                        + self.messages
                },
                _ => self.messages,
            },
            output_format: match (
                self.output_format,
                setting(settings, "structured_output_schema"@),
            ) {
                (None, Some(SettingView::Json(schema))) => Some(
                    FormatView::JsonSchema { name: None, description: None, schema, strict: None },
                ),
                _ => self.output_format,
            },
        }
    }
}

/// A default never replaces what a request says itself.
pub proof fn law_defaults_never_override(
    request: RequestView,
    settings: SettingsMap,
    budget_default: bool,
)
    ensures
        ({
            let own = request.generation_settings;
            let all = request.with_defaults(settings, budget_default).generation_settings;
            &&& own.top_k is Some ==> all.top_k == own.top_k
            &&& own.min_p is Some ==> all.min_p == own.min_p
            &&& own.seed is Some ==> all.seed == own.seed
            &&& own.repeat_penalty is Some ==> all.repeat_penalty == own.repeat_penalty
            &&& own.presence_penalty is Some ==> all.presence_penalty == own.presence_penalty
            &&& own.frequency_penalty is Some ==> all.frequency_penalty == own.frequency_penalty
            &&& own.stop is Some ==> all.stop == own.stop
            &&& own.reasoning_enabled is Some ==> all.reasoning_enabled == own.reasoning_enabled
            &&& own.reasoning_budget is Some ==> all.reasoning_budget == own.reasoning_budget
            &&& own.reasoning_effort is Some ==> all.reasoning_effort == own.reasoning_effort
        }),
        request.max_output_tokens is Some ==> request.with_defaults(
            settings,
            budget_default,
        ).max_output_tokens == request.max_output_tokens,
        request.output_format is Some ==> request.with_defaults(
            settings,
            budget_default,
        ).output_format == request.output_format,
        request.instructed() ==> request.with_defaults(settings, budget_default).messages
            == request.messages,
{
}

fn float_default(own: Option<u64>, settings: &Table<SettingValue>, id: &str) -> (result: Option<u64>)
    ensures
        result == or_float(own, setting(settings@, id@)),
{
    if own.is_some() {
        return own;
    }
    match settings.get(id) {
        Some(SettingValue::Float(bits)) => Some(*bits),
        _ => own,
    }
}

fn generation_defaults(
    own: GenerationSettings,
    settings: &Table<SettingValue>,
    budget_default: bool,
) -> (result: GenerationSettings)
    ensures
        result@ == own@.with_defaults(settings@, budget_default),
{
    let top_k = match (own.top_k, settings.get("top_k")) {
        (None, Some(SettingValue::UnsignedInteger(value))) => Some(*value),
        _ => own.top_k,
    };
    let seed = match (own.seed, settings.get("seed")) {
        (
            None,
            Some(
                SettingValue::UnsignedIntegerOrChoice(
                    UnsignedIntegerOrChoiceValue::UnsignedInteger(value),
                ),
            ),
        ) => Some(*value),
        _ => own.seed,
    };
    let stop = match own.stop {
        Some(stop) => Some(stop),
        None => match settings.get("stop_strings") {
            Some(SettingValue::StringList(values)) => Some(duplicate_list(values)),
            _ => None,
        },
    };
    let reasoning_enabled = match (own.reasoning_enabled, settings.get("reasoning")) {
        (None, Some(SettingValue::Choice(choice))) => if same(choice.as_str(), "on") {
            Some(true)
        } else if same(choice.as_str(), "off") {
            Some(false)
        } else {
            None
        },
        _ => own.reasoning_enabled,
    };
    let reasoning_budget = match (own.reasoning_budget, settings.get("reasoning_budget")) {
        (None, Some(SettingValue::Integer(value))) => if budget_default {
            Some(*value)
        } else {
            None
        },
        _ => own.reasoning_budget,
    };
    let reasoning_effort = match (own.reasoning_effort, settings.get("reasoning_effort")) {
        (None, Some(SettingValue::Choice(choice))) => parse_effort(choice.as_str()),
        _ => own.reasoning_effort,
    };
    GenerationSettings {
        temperature: own.temperature,
        top_p: own.top_p,
        top_k,
        min_p: float_default(own.min_p, settings, "min_p"),
        seed,
        repeat_penalty: float_default(own.repeat_penalty, settings, "repeat_penalty"),
        presence_penalty: float_default(own.presence_penalty, settings, "presence_penalty"),
        frequency_penalty: float_default(own.frequency_penalty, settings, "frequency_penalty"),
        stop,
        reasoning_enabled,
        reasoning_budget,
        reasoning_effort,
    }
}

fn parse_effort(choice: &str) -> (result: Option<ReasoningEffort>)
    ensures
        result == effort_of(choice@),
{
    if same(choice, "none") {
        Some(ReasoningEffort::Off)
    } else if same(choice, "minimal") {
        Some(ReasoningEffort::Minimal)
    } else if same(choice, "low") {
        Some(ReasoningEffort::Low)
    } else if same(choice, "medium") {
        Some(ReasoningEffort::Medium)
    } else if same(choice, "high") {
        Some(ReasoningEffort::High)
    } else if same(choice, "xhigh") {
        Some(ReasoningEffort::Xhigh)
    } else if same(choice, "max") {
        Some(ReasoningEffort::Max)
    } else {
        None
    }
}

fn has_instructions(messages: &Vec<InferenceMessage>) -> (result: bool)
    ensures
        result == exists|i: int|
            0 <= i < messages.len() && (#[trigger] views(messages@)[i]).role.instructs(),
{
    let mut i: usize = 0;
    while i < messages.len()
        invariant
            i <= messages.len(),
            forall|k: int| 0 <= k < i ==> !(#[trigger] views(messages@)[k]).role.instructs(),
        decreases messages.len() - i,
    {
        proof {
            assert(views(messages@)[i as int] == messages@[i as int]@);
        }
        if messages[i].role.is_instruction() {
            return true;
        }
        i += 1;
    }
    false
}

/// Adds to a request what the settings of its backend say and it does not. `budget_default` says
/// whether the engine takes the reasoning budget of the settings as a default for requests.
pub fn apply_request_defaults(
    request: InferenceRequest,
    settings: &Table<SettingValue>,
    budget_default: bool,
) -> (result: InferenceRequest)
    ensures
        result@ == request@.with_defaults(settings@, budget_default),
{
    let generation_settings = generation_defaults(
        request.generation_settings,
        settings,
        budget_default,
    );
    let max_output_tokens = match (request.max_output_tokens, settings.get("max_output_tokens")) {
        (None, Some(SettingValue::UnsignedInteger(value))) => if *value <= u32::MAX as u64 {
            Some(*value as u32)
        } else {
            None
        },
        _ => request.max_output_tokens,
    };
    let mut messages = request.messages;
    let ghost before = views(messages@);
    if let Some(SettingValue::Text(prompt)) = settings.get("system_prompt") {
        if !has_instructions(&messages) {
            let message = InferenceMessage {
                role: InferenceRole::System,
                content: prompt.clone(),
            };
            messages.insert(0, message);
            proof {
                assert(views(messages@) =~= seq![message@] + before);
            }
        }
    }
    let output_format = match request.output_format {
        Some(format) => Some(format),
        None => match settings.get("structured_output_schema") {
            Some(SettingValue::Json(schema)) => Some(
                OutputFormat::JsonSchema {
                    name: None,
                    description: None,
                    schema: schema.clone(),
                    strict: None,
                },
            ),
            _ => None,
        },
    };
    InferenceRequest {
        model_profile_id: request.model_profile_id,
        messages,
        generation_settings,
        max_output_tokens,
        output_format,
    }
}

/// Whether a request that is too long loses messages from its middle.
pub open spec fn truncates(settings: SettingsMap) -> bool {
    setting(settings, "context_overflow"@) == Some(SettingView::Choice("truncate_middle"@))
}

pub fn truncates_middle(settings: &Table<SettingValue>) -> (result: bool)
    ensures
        result == truncates(settings@),
{
    match settings.get("context_overflow") {
        Some(SettingValue::Choice(policy)) => same(policy.as_str(), "truncate_middle"),
        _ => false,
    }
}

/// How many tokens of output are allowed, which truncation must know.
pub fn output_allowance(max_output_tokens: Option<u32>) -> (result: Result<u32, EngineError>)
    ensures
        match max_output_tokens {
            Some(limit) => result == Ok::<u32, EngineError>(limit),
            None => result matches Err(error) && error@
                == EngineErrorView::InvalidGenerationSettings(
                "truncate_middle requires an explicit request or Model Profile maximum output-token limit"@,
            ),
        },
{
    match max_output_tokens {
        Some(limit) => Ok(limit),
        None => Err(
            EngineError::InvalidGenerationSettings(
                "truncate_middle requires an explicit request or Model Profile maximum output-token limit".to_owned(),
            ),
        ),
    }
}

/// How many tokens of input there is room for.
pub fn input_budget(capacity: Option<u64>, output_allowance: u32) -> (result: Result<
    u64,
    EngineError,
>)
    ensures
        match capacity {
            None => result matches Err(error) && error@
                == EngineErrorView::InvalidGenerationSettings(
                "the selected engine/runtime cannot prove an exact context capacity for truncate_middle"@,
            ),
            Some(capacity) => if capacity >= output_allowance {
                result matches Ok(budget) && budget == capacity - output_allowance
            } else {
                result matches Err(error) && error@ == EngineErrorView::InvalidGenerationSettings(
                    "maximum output allowance "@ + decimal(output_allowance as nat)
                        + " leaves no input capacity in the exact "@ + decimal(capacity as nat)
                        + "-token context"@,
                )
            },
        },
{
    let capacity: u64 = match capacity {
        Some(capacity) => capacity,
        None => {
            return Err(
                EngineError::InvalidGenerationSettings(
                    "the selected engine/runtime cannot prove an exact context capacity for truncate_middle".to_owned(),
                ),
            );
        },
    };
    if capacity >= output_allowance as u64 {
        Ok(capacity - output_allowance as u64)
    } else {
        let allowance = decimal_text(output_allowance as u64);
        let total = decimal_text(capacity);
        Err(
            EngineError::InvalidGenerationSettings(
                cat5(
                    "maximum output allowance ",
                    allowance.as_str(),
                    " leaves no input capacity in the exact ",
                    total.as_str(),
                    "-token context",
                ),
            ),
        )
    }
}

/// Whether a message is the first one that may be dropped: no instruction, and not the newest.
pub open spec fn first_removable(messages: Seq<MessageView>, at: int) -> bool {
    &&& 0 <= at < messages.len() - 1
    &&& !messages[at].role.instructs()
    &&& forall|k: int| 0 <= k < at ==> (#[trigger] messages[k]).role.instructs()
}

/// How a request that was counted goes on.
#[derive(Debug, Clone, Copy, PartialEq, Eq, Structural)]
pub enum Fitting {
    /// It fits.
    Fits,
    /// A message was dropped; it is to be counted again.
    Shortened,
}

fn find_removable(messages: &Vec<InferenceMessage>) -> (result: Option<usize>)
    ensures
        match result {
            Some(at) => first_removable(views(messages@), at as int),
            None => forall|at: int| !first_removable(views(messages@), at),
        },
{
    let mut i: usize = 0;
    let ghost all = views(messages@);
    while i < messages.len() && i < messages.len() - 1
        invariant
            i <= messages.len(),
            all == views(messages@),
            forall|k: int| 0 <= k < i ==> (#[trigger] all[k]).role.instructs(),
        decreases messages.len() - i,
    {
        proof {
            assert(all[i as int] == messages@[i as int]@);
        }
        if !messages[i].role.is_instruction() {
            return Some(i);
        }
        i += 1;
    }
    None
}

/// Takes in how many tokens a request has: it fits, or the oldest message that may be dropped is
/// dropped, or nothing may be.
pub fn fit_input(messages: &mut Vec<InferenceMessage>, count: Option<u64>, input_budget: u64) -> (result:
    Result<Fitting, EngineError>)
    ensures
        match count {
            None => views(final(messages)@) == views(old(messages)@) && (result matches Err(error)
                && error@ == EngineErrorView::InvalidGenerationSettings(
                "the selected engine/runtime has no exact tokenizer path for truncate_middle"@,
            )),
            Some(count) => if count <= input_budget {
                views(final(messages)@) == views(old(messages)@) && result == Ok::<
                    Fitting,
                    EngineError,
                >(Fitting::Fits)
            } else {
                match result {
                    Ok(fitting) => fitting == Fitting::Shortened && exists|at: int|
                        first_removable(views(old(messages)@), at) && views(final(messages)@)
                            == #[trigger] views(old(messages)@).remove(at),
                    Err(error) => views(final(messages)@) == views(old(messages)@) && (forall|at: int|
                        !first_removable(views(old(messages)@), at)) && error@
                        == EngineErrorView::InvalidGenerationSettings(
                        "exact rendered input uses "@ + decimal(count as nat)
                            + " tokens but only "@ + decimal(input_budget as nat)
                            + " are available; required instructions and the newest conversational tail cannot be truncated"@,
                    ),
                }
            },
        },
{
    let count: u64 = match count {
        Some(count) => count,
        None => {
            return Err(
                EngineError::InvalidGenerationSettings(
                    "the selected engine/runtime has no exact tokenizer path for truncate_middle".to_owned(),
                ),
            );
        },
    };
    if count <= input_budget {
        return Ok(Fitting::Fits);
    }
    match find_removable(messages) {
        Some(at) => {
            let ghost before = views(messages@);
            let _ = messages.remove(at);
            proof {
                assert(views(messages@) =~= before.remove(at as int));
            }
            Ok(Fitting::Shortened)
        },
        None => {
            let used = decimal_text(count);
            let available = decimal_text(input_budget);
            Err(
                EngineError::InvalidGenerationSettings(
                    cat5(
                        "exact rendered input uses ",
                        used.as_str(),
                        " tokens but only ",
                        available.as_str(),
                        " are available; required instructions and the newest conversational tail cannot be truncated",
                    ),
                ),
            )
        },
    }
}

/// Dropping a message keeps the instructions and the newest message, and keeps the order.
pub proof fn law_truncation_keeps_instructions_and_tail(messages: Seq<MessageView>, at: int)
    requires
        first_removable(messages, at),
    ensures
        messages.remove(at).len() == messages.len() - 1,
        messages.remove(at).last() == messages.last(),
        messages.remove(at).filter(|message: MessageView| message.role.instructs())
            == messages.filter(|message: MessageView| message.role.instructs()),
{
    let test = |message: MessageView| message.role.instructs();
    lemma_remove_filtered(messages, at, test);
}

proof fn lemma_remove_filtered<T>(list: Seq<T>, at: int, test: spec_fn(T) -> bool)
    requires
        0 <= at < list.len(),
        !test(list[at]),
    ensures
        list.remove(at).filter(test) == list.filter(test),
    decreases list.len(),
{
    reveal(Seq::filter);
    let short = list.remove(at);
    if at == list.len() - 1 {
        assert(short =~= list.drop_last());
    } else {
        lemma_remove_filtered(list.drop_last(), at, test);
        assert(short.drop_last() =~= list.drop_last().remove(at));
        assert(short.last() == list.last());
    }
}

/// What a caller is told when an engine could not serve a request.
pub fn map_inference_error(error: EngineError) -> (result: RuntimeError)
    ensures
        result@ == match error@ {
            EngineErrorView::InvalidGenerationSettings(message) => {
                ErrorView::InvalidGenerationSettings(message)
            },
            EngineErrorView::TimedOut(message) => ErrorView::InferenceTimedOut(message),
            EngineErrorView::BackendUnavailable(message) => ErrorView::InferenceUnavailable(message),
            other => ErrorView::Inference(other.text()),
        },
{
    match error {
        EngineError::InvalidGenerationSettings(message) => {
            RuntimeError::InvalidGenerationSettings(message)
        },
        EngineError::TimedOut(message) => RuntimeError::InferenceTimedOut(message),
        EngineError::BackendUnavailable(message) => RuntimeError::InferenceUnavailable(message),
        EngineError::Operation(message) => RuntimeError::Inference(message),
        EngineError::Other(message) => RuntimeError::Inference(message),
    }
}


/// A request whose defaults are applied.
pub enum PreparedRequest {
    /// It is sent as it is.
    Complete(InferenceRequest),
    /// It may have to be shortened: the context capacity of the backend is asked for.
    Bounded(BoundedRequest),
}

/// A request that is to leave room for so many tokens of output.
pub struct BoundedRequest {
    pub request: InferenceRequest,
    pub output_allowance: u32,
}

/// A request that is to have no more tokens than the budget.
pub struct BudgetedRequest {
    pub request: InferenceRequest,
    pub input_budget: u64,
}

/// Prepares a request for the backend that it is sent to.
pub fn prepare_inference_request(
    request: InferenceRequest,
    settings: &Table<SettingValue>,
    budget_default: bool,
) -> (result: Result<PreparedRequest, EngineError>)
    ensures
        ({
            let full = request@.with_defaults(settings@, budget_default);
            if !truncates(settings@) {
                result matches Ok(PreparedRequest::Complete(request)) && request@ == full
            } else {
                match full.max_output_tokens {
                    Some(limit) => result matches Ok(PreparedRequest::Bounded(bounded))
                        && bounded.request@ == full && bounded.output_allowance == limit,
                    None => result matches Err(error) && error@
                        == EngineErrorView::InvalidGenerationSettings(
                        "truncate_middle requires an explicit request or Model Profile maximum output-token limit"@,
                    ),
                }
            }
        }),
{
    let request = apply_request_defaults(request, settings, budget_default);
    if !truncates_middle(settings) {
        return Ok(PreparedRequest::Complete(request));
    }
    match output_allowance(request.max_output_tokens) {
        Ok(output_allowance) => Ok(
            PreparedRequest::Bounded(BoundedRequest { request, output_allowance }),
        ),
        Err(error) => Err(error),
    }
}

impl BoundedRequest {
    /// Takes in the exact context capacity of the backend, if it can prove one.
    pub fn capacity(self, capacity: Option<u64>) -> (result: Result<BudgetedRequest, EngineError>)
        ensures
            match result {
                Ok(budgeted) => capacity is Some && capacity->0 >= self.output_allowance
                    && budgeted.input_budget == capacity->0 - self.output_allowance
                    && budgeted.request == self.request,
                Err(error) => error@ == EngineErrorView::InvalidGenerationSettings(
                    match capacity {
                        None =>
                            "the selected engine/runtime cannot prove an exact context capacity for truncate_middle"@,
                        Some(capacity) => "maximum output allowance "@ + decimal(
                            self.output_allowance as nat,
                        ) + " leaves no input capacity in the exact "@ + decimal(capacity as nat)
                            + "-token context"@,
                    },
                ) && (capacity is None || capacity->0 < self.output_allowance),
            },
    {
        match input_budget(capacity, self.output_allowance) {
            Ok(input_budget) => Ok(BudgetedRequest { request: self.request, input_budget }),
            Err(error) => Err(error),
        }
    }
}

/// A request that leaves a sampling setting open gets the value that the backend's setting of that name
/// holds, where it holds one of the right kind; otherwise it stays open.
pub proof fn law_sampling_settings_are_defaults(
    request: RequestView,
    settings: SettingsMap,
    budget_default: bool,
    value: u64,
)
    ensures
        ({
            let own = request.generation_settings;
            let all = request.with_defaults(settings, budget_default).generation_settings;
            &&& own.top_k is None ==> (all.top_k == Some(value) <==> settings.dom().contains(
                "top_k"@,
            ) && settings["top_k"@] == SettingView::UnsignedInteger(value))
            &&& own.min_p is None ==> (all.min_p == Some(value) <==> settings.dom().contains(
                "min_p"@,
            ) && settings["min_p"@] == SettingView::Float(value))
            &&& own.seed is None ==> (all.seed == Some(value) <==> settings.dom().contains("seed"@)
                && settings["seed"@] == SettingView::NumberOfChoice(value))
            &&& own.repeat_penalty is None ==> (all.repeat_penalty == Some(value)
                <==> settings.dom().contains("repeat_penalty"@) && settings["repeat_penalty"@]
                == SettingView::Float(value))
            &&& own.presence_penalty is None ==> (all.presence_penalty == Some(value)
                <==> settings.dom().contains("presence_penalty"@) && settings["presence_penalty"@]
                == SettingView::Float(value))
            &&& own.frequency_penalty is None ==> (all.frequency_penalty == Some(value)
                <==> settings.dom().contains("frequency_penalty"@)
                && settings["frequency_penalty"@] == SettingView::Float(value))
            &&& all.temperature == own.temperature
            &&& all.top_p == own.top_p
        }),
{
}

/// A request that leaves its stop texts, its length, its form or its instructions open gets what the
/// backend's setting of that name holds: a length that fits, a schema, a prompt ahead of the
/// conversation. Otherwise it stays as it is.
pub proof fn law_text_settings_are_defaults(
    request: RequestView,
    settings: SettingsMap,
    budget_default: bool,
    texts: Seq<Seq<char>>,
    limit: u32,
    text: Seq<char>,
)
    ensures
        ({
            let full = request.with_defaults(settings, budget_default);
            &&& request.generation_settings.stop is None ==> (full.generation_settings.stop == Some(
                texts,
            ) <==> settings.dom().contains("stop_strings"@) && settings["stop_strings"@]
                == SettingView::StringList(texts))
            &&& request.max_output_tokens is None ==> (full.max_output_tokens == Some(limit)
                <==> settings.dom().contains("max_output_tokens"@)
                && settings["max_output_tokens"@] == SettingView::UnsignedInteger(limit as u64))
            &&& request.output_format is None && settings.dom().contains(
                "structured_output_schema"@,
            ) && settings["structured_output_schema"@] == SettingView::Json(text)
                ==> full.output_format == Some(
                FormatView::JsonSchema { name: None, description: None, schema: text, strict: None },
            )
            &&& request.output_format is None && !(settings.dom().contains(
                "structured_output_schema"@,
            ) && settings["structured_output_schema"@] is Json) ==> full.output_format is None
            &&& settings.dom().contains("system_prompt"@) && settings["system_prompt"@]
                == SettingView::Text(text) && (forall|i: int|
                0 <= i < request.messages.len() ==> (#[trigger] request.messages[i]).role
                    != InferenceRole::System && request.messages[i].role
                    != InferenceRole::Developer) ==> full.messages == seq![
                MessageView { role: InferenceRole::System, content: text },
            ] + request.messages
            &&& !(settings.dom().contains("system_prompt"@) && settings["system_prompt"@] is Text)
                ==> full.messages == request.messages
            &&& forall|i: int|
                0 <= i < request.messages.len() && ((#[trigger] request.messages[i]).role
                    == InferenceRole::System || request.messages[i].role
                    == InferenceRole::Developer) ==> full.messages == request.messages
            &&& full.model_profile_id == request.model_profile_id
        }),
{
}

/// Whether reasoning is on, off or left open, and how much of it there is, is what the backend's
/// settings choose, where the request leaves it open: "on" turns it on, "off" turns it off, and any
/// other choice leaves it open; each effort goes by its name. The budget is a default only where the
/// engine takes it as one.
pub proof fn law_reasoning_settings_are_defaults(
    request: RequestView,
    settings: SettingsMap,
    budget_default: bool,
    choice: Seq<char>,
    budget: i64,
)
    ensures
        ({
            let own = request.generation_settings;
            let all = request.with_defaults(settings, budget_default).generation_settings;
            let chosen = settings.dom().contains("reasoning"@) && settings["reasoning"@]
                == SettingView::Choice(choice);
            let effort = settings.dom().contains("reasoning_effort"@)
                && settings["reasoning_effort"@] == SettingView::Choice(choice);
            &&& own.reasoning_enabled is None && chosen ==> {
                &&& choice == "on"@ <==> all.reasoning_enabled == Some(true)
                &&& choice == "off"@ <==> all.reasoning_enabled == Some(false)
            }
            &&& own.reasoning_enabled is None && !(settings.dom().contains("reasoning"@)
                && settings["reasoning"@] is Choice) ==> all.reasoning_enabled is None
            &&& own.reasoning_effort is None && effort ==> {
                &&& choice == "none"@ <==> all.reasoning_effort == Some(ReasoningEffort::Off)
                &&& choice == "minimal"@ <==> all.reasoning_effort == Some(
                    ReasoningEffort::Minimal,
                )
                &&& choice == "low"@ <==> all.reasoning_effort == Some(ReasoningEffort::Low)
                &&& choice == "medium"@ <==> all.reasoning_effort == Some(ReasoningEffort::Medium)
                &&& choice == "high"@ <==> all.reasoning_effort == Some(ReasoningEffort::High)
                &&& choice == "xhigh"@ <==> all.reasoning_effort == Some(ReasoningEffort::Xhigh)
                &&& choice == "max"@ <==> all.reasoning_effort == Some(ReasoningEffort::Max)
            }
            &&& own.reasoning_effort is None && !(settings.dom().contains("reasoning_effort"@)
                && settings["reasoning_effort"@] is Choice) ==> all.reasoning_effort is None
            &&& own.reasoning_budget is None ==> (all.reasoning_budget == Some(budget)
                <==> budget_default && settings.dom().contains("reasoning_budget"@)
                && settings["reasoning_budget"@] == SettingView::Integer(budget))
        }),
{
    reveal_strlit("on");
    reveal_strlit("off");
    reveal_strlit("none");
    reveal_strlit("minimal");
    reveal_strlit("low");
    reveal_strlit("medium");
    reveal_strlit("high");
    reveal_strlit("xhigh");
    reveal_strlit("max");
    assert("on"@.len() == 2 && "off"@.len() == 3);
    assert("none"@[0] == 'n' && "minimal"@.len() == 7 && "low"@[0] == 'l' && "medium"@.len() == 6);
    assert("high"@[0] == 'h' && "xhigh"@.len() == 5 && "max"@[0] == 'm');
    assert("none"@.len() == 4 && "high"@.len() == 4 && "low"@.len() == 3 && "max"@.len() == 3);
}

/// Messages are dropped only where the setting for an overflowing context says so.
pub proof fn law_truncation_is_chosen(settings: SettingsMap)
    ensures
        truncates(settings) <==> settings.dom().contains("context_overflow"@)
            && settings["context_overflow"@] == SettingView::Choice("truncate_middle"@),
{
}

/// What is dropped is the oldest message that is no instruction, and never the newest message; and
/// something can be dropped exactly where there is such a message.
pub proof fn law_oldest_message_is_dropped(messages: Seq<MessageView>, at: int)
    ensures
        first_removable(messages, at) ==> {
            &&& 0 <= at < messages.len() - 1
            &&& messages[at].role != InferenceRole::System
            &&& messages[at].role != InferenceRole::Developer
            &&& forall|k: int|
                0 <= k < at ==> (#[trigger] messages[k]).role == InferenceRole::System
                    || messages[k].role == InferenceRole::Developer
        },
        0 <= at < messages.len() - 1 && messages[at].role != InferenceRole::System
            && messages[at].role != InferenceRole::Developer ==> exists|k: int|
            k <= at && #[trigger] first_removable(messages, k),
    decreases at,
{
    if 0 <= at < messages.len() - 1 && messages[at].role != InferenceRole::System
        && messages[at].role != InferenceRole::Developer {
        if exists|k: int| 0 <= k < at && !(#[trigger] messages[k]).role.instructs() {
            let k = choose|k: int| 0 <= k < at && !(#[trigger] messages[k]).role.instructs();
            law_oldest_message_is_dropped(messages, k);
        } else {
            assert(first_removable(messages, at));
        }
    }
}

} // verus!
