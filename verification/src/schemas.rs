//! Which settings an engine offers, and what a model can be served with.
use vstd::prelude::*;
use vstd::string::*;

use crate::duplicate::{duplicate_list, duplicate_option, lemma_views_push, optional, views, Duplicate};
use crate::resolution::{RuntimeCandidate, RuntimeCandidateView, WantedModel};
use crate::runtimes::{PackErrorView, RuntimePackError};
use crate::selections::{RuntimeSelections, SelectionsView};
use crate::table::{ordered, Table};
use crate::text::{cat2, cat3, contains_text, position_in, same};

verus! {

/// A setting that an engine knows, as far as it can be used now.
#[derive(Debug)]
pub struct SettingDefinition {
    pub id: String,
    pub supported: bool,
    pub unsupported_reason: Option<String>,
    pub default_preview: Option<String>,
}

#[verifier::ext_equal]
pub struct DefinitionView {
    pub id: Seq<char>,
    pub supported: bool,
    pub unsupported_reason: Option<Seq<char>>,
    pub default_preview: Option<Seq<char>>,
}

impl View for SettingDefinition {
    type V = DefinitionView;

    open spec fn view(&self) -> DefinitionView {
        DefinitionView {
            id: self.id@,
            supported: self.supported,
            unsupported_reason: optional(self.unsupported_reason),
            default_preview: optional(self.default_preview),
        }
    }
}

impl Duplicate for SettingDefinition {
    fn duplicate(&self) -> (result: SettingDefinition) {
        SettingDefinition {
            id: self.id.clone(),
            supported: self.supported,
            unsupported_reason: duplicate_option(&self.unsupported_reason),
            default_preview: duplicate_option(&self.default_preview),
        }
    }
}

/// The settings of an engine, for a runtime where one is chosen.
#[derive(Debug)]
pub struct SettingsSchema {
    pub engine_id: String,
    pub runtime_id: Option<String>,
    pub definitions: Vec<SettingDefinition>,
}

#[verifier::ext_equal]
pub struct SchemaView {
    pub engine_id: Seq<char>,
    pub runtime_id: Option<Seq<char>>,
    pub definitions: Seq<DefinitionView>,
}

impl View for SettingsSchema {
    type V = SchemaView;

    open spec fn view(&self) -> SchemaView {
        SchemaView {
            engine_id: self.engine_id@,
            runtime_id: optional(self.runtime_id),
            definitions: views(self.definitions@),
        }
    }
}

impl Duplicate for SettingsSchema {
    fn duplicate(&self) -> (result: SettingsSchema) {
        SettingsSchema {
            engine_id: self.engine_id.clone(),
            runtime_id: duplicate_option(&self.runtime_id),
            definitions: duplicate_list(&self.definitions),
        }
    }
}

/// An installed runtime and its engine.
#[derive(Debug)]
pub struct EngineRuntime {
    pub runtime_id: String,
    pub engine_id: String,
}

#[verifier::ext_equal]
pub struct EngineRuntimeView {
    pub runtime_id: Seq<char>,
    pub engine_id: Seq<char>,
}

impl View for EngineRuntime {
    type V = EngineRuntimeView;

    open spec fn view(&self) -> EngineRuntimeView {
        EngineRuntimeView { runtime_id: self.runtime_id@, engine_id: self.engine_id@ }
    }
}

/// The engine of the first installed runtime with an identifier.
pub open spec fn engine_of(installed: Seq<EngineRuntimeView>, runtime_id: Seq<char>) -> Option<
    Seq<char>,
>
    decreases installed.len(),
{
    if installed.len() == 0 {
        None
    } else if installed[0].runtime_id == runtime_id {
        Some(installed[0].engine_id)
    } else {
        engine_of(installed.skip(1), runtime_id)
    }
}

fn find_engine<'a>(installed: &'a Vec<EngineRuntime>, runtime_id: &str) -> (result: Option<
    &'a String,
>)
    ensures
        match result {
            Some(engine) => engine_of(views(installed@), runtime_id@) == Some(engine@),
            None => engine_of(views(installed@), runtime_id@) is None,
        },
{
    let ghost all = views(installed@);
    let mut i: usize = 0;
    proof {
        assert(all.skip(0) =~= all);
    }
    while i < installed.len()
        invariant
            i <= installed.len(),
            all == views(installed@),
            engine_of(all, runtime_id@) == engine_of(all.skip(i as int), runtime_id@),
        decreases installed.len() - i,
    {
        proof {
            assert(all.skip(i as int)[0] == installed@[i as int]@);
            assert(all.skip(i as int).skip(1) =~= all.skip(i + 1));
        }
        if same(installed[i].runtime_id.as_str(), runtime_id) {
            return Some(&installed[i].engine_id);
        }
        i += 1;
    }
    None
}

/// Which engines have a chosen runtime: the engines in the order that they come up, the first runtime
/// of each, and the engines with more than one.
#[derive(Debug)]
pub struct SchemaPlan {
    pub engines: Vec<String>,
    pub runtimes: Table<String>,
    pub ambiguous: Table<bool>,
}

#[verifier::ext_equal]
pub struct SchemaPlanView {
    pub engines: Seq<Seq<char>>,
    pub runtimes: Map<Seq<char>, Seq<char>>,
    pub ambiguous: Set<Seq<char>>,
}

impl View for SchemaPlan {
    type V = SchemaPlanView;

    open spec fn view(&self) -> SchemaPlanView {
        SchemaPlanView {
            engines: views(self.engines@),
            runtimes: self.runtimes@,
            ambiguous: self.ambiguous@.dom(),
        }
    }
}

/// The plan for chosen runtimes.
pub open spec fn planned(
    chosen: Seq<Seq<char>>,
    installed: Seq<EngineRuntimeView>,
) -> SchemaPlanView
    decreases chosen.len(),
{
    if chosen.len() == 0 {
        SchemaPlanView { engines: Seq::empty(), runtimes: Map::empty(), ambiguous: Set::empty() }
    } else {
        let before = planned(chosen.drop_last(), installed);
        let runtime_id = chosen.last();
        match engine_of(installed, runtime_id) {
            None => before,
            Some(engine) => if !before.runtimes.contains_key(engine) {
                SchemaPlanView {
                    engines: before.engines.push(engine),
                    runtimes: before.runtimes.insert(engine, runtime_id),
                    ..before
                }
            } else if before.runtimes[engine] != runtime_id {
                SchemaPlanView { ambiguous: before.ambiguous.insert(engine), ..before }
            } else {
                before
            },
        }
    }
}

/// The runtimes chosen for formats, in the order of the formats.
pub open spec fn chosen_runtimes(selections: SelectionsView) -> Seq<Seq<char>> {
    ordered(selections.format_defaults.dom()).map_values(
        |format: Seq<char>| selections.format_defaults[format],
    )
}

pub fn plan_runtime_schemas(
    selections: &RuntimeSelections,
    installed: &Vec<EngineRuntime>,
) -> (result: SchemaPlan)
    ensures
        result@ == planned(chosen_runtimes(selections@), views(installed@)),
        result.engines@.len() == result@.engines.len(),
{
    let table = &selections.format_defaults;
    let count: usize = table.len();
    let ghost keys = table.keys();
    let ghost chosen = chosen_runtimes(selections@);
    let ghost all = views(installed@);
    let mut plan = SchemaPlan {
        engines: Vec::new(),
        runtimes: Table::new(),
        ambiguous: Table::new(),
    };
    let mut i: usize = 0;
    proof {
        assert(views(plan.engines@) =~= Seq::empty());
        assert(plan.ambiguous@.dom() =~= Set::empty());
    }
    while i < count
        invariant
            i <= count,
            count == keys.len(),
            keys == table.keys(),
            table@ == selections@.format_defaults,
            chosen == keys.map_values(|format: Seq<char>| table@[format]),
            all == views(installed@),
            plan@ == planned(chosen.take(i as int), all),
        decreases count - i,
    {
        let runtime_id = table.value_at(i);
        proof {
            assert(chosen.take(i + 1).drop_last() =~= chosen.take(i as int));
            assert(chosen.take(i + 1).last() == runtime_id@);
        }
        match find_engine(installed, runtime_id.as_str()) {
            None => {},
            Some(engine) => {
                let seen = match plan.runtimes.get(engine.as_str()) {
                    Some(first) => Some(same(first.as_str(), runtime_id.as_str())),
                    None => None,
                };
                let ghost before = plan@;
                match seen {
                    None => {
                        let name = engine.clone();
                        proof {
                            lemma_views_push(plan.engines@, name);
                        }
                        plan.engines.push(name);
                        let _ = plan.runtimes.insert(engine.clone(), runtime_id.clone());
                        proof {
                            assert(plan@.engines == before.engines.push(engine@));
                        }
                    },
                    Some(true) => {},
                    Some(false) => {
                        let _ = plan.ambiguous.insert(engine.clone(), true);
                        proof {
                            assert(plan@.ambiguous =~= before.ambiguous.insert(engine@));
                        }
                    },
                }
            },
        }
        i += 1;
    }
    proof {
        assert(chosen.take(count as int) =~= chosen);
    }
    plan
}

/// An engine has a chosen runtime exactly if some format's runtime is of it, and it is ambiguous
/// exactly if two formats choose different runtimes of it.
pub proof fn law_ambiguous_engines(
    chosen: Seq<Seq<char>>,
    installed: Seq<EngineRuntimeView>,
    engine: Seq<char>,
)
    ensures
        planned(chosen, installed).runtimes.contains_key(engine) <==> exists|i: int|
            0 <= i < chosen.len() && engine_of(installed, #[trigger] chosen[i]) == Some(engine),
        planned(chosen, installed).ambiguous.contains(engine) <==> exists|i: int, j: int|
            0 <= i < chosen.len() && 0 <= j < chosen.len() && engine_of(
                installed,
                #[trigger] chosen[i],
            ) == Some(engine) && engine_of(installed, #[trigger] chosen[j]) == Some(engine)
                && chosen[i] != chosen[j],
        planned(chosen, installed).runtimes.contains_key(engine) ==> exists|i: int|
            0 <= i < chosen.len() && #[trigger] chosen[i] == planned(
                chosen,
                installed,
            ).runtimes[engine] && engine_of(installed, chosen[i]) == Some(engine),
    decreases chosen.len(),
{
    if chosen.len() > 0 {
        let rest = chosen.drop_last();
        let before = planned(rest, installed);
        let after = planned(chosen, installed);
        let last = chosen.last();
        law_ambiguous_engines(rest, installed, engine);
        assert(forall|i: int| 0 <= i < rest.len() ==> #[trigger] chosen[i] == rest[i]);
        assert(chosen[chosen.len() - 1] == last);
        if before.runtimes.contains_key(engine) {
            let i = choose|i: int|
                0 <= i < rest.len() && #[trigger] rest[i] == before.runtimes[engine] && engine_of(
                    installed,
                    rest[i],
                ) == Some(engine);
            assert(chosen[i] == rest[i]);
            assert(after.runtimes[engine] == before.runtimes[engine]);
        }
        if engine_of(installed, last) == Some(engine) && !before.runtimes.contains_key(engine) {
            assert(after.runtimes[engine] == last);
        }
        if before.ambiguous.contains(engine) {
            let (i, j) = choose|i: int, j: int|
                0 <= i < rest.len() && 0 <= j < rest.len() && engine_of(
                    installed,
                    #[trigger] rest[i],
                ) == Some(engine) && engine_of(installed, #[trigger] rest[j]) == Some(engine)
                    && rest[i] != rest[j];
            assert(chosen[i] == rest[i] && chosen[j] == rest[j]);
        }
        assert forall|i: int, j: int|
            0 <= i < chosen.len() && 0 <= j < chosen.len() && engine_of(
                installed,
                #[trigger] chosen[i],
            ) == Some(engine) && engine_of(installed, #[trigger] chosen[j]) == Some(engine)
                && chosen[i] != chosen[j] implies after.ambiguous.contains(engine) by {
            if i < rest.len() && j < rest.len() {
                assert(rest[i] == chosen[i] && rest[j] == chosen[j]);
            } else {
                let k = if i < rest.len() {
                    i
                } else {
                    j
                };
                assert(rest[k] == chosen[k]);
                assert(before.runtimes.contains_key(engine));
                let first = choose|f: int|
                    0 <= f < rest.len() && #[trigger] rest[f] == before.runtimes[engine]
                        && engine_of(installed, rest[f]) == Some(engine);
                if before.runtimes[engine] == last {
                    assert(rest[first] != rest[k]);
                    assert(before.ambiguous.contains(engine));
                }
            }
        }
    }
}

/// What came of reading the settings of a chosen runtime: its engine is not registered, it failed, or
/// there is a schema, with complaints about what is set.
#[derive(Debug)]
pub enum SchemaOutcome {
    Unregistered,
    Failed(String),
    Read { schema: SettingsSchema, complaints: Vec<String> },
}

#[verifier::ext_equal]
pub enum OutcomeView {
    Unregistered,
    Failed(Seq<char>),
    Read { schema: SchemaView, complaints: Seq<Seq<char>> },
}

impl View for SchemaOutcome {
    type V = OutcomeView;

    open spec fn view(&self) -> OutcomeView {
        match self {
            SchemaOutcome::Unregistered => OutcomeView::Unregistered,
            SchemaOutcome::Failed(error) => OutcomeView::Failed(error@),
            SchemaOutcome::Read { schema, complaints } => OutcomeView::Read {
                schema: schema@,
                complaints: views(complaints@),
            },
        }
    }
}

/// What is said of an engine.
pub open spec fn said_of(engine: Seq<char>, text: Seq<char>) -> Seq<char> {
    engine + ": "@ + text
}

/// The warnings of one engine.
pub open spec fn outcome_warnings(engine: Seq<char>, outcome: OutcomeView) -> Seq<Seq<char>> {
    match outcome {
        OutcomeView::Unregistered => seq![
            said_of(engine, "selected runtime uses an unregistered engine"@),
        ],
        OutcomeView::Failed(error) => seq![said_of(engine, error)],
        OutcomeView::Read { complaints, .. } => complaints.map_values(
            |text: Seq<char>| said_of(engine, text),
        ),
    }
}

/// The warnings of the first engines.
pub open spec fn warnings_of(
    engines: Seq<Seq<char>>,
    outcomes: Seq<OutcomeView>,
    count: int,
) -> Seq<Seq<char>>
    decreases count,
{
    if count <= 0 {
        Seq::empty()
    } else {
        warnings_of(engines, outcomes, count - 1) + outcome_warnings(
            engines[count - 1],
            outcomes[count - 1],
        )
    }
}

/// The schemas that were read for the first engines, without those of ambiguous ones.
pub open spec fn schemas_read(
    plan: SchemaPlanView,
    outcomes: Seq<OutcomeView>,
    count: int,
) -> Map<Seq<char>, SchemaView>
    decreases count,
{
    if count <= 0 {
        Map::empty()
    } else {
        let before = schemas_read(plan, outcomes, count - 1);
        let engine = plan.engines[count - 1];
        match outcomes[count - 1] {
            OutcomeView::Read { schema, .. } if !plan.ambiguous.contains(engine) => before.insert(
                engine,
                schema,
            ),
            _ => before,
        }
    }
}

/// An engine and the settings that it defines.
#[derive(Debug)]
pub struct EngineDefinitions {
    pub engine_id: String,
    pub definitions: Vec<SettingDefinition>,
}

#[verifier::ext_equal]
pub struct EngineDefinitionsView {
    pub engine_id: Seq<char>,
    pub definitions: Seq<DefinitionView>,
}

impl View for EngineDefinitions {
    type V = EngineDefinitionsView;

    open spec fn view(&self) -> EngineDefinitionsView {
        EngineDefinitionsView {
            engine_id: self.engine_id@,
            definitions: views(self.definitions@),
        }
    }
}

/// Why the settings of an engine cannot be used.
pub open spec fn withheld_reason(plan: SchemaPlanView, engine: Seq<char>) -> Seq<char> {
    if plan.runtimes.contains_key(engine) {
        "Selected runtime metadata/probe failed; see runtime diagnostics"@
    } else {
        "No runtime selected/installed for this engine"@
    }
}

/// A setting that cannot be used now.
pub open spec fn withheld(definition: DefinitionView, reason: Seq<char>) -> DefinitionView {
    DefinitionView {
        supported: false,
        unsupported_reason: Some(reason),
        default_preview: None,
        ..definition
    }
}

/// The settings of an engine of which none can be used now.
pub open spec fn withheld_schema(
    plan: SchemaPlanView,
    engine: EngineDefinitionsView,
) -> SchemaView {
    let reason = withheld_reason(plan, engine.engine_id);
    SchemaView {
        engine_id: engine.engine_id,
        runtime_id: if plan.runtimes.contains_key(engine.engine_id) {
            Some(plan.runtimes[engine.engine_id])
        } else {
            None
        },
        definitions: engine.definitions.map_values(
            |definition: DefinitionView| withheld(definition, reason),
        ),
    }
}

/// The schemas with those of engines that have none yet. An engine with several chosen runtimes stays
/// without: nothing that is said of it would be true of each of them.
pub open spec fn completed(
    schemas: Map<Seq<char>, SchemaView>,
    plan: SchemaPlanView,
    engines: Seq<EngineDefinitionsView>,
) -> Map<Seq<char>, SchemaView>
    decreases engines.len(),
{
    if engines.len() == 0 {
        schemas
    } else {
        let before = completed(schemas, plan, engines.drop_last());
        let engine = engines.last();
        if before.contains_key(engine.engine_id) || plan.ambiguous.contains(engine.engine_id) {
            before
        } else {
            before.insert(engine.engine_id, withheld_schema(plan, engine))
        }
    }
}

fn withhold(plan: &SchemaPlan, engine: &EngineDefinitions) -> (result: SettingsSchema)
    ensures
        result@ == withheld_schema(plan@, engine@),
{
    let runtime_id = match plan.runtimes.get(engine.engine_id.as_str()) {
        Some(runtime_id) => Some(runtime_id.clone()),
        None => None,
    };
    let reason = if runtime_id.is_some() {
        "Selected runtime metadata/probe failed; see runtime diagnostics"
    } else {
        "No runtime selected/installed for this engine"
    };
    let ghost goal = engine@.definitions.map_values(
        |definition: DefinitionView| withheld(definition, reason@),
    );
    let mut definitions: Vec<SettingDefinition> = Vec::new();
    let mut i: usize = 0;
    while i < engine.definitions.len()
        invariant
            i <= engine.definitions.len(),
            goal == engine@.definitions.map_values(
                |definition: DefinitionView| withheld(definition, reason@),
            ),
            views(definitions@) =~= goal.take(i as int),
        decreases engine.definitions.len() - i,
    {
        let definition = SettingDefinition {
            id: engine.definitions[i].id.clone(),
            supported: false,
            unsupported_reason: Some(reason.to_owned()),
            default_preview: None,
        };
        proof {
            assert(engine@.definitions[i as int] == engine.definitions@[i as int]@);
            assert(goal[i as int] == definition@);
            lemma_views_push(definitions@, definition);
            assert(goal.take(i + 1) =~= goal.take(i as int).push(goal[i as int]));
        }
        definitions.push(definition);
        i += 1;
    }
    proof {
        assert(goal.take(goal.len() as int) =~= goal);
    }
    SettingsSchema { engine_id: engine.engine_id.clone(), runtime_id, definitions }
}

fn warn_outcome(engine: &str, outcome: &SchemaOutcome, warnings: &mut Vec<String>)
    ensures
        views(final(warnings)@) == views(old(warnings)@) + outcome_warnings(engine@, outcome@),
{
    let ghost before = views(warnings@);
    match outcome {
        SchemaOutcome::Unregistered => {
            let text = cat3(engine, ": ", "selected runtime uses an unregistered engine");
            proof {
                lemma_views_push(warnings@, text);
                assert(before.push(text@) =~= before + seq![text@]);
            }
            warnings.push(text);
        },
        SchemaOutcome::Failed(error) => {
            let text = cat3(engine, ": ", error.as_str());
            proof {
                lemma_views_push(warnings@, text);
                assert(before.push(text@) =~= before + seq![text@]);
            }
            warnings.push(text);
        },
        SchemaOutcome::Read { complaints, .. } => {
            let ghost goal = views(complaints@).map_values(
                |text: Seq<char>| said_of(engine@, text),
            );
            let mut i: usize = 0;
            proof {
                assert(before + goal.take(0) =~= before);
            }
            while i < complaints.len()
                invariant
                    i <= complaints.len(),
                    goal == views(complaints@).map_values(
                        |text: Seq<char>| said_of(engine@, text),
                    ),
                    views(warnings@) == before + goal.take(i as int),
                decreases complaints.len() - i,
            {
                let text = cat3(engine, ": ", complaints[i].as_str());
                proof {
                    assert(views(complaints@)[i as int] == complaints@[i as int]@);
                    assert(goal[i as int] == text@);
                    lemma_views_push(warnings@, text);
                    assert((before + goal.take(i as int)).push(text@) =~= before + goal.take(
                        i + 1,
                    ));
                }
                warnings.push(text);
                i += 1;
            }
            proof {
                assert(goal.take(goal.len() as int) =~= goal);
            }
        },
    }
}

/// The settings of the engines: those read from the chosen runtime, or, where none is chosen or it
/// could not be read, the engine's definitions with the reason that they cannot be used. An engine
/// with several chosen runtimes is left out.
pub fn selected_runtime_settings_schemas(
    plan: &SchemaPlan,
    outcomes: &Vec<SchemaOutcome>,
    engines: &Vec<EngineDefinitions>,
) -> (result: (Table<SettingsSchema>, Vec<String>))
    requires
        outcomes@.len() == plan.engines@.len(),
    ensures
        result.0@ == completed(
            schemas_read(plan@, views(outcomes@), outcomes@.len() as int),
            plan@,
            views(engines@),
        ),
        views(result.1@) == warnings_of(
            plan@.engines,
            views(outcomes@),
            outcomes@.len() as int,
        ),
        forall|engine: Seq<char>| #[trigger]
            plan@.ambiguous.contains(engine) ==> !result.0@.contains_key(engine),
{
    let ghost read = views(outcomes@);
    let mut schemas: Table<SettingsSchema> = Table::new();
    let mut warnings: Vec<String> = Vec::new();
    let mut i: usize = 0;
    proof {
        assert(views(warnings@) =~= Seq::empty());
    }
    while i < outcomes.len()
        invariant
            i <= outcomes.len(),
            outcomes@.len() == plan.engines@.len(),
            read == views(outcomes@),
            schemas@ == schemas_read(plan@, read, i as int),
            views(warnings@) == warnings_of(plan@.engines, read, i as int),
        decreases outcomes.len() - i,
    {
        let engine = plan.engines[i].as_str();
        proof {
            assert(plan@.engines[i as int] == engine@);
            assert(read[i as int] == outcomes@[i as int]@);
        }
        warn_outcome(engine, &outcomes[i], &mut warnings);
        match &outcomes[i] {
            SchemaOutcome::Read { schema, .. } => {
                if !plan.ambiguous.contains(engine) {
                    let _ = schemas.insert(engine.to_owned(), schema.duplicate());
                }
            },
            _ => {},
        }
        i += 1;
    }
    let ghost start = schemas@;
    let ghost all = views(engines@);
    let mut j: usize = 0;
    while j < engines.len()
        invariant
            j <= engines.len(),
            all == views(engines@),
            schemas@ == completed(start, plan@, all.take(j as int)),
        decreases engines.len() - j,
    {
        proof {
            assert(all.take(j + 1).drop_last() =~= all.take(j as int));
            assert(all.take(j + 1).last() == engines@[j as int]@);
        }
        if !schemas.contains(engines[j].engine_id.as_str()) && !plan.ambiguous.contains(
            engines[j].engine_id.as_str(),
        ) {
            let schema = withhold(plan, &engines[j]);
            let _ = schemas.insert(engines[j].engine_id.clone(), schema);
        }
        j += 1;
    }
    proof {
        assert(all.take(all.len() as int) =~= all);
        assert forall|engine: Seq<char>| #[trigger]
            plan@.ambiguous.contains(engine) implies !schemas@.contains_key(engine) by {
            lemma_not_read(plan@, read, read.len() as int, engine);
            lemma_completed(start, plan@, all, engine);
        }
    }
    (schemas, warnings)
}

proof fn lemma_not_read(
    plan: SchemaPlanView,
    outcomes: Seq<OutcomeView>,
    count: int,
    engine: Seq<char>,
)
    requires
        plan.ambiguous.contains(engine),
    ensures
        !schemas_read(plan, outcomes, count).contains_key(engine),
    decreases count,
{
    if count > 0 {
        lemma_not_read(plan, outcomes, count - 1, engine);
    }
}

proof fn lemma_completed(
    schemas: Map<Seq<char>, SchemaView>,
    plan: SchemaPlanView,
    engines: Seq<EngineDefinitionsView>,
    engine: Seq<char>,
)
    ensures
        schemas.contains_key(engine) ==> completed(schemas, plan, engines).contains_key(engine)
            && completed(schemas, plan, engines)[engine] == schemas[engine],
        !schemas.contains_key(engine) && completed(schemas, plan, engines).contains_key(engine)
            ==> exists|i: int|
            0 <= i < engines.len() && (#[trigger] engines[i]).engine_id == engine && completed(
                schemas,
                plan,
                engines,
            )[engine] == withheld_schema(plan, engines[i]),
        !plan.ambiguous.contains(engine) ==> forall|i: int|
            0 <= i < engines.len() && (#[trigger] engines[i]).engine_id == engine ==> completed(
                schemas,
                plan,
                engines,
            ).contains_key(engine),
        plan.ambiguous.contains(engine) && !schemas.contains_key(engine) ==> !completed(
            schemas,
            plan,
            engines,
        ).contains_key(engine),
    decreases engines.len(),
{
    if engines.len() > 0 {
        let rest = engines.drop_last();
        lemma_completed(schemas, plan, rest, engine);
        assert(forall|i: int| 0 <= i < rest.len() ==> #[trigger] engines[i] == rest[i]);
        assert(engines[engines.len() - 1] == engines.last());
        let before = completed(schemas, plan, rest);
        if !schemas.contains_key(engine) && before.contains_key(engine) {
            let i = choose|i: int|
                0 <= i < rest.len() && (#[trigger] rest[i]).engine_id == engine && before[engine]
                    == withheld_schema(plan, rest[i]);
            assert(engines[i] == rest[i]);
        }
        assert forall|i: int|
            !plan.ambiguous.contains(engine) && 0 <= i < engines.len() && (
            #[trigger] engines[i]).engine_id == engine implies completed(
            schemas,
            plan,
            engines,
        ).contains_key(engine) by {
            if i < rest.len() {
                assert(rest[i] == engines[i]);
            }
        }
    }
}

/// An engine with several chosen runtimes is left out, and every other registered engine is there: with
/// what was read from its chosen runtime, or with definitions of which none can be used.
pub proof fn law_ambiguous_engines_are_left_out(
    plan: SchemaPlanView,
    outcomes: Seq<OutcomeView>,
    engines: Seq<EngineDefinitionsView>,
    at: int,
)
    requires
        0 <= at < engines.len(),
    ensures
        ({
            let engine = engines[at].engine_id;
            let read = schemas_read(plan, outcomes, outcomes.len() as int);
            let all = completed(read, plan, engines);
            &&& all.contains_key(engine) <==> !plan.ambiguous.contains(engine)
            &&& read.contains_key(engine) ==> all.contains_key(engine) && all[engine]
                == read[engine]
            &&& !read.contains_key(engine) && all.contains_key(engine) ==> forall|i: int|
                0 <= i < all[engine].definitions.len() ==> !(
                #[trigger] all[engine].definitions[i]).supported
        }),
{
    let engine = engines[at].engine_id;
    let schemas = schemas_read(plan, outcomes, outcomes.len() as int);
    lemma_completed(schemas, plan, engines, engine);
    if plan.ambiguous.contains(engine) {
        lemma_not_read(plan, outcomes, outcomes.len() as int, engine);
    }
}

/// A change of the engine of a Model Profile: what is set in it, and what was taken out because the
/// new engine does not accept it.
#[derive(Debug)]
pub struct EngineSwitch {
    overrides: Table<String>,
    removed: Table<bool>,
}

#[verifier::ext_equal]
pub struct SwitchView {
    pub overrides: Map<Seq<char>, Seq<char>>,
    pub removed: Set<Seq<char>>,
}

impl View for EngineSwitch {
    type V = SwitchView;

    closed spec fn view(&self) -> SwitchView {
        SwitchView { overrides: self.overrides@, removed: self.removed@.dom() }
    }
}

impl SwitchView {
    /// With only what is accepted.
    pub open spec fn kept(self, accepted: Set<Seq<char>>) -> SwitchView {
        SwitchView {
            overrides: self.overrides.restrict(accepted),
            removed: self.removed + (self.overrides.dom() - accepted),
        }
    }
}

impl EngineSwitch {
    pub fn new(overrides: Table<String>) -> (result: EngineSwitch)
        ensures
            result@ == (SwitchView { overrides: overrides@, removed: Set::empty() }),
    {
        let result = EngineSwitch { overrides, removed: Table::new() };
        proof {
            assert(result.removed@.dom() =~= Set::empty());
        }
        result
    }

    /// Keeps what is accepted and tells whether anything was taken out.
    pub fn retain(&mut self, accepted: &Vec<String>) -> (changed: bool)
        ensures
            final(self)@ == old(self)@.kept(views(accepted@).to_set()),
            changed == !old(self)@.overrides.dom().subset_of(views(accepted@).to_set()),
    {
        let ghost start = self@;
        let ghost set = views(accepted@).to_set();
        let mut kept: Table<String> = Table::new();
        let mut dropped: Table<bool> = Table::new();
        let mut changed = false;
        let count: usize = self.overrides.len();
        let ghost keys = self.overrides.keys();
        let mut i: usize = 0;
        proof {
            assert(kept@ =~= start.overrides.restrict(keys.take(0).to_set() * set));
            assert(dropped@.dom() =~= keys.take(0).to_set() - set);
        }
        while i < count
            invariant
                i <= count,
                count == keys.len(),
                keys == self.overrides.keys(),
                self.overrides@ == start.overrides,
                self@ == start,
                set == views(accepted@).to_set(),
                kept@ == start.overrides.restrict(keys.take(i as int).to_set() * set),
                dropped@.dom() == keys.take(i as int).to_set() - set,
                changed == exists|k: int| 0 <= k < i && !set.contains(#[trigger] keys[k]),
            decreases count - i,
        {
            let key = self.overrides.key_at(i).clone();
            proof {
                crate::table::lemma_take_grows(keys, i as int);
                assert(set.contains(key@) == views(accepted@).contains(key@));
                assert(keys[i as int] == key@);
            }
            if contains_text(accepted, key.as_str()) {
                let value = self.overrides.value_at(i).clone();
                let ghost before = kept@;
                let _ = kept.insert(key, value);
                proof {
                    assert(kept@ =~= start.overrides.restrict(keys.take(i + 1).to_set() * set));
                    assert(dropped@.dom() =~= keys.take(i + 1).to_set() - set);
                }
            } else {
                let _ = dropped.insert(key, true);
                changed = true;
                proof {
                    assert(kept@ =~= start.overrides.restrict(keys.take(i + 1).to_set() * set));
                    assert(dropped@.dom() =~= keys.take(i + 1).to_set() - set);
                }
            }
            i += 1;
        }
        proof {
            assert(keys.take(count as int) =~= keys);
            assert(kept@ =~= start.overrides.restrict(set));
            if !start.overrides.dom().subset_of(set) {
                let key = choose|key: Seq<char>|
                    start.overrides.dom().contains(key) && !set.contains(key);
                assert(keys.to_set().contains(key));
                let k = choose|k: int| 0 <= k < keys.len() && keys[k] == key;
                assert(!set.contains(keys[k]));
            }
        }
        let ghost taken = self.removed@;
        self.overrides = kept;
        self.removed.extend_from(&dropped);
        proof {
            assert(self@.removed =~= start.removed + (start.overrides.dom() - set));
        }
        changed
    }

    /// What is set now.
    pub fn overrides(&self) -> (result: &Table<String>)
        ensures
            result@ == self@.overrides,
    {
        &self.overrides
    }

    /// What is set now, and what was taken out, in order.
    pub fn finish(self) -> (result: (Table<String>, Vec<String>))
        ensures
            result.0@ == self@.overrides,
            views(result.1@) == ordered(self@.removed),
    {
        let removed = table_keys(&self.removed);
        (self.overrides, removed)
    }
}

/// The keys of a table, in order.
pub fn table_keys<V: View>(table: &Table<V>) -> (result: Vec<String>)
    ensures
        views(result@) == ordered(table@.dom()),
        views(result@) == table.keys(),
{
    let count: usize = table.len();
    let ghost keys = table.keys();
    let mut result: Vec<String> = Vec::new();
    let mut i: usize = 0;
    while i < count
        invariant
            i <= count,
            count == keys.len(),
            keys == table.keys(),
            views(result@) =~= keys.take(i as int),
        decreases count - i,
    {
        let key = table.key_at(i).clone();
        proof {
            lemma_views_push(result@, key);
            assert(keys.take(i + 1) =~= keys.take(i as int).push(keys[i as int]));
        }
        result.push(key);
        i += 1;
    }
    proof {
        assert(keys.take(count as int) =~= keys);
    }
    result
}

impl SwitchView {
    /// Whether each of some settings is kept with its value or told as taken out, and never both.
    pub open spec fn accounts_for(self, start: Map<Seq<char>, Seq<char>>) -> bool {
        &&& self.overrides.dom() + self.removed == start.dom()
        &&& self.overrides.dom().disjoint(self.removed)
        &&& self.overrides.submap_of(start)
    }

    /// With only what is accepted, one round after the other.
    pub open spec fn kept_through(self, rounds: Seq<Set<Seq<char>>>) -> SwitchView
        decreases rounds.len(),
    {
        if rounds.len() == 0 {
            self
        } else {
            self.kept_through(rounds.drop_last()).kept(rounds.last())
        }
    }
}

/// Nothing is lost by a round of a change of engine: where each setting is accounted for, it still is,
/// and what stays was there and is accepted.
pub proof fn law_switch_loses_nothing(
    start: Map<Seq<char>, Seq<char>>,
    state: SwitchView,
    accepted: Set<Seq<char>>,
)
    requires
        state.accounts_for(start),
    ensures
        state.kept(accepted).accounts_for(start),
        state.kept(accepted).overrides.submap_of(state.overrides),
        state.kept(accepted).overrides.dom().subset_of(accepted),
        state.removed.subset_of(state.kept(accepted).removed),
{
    let after = state.kept(accepted);
    assert(after.overrides.dom() + after.removed =~= start.dom());
}

/// However many rounds a change of engine takes, each setting that was there is kept with its value or
/// told as taken out, never both, and what stays is what every round accepts.
pub proof fn law_switch_loses_nothing_in_any_round(
    start: Map<Seq<char>, Seq<char>>,
    rounds: Seq<Set<Seq<char>>>,
)
    ensures
        ({
            let end = (SwitchView { overrides: start, removed: Set::empty() }).kept_through(rounds);
            &&& end.accounts_for(start)
            &&& forall|id: Seq<char>| #[trigger]
                end.overrides.dom().contains(id) <==> start.dom().contains(id) && forall|i: int|
                    0 <= i < rounds.len() ==> (#[trigger] rounds[i]).contains(id)
        }),
    decreases rounds.len(),
{
    let first = SwitchView { overrides: start, removed: Set::empty() };
    if rounds.len() == 0 {
        assert(first.overrides.dom() + first.removed =~= start.dom());
    } else {
        let before = rounds.drop_last();
        law_switch_loses_nothing_in_any_round(start, before);
        let state = first.kept_through(before);
        law_switch_loses_nothing(start, state, rounds.last());
        let end = first.kept_through(rounds);
        assert forall|id: Seq<char>| #[trigger] end.overrides.dom().contains(id) <==> start.dom().contains(
            id,
        ) && forall|i: int| 0 <= i < rounds.len() ==> (#[trigger] rounds[i]).contains(id) by {
            if end.overrides.dom().contains(id) {
                assert(state.overrides.dom().contains(id));
                assert forall|i: int| 0 <= i < rounds.len() implies (#[trigger] rounds[i]).contains(
                    id,
                ) by {
                    if i < before.len() {
                        assert(before[i].contains(id));
                    }
                }
            }
            if start.dom().contains(id) && forall|i: int|
                0 <= i < rounds.len() ==> (#[trigger] rounds[i]).contains(id) {
                assert forall|i: int| 0 <= i < before.len() implies (#[trigger] before[i]).contains(
                    id,
                ) by {
                    assert(rounds[i].contains(id));
                }
                assert(state.overrides.dom().contains(id));
                assert(rounds[rounds.len() - 1].contains(id));
            }
        }
    }
}

/// Texts without repeats, in order.
pub fn sorted_unique(list: &Vec<String>) -> (result: Vec<String>)
    ensures
        views(result@) == ordered(views(list@).to_set()),
{
    let ghost all = views(list@);
    let mut table: Table<bool> = Table::new();
    let mut i: usize = 0;
    proof {
        assert(table@.dom() =~= all.take(0).to_set());
    }
    while i < list.len()
        invariant
            i <= list.len(),
            all == views(list@),
            table@.dom() == all.take(i as int).to_set(),
        decreases list.len() - i,
    {
        let text = list[i].clone();
        proof {
            crate::table::lemma_take_grows(all, i as int);
            assert(all[i as int] == text@);
        }
        let ghost before = table@.dom();
        let _ = table.insert(text, true);
        proof {
            assert(table@.dom() =~= before.insert(all[i as int]));
        }
        i += 1;
    }
    proof {
        assert(all.take(all.len() as int) =~= all);
    }
    table_keys(&table)
}

/// What a registered engine that takes a model can do with it.
#[derive(Debug)]
pub struct EngineCapability {
    pub engine_id: String,
    pub embeddings: bool,
    pub chat_completions: bool,
    pub responses: bool,
}

/// Whether an engine takes a model for embeddings alone.
pub open spec fn embeds_only(engine: EngineCapability) -> bool {
    engine.embeddings && !engine.chat_completions && !engine.responses
}

/// The runtime selected for a model and what it can do.
#[derive(Debug)]
pub struct SelectedServing {
    pub runtime_id: String,
    pub tools: bool,
    pub vision: bool,
    pub structured_output: bool,
}

/// What a model can be served with.
#[derive(Debug)]
pub struct ModelServingCapabilities {
    pub model_id: String,
    pub format: String,
    pub compatible_engine_ids: Vec<String>,
    pub compatible_installed_runtime_ids: Vec<String>,
    pub selected_runtime_id: Option<String>,
    pub active: bool,
    pub text_input: bool,
    pub text_output: bool,
    pub responses: bool,
    pub chat_completions: bool,
    pub streaming: bool,
    pub tools: bool,
    pub vision: bool,
    pub structured_output: bool,
}

/// The identifiers of the runtimes that can serve a format.
pub open spec fn serving_ids(
    candidates: Seq<RuntimeCandidateView>,
    format: Seq<char>,
) -> Set<Seq<char>> {
    Set::new(
        |id: Seq<char>|
            exists|i: int|
                0 <= i < candidates.len() && (#[trigger] candidates[i]).id() == id
                    && candidates[i].model_refusal(format) is None,
    )
}

/// Whether a schema has a setting for structured output that can be used.
pub open spec fn offers_structured_output(
    engine_id: Seq<char>,
    definitions: Seq<DefinitionView>,
) -> bool
    decreases definitions.len(),
{
    if definitions.len() == 0 {
        false
    } else if definitions[0].id == engine_id + ".structured_output_schema"@ {
        definitions[0].supported
    } else {
        offers_structured_output(engine_id, definitions.skip(1))
    }
}

pub fn structured_output(engine_id: &str, definitions: &Vec<SettingDefinition>) -> (result: bool)
    ensures
        result == offers_structured_output(engine_id@, views(definitions@)),
{
    let ghost all = views(definitions@);
    let wanted = cat2(engine_id, ".structured_output_schema");
    let mut i: usize = 0;
    proof {
        assert(all.skip(0) =~= all);
    }
    while i < definitions.len()
        invariant
            i <= definitions.len(),
            all == views(definitions@),
            wanted@ == engine_id@ + ".structured_output_schema"@,
            offers_structured_output(engine_id@, all) == offers_structured_output(
                engine_id@,
                all.skip(i as int),
            ),
        decreases definitions.len() - i,
    {
        proof {
            assert(all.skip(i as int)[0] == definitions@[i as int]@);
            assert(all.skip(i as int).skip(1) =~= all.skip(i + 1));
        }
        if same(definitions[i].id.as_str(), wanted.as_str()) {
            return definitions[i].supported;
        }
        i += 1;
    }
    false
}

fn find_serving_ids(candidates: &Vec<RuntimeCandidate>, format: &str) -> (result: Vec<String>)
    ensures
        views(result@) == ordered(serving_ids(views(candidates@), format@)),
{
    let ghost all = views(candidates@);
    let mut table: Table<bool> = Table::new();
    let mut i: usize = 0;
    proof {
        assert(table@.dom() =~= serving_ids(all.take(0), format@));
    }
    while i < candidates.len()
        invariant
            i <= candidates.len(),
            all == views(candidates@),
            table@.dom() == serving_ids(all.take(i as int), format@),
        decreases candidates.len() - i,
    {
        let candidate = &candidates[i];
        let ghost before = table@.dom();
        let serves = candidate.validate_model_candidate(format).is_ok();
        proof {
            assert(all[i as int] == candidate@);
            let now = all.take(i + 1);
            assert(now[i as int] == candidate@);
            assert(forall|k: int| 0 <= k < i ==> #[trigger] now[k] == all.take(i as int)[k]);
            if serves {
                assert(serving_ids(now, format@) =~= before.insert(candidate@.id())) by {
                    assert forall|id: Seq<char>| #[trigger]
                        before.insert(candidate@.id()).contains(id) implies serving_ids(
                        now,
                        format@,
                    ).contains(id) by {
                        if id == candidate@.id() {
                            assert(now[i as int].id() == id);
                        } else {
                            let k = choose|k: int|
                                0 <= k < all.take(i as int).len() && (#[trigger] all.take(
                                    i as int,
                                )[k]).id() == id && all.take(i as int)[k].model_refusal(format@)
                                    is None;
                            assert(now[k] == all.take(i as int)[k]);
                        }
                    }
                    assert forall|id: Seq<char>| #[trigger]
                        serving_ids(now, format@).contains(id) implies before.insert(
                        candidate@.id(),
                    ).contains(id) by {
                        let k = choose|k: int|
                            0 <= k < now.len() && (#[trigger] now[k]).id() == id
                                && now[k].model_refusal(format@) is None;
                        if k < i {
                            assert(all.take(i as int)[k] == now[k]);
                        }
                    }
                }
            } else {
                assert(serving_ids(now, format@) =~= before) by {
                    assert forall|id: Seq<char>| #[trigger]
                        before.contains(id) implies serving_ids(now, format@).contains(id) by {
                        let k = choose|k: int|
                            0 <= k < all.take(i as int).len() && (#[trigger] all.take(
                                i as int,
                            )[k]).id() == id && all.take(i as int)[k].model_refusal(format@)
                                is None;
                        assert(now[k] == all.take(i as int)[k]);
                    }
                    assert forall|id: Seq<char>| #[trigger]
                        serving_ids(now, format@).contains(id) implies before.contains(id) by {
                        let k = choose|k: int|
                            0 <= k < now.len() && (#[trigger] now[k]).id() == id
                                && now[k].model_refusal(format@) is None;
                        if k < i {
                            assert(all.take(i as int)[k] == now[k]);
                        }
                    }
                }
            }
        }
        if serves {
            let _ = table.insert(candidate.status.runtime.manifest.runtime_id.clone(), true);
            proof {
                assert(table@.dom() =~= before.insert(candidate@.id()));
            }
        }
        i += 1;
    }
    proof {
        assert(all.take(all.len() as int) =~= all);
    }
    table_keys(&table)
}

/// What a model can be served with, given the engines that take it and the runtime selected for it.
pub fn model_serving_capabilities(
    model: &WantedModel,
    active_model: &Option<String>,
    candidates: &Vec<RuntimeCandidate>,
    engines: &Vec<EngineCapability>,
    selected: Option<SelectedServing>,
) -> (result: ModelServingCapabilities)
    ensures
        result.model_id@ == model.id@,
        result.format@ == model.format@,
        views(result.compatible_engine_ids@) == ordered(
            engines@.map_values(|engine: EngineCapability| engine.engine_id@).to_set(),
        ),
        views(result.compatible_installed_runtime_ids@) == ordered(
            serving_ids(views(candidates@), model.format@),
        ),
        match selected {
            Some(one) => optional(result.selected_runtime_id) == Some(one.runtime_id@)
                && result.tools == one.tools && result.vision == one.vision
                && result.structured_output == one.structured_output,
            None => result.selected_runtime_id is None && !result.tools && !result.vision
                && !result.structured_output,
        },
        result.active == (optional(*active_model) == Some(model.id@)),
        result.text_input,
        result.text_output == forall|i: int|
            0 <= i < engines@.len() ==> !embeds_only(#[trigger] engines@[i]),
        result.responses == result.text_output,
        result.chat_completions == result.text_output,
        result.streaming == result.text_output,
{
    let ghost names = engines@.map_values(|engine: EngineCapability| engine.engine_id@);
    let mut ids: Vec<String> = Vec::new();
    let mut text_generation = true;
    let mut i: usize = 0;
    while i < engines.len()
        invariant
            i <= engines.len(),
            names == engines@.map_values(|engine: EngineCapability| engine.engine_id@),
            views(ids@) =~= names.take(i as int),
            text_generation == forall|k: int|
                0 <= k < i ==> !embeds_only(#[trigger] engines@[k]),
        decreases engines.len() - i,
    {
        let id = engines[i].engine_id.clone();
        proof {
            lemma_views_push(ids@, id);
            assert(names[i as int] == id@);
            assert(names.take(i + 1) =~= names.take(i as int).push(id@));
        }
        ids.push(id);
        if engines[i].embeddings && !engines[i].chat_completions && !engines[i].responses {
            text_generation = false;
            assert(embeds_only(engines@[i as int]));
        }
        i += 1;
    }
    proof {
        assert(names.take(names.len() as int) =~= names);
    }
    let active = match active_model {
        Some(active) => same(active.as_str(), model.id.as_str()),
        None => false,
    };
    let (selected_runtime_id, tools, vision, structured_output) = match selected {
        Some(one) => (Some(one.runtime_id), one.tools, one.vision, one.structured_output),
        None => (None, false, false, false),
    };
    ModelServingCapabilities {
        model_id: model.id.clone(),
        format: model.format.clone(),
        compatible_engine_ids: sorted_unique(&ids),
        compatible_installed_runtime_ids: find_serving_ids(candidates, model.format.as_str()),
        selected_runtime_id,
        active,
        text_input: true,
        text_output: text_generation,
        responses: text_generation,
        chat_completions: text_generation,
        streaming: text_generation,
        tools,
        vision,
        structured_output,
    }
}

/// What is said of an engine that a Model Profile is bound to and that is not here.
pub fn bound_engine(engine_id: &str, registered: bool) -> (result: Result<(), RuntimePackError>)
    ensures
        match result {
            Ok(()) => registered,
            Err(error) => !registered && error@ == PackErrorView::Selection(
                "bound engine `"@ + engine_id@ + "` is not registered"@,
            ),
        },
{
    if registered {
        Ok(())
    } else {
        Err(RuntimePackError::Selection(cat3("bound engine `", engine_id, "` is not registered")))
    }
}

/// What an engine did with settings that it was handed; `None` where there is no such engine.
pub open spec fn engine_refusal(
    outcome: Option<Result<(), Seq<char>>>,
    missing: Seq<char>,
) -> Option<PackErrorView> {
    match outcome {
        None => Some(PackErrorView::Selection(missing)),
        Some(Err(error)) => Some(PackErrorView::Adapter(error)),
        Some(Ok(())) => None,
    }
}

pub open spec fn outcome_view(outcome: Option<Result<(), String>>) -> Option<
    Result<(), Seq<char>>,
> {
    match outcome {
        None => None,
        Some(Ok(())) => Some(Ok(())),
        Some(Err(error)) => Some(Err(error@)),
    }
}

/// Whether the engine that a Model Profile is bound to could put its settings into their normal form.
pub fn normalize_settings(engine_id: &str, outcome: Option<Result<(), String>>) -> (result: Result<
    (),
    RuntimePackError,
>)
    ensures
        match (
            result,
            engine_refusal(
                outcome_view(outcome),
                "bound engine `"@ + engine_id@ + "` is not registered"@,
            ),
        ) {
            (Ok(()), None) => true,
            (Err(error), Some(expected)) => error@ == expected,
            _ => false,
        },
{
    match outcome {
        None => bound_engine(engine_id, false),
        Some(Err(error)) => Err(RuntimePackError::Adapter(error)),
        Some(Ok(())) => Ok(()),
    }
}

/// Whether the engine of settings accepts them for a runtime.
pub fn validate_configuration(engine_id: &str, outcome: Option<Result<(), String>>) -> (result:
    Result<(), RuntimePackError>)
    ensures
        match (
            result,
            engine_refusal(outcome_view(outcome), "unknown engine `"@ + engine_id@ + "`"@),
        ) {
            (Ok(()), None) => true,
            (Err(error), Some(expected)) => error@ == expected,
            _ => false,
        },
{
    match outcome {
        None => Err(RuntimePackError::Selection(cat3("unknown engine `", engine_id, "`"))),
        Some(Err(error)) => Err(RuntimePackError::Adapter(error)),
        Some(Ok(())) => Ok(()),
    }
}

/// The place of the runtime that settings are held against: the schema takes the settings, and the
/// runtime that it is of is installed.
pub fn validate_runtime_settings(
    fault: Option<String>,
    runtime_id: &Option<String>,
    installed: &Vec<String>,
) -> (result: Result<usize, RuntimePackError>)
    ensures
        match result {
            Ok(place) => fault is None && *runtime_id is Some && place < installed@.len()
                && installed@[place as int]@ == (*runtime_id)->0@ && forall|i: int|
                0 <= i < place ==> (#[trigger] installed@[i])@ != (*runtime_id)->0@,
            Err(error) => match fault {
                Some(fault) => error@ == PackErrorView::Selection(fault@),
                None => error@ == PackErrorView::Selection("No installed runtime selected"@) && (
                *runtime_id is Some ==> forall|i: int|
                    0 <= i < installed@.len() ==> (#[trigger] installed@[i])@
                        != (*runtime_id)->0@),
            },
        },
{
    match fault {
        Some(fault) => {
            return Err(RuntimePackError::Selection(fault));
        },
        None => {},
    }
    let place = match runtime_id {
        Some(id) => position_in(installed, id.as_str()),
        None => None,
    };
    match place {
        Some(place) => Ok(place),
        None => Err(RuntimePackError::Selection("No installed runtime selected".to_owned())),
    }
}

/// What an engine answers about the settings of a model.
#[derive(Debug)]
pub struct ModelSettings {
    pub unsupported: Option<String>,
    pub definitions: Result<Vec<SettingDefinition>, String>,
}

/// The settings that the engine bound to a model offers for it, whatever the runtime.
pub fn model_settings_schema_for_engine(engine_id: &str, settings: Option<ModelSettings>) -> (result:
    Result<SettingsSchema, RuntimePackError>)
    ensures
        match settings {
            None => result matches Err(error) && error@ == PackErrorView::Selection(
                "bound engine `"@ + engine_id@ + "` is not registered"@,
            ),
            Some(settings) => match (settings.unsupported, settings.definitions) {
                (Some(reason), _) => result matches Err(error) && error@
                    == PackErrorView::Selection(reason@),
                (None, Err(fault)) => result matches Err(error) && error@
                    == PackErrorView::Adapter(fault@),
                (None, Ok(definitions)) => result matches Ok(schema) && schema@ == (SchemaView {
                    engine_id: engine_id@,
                    runtime_id: None,
                    definitions: views(definitions@),
                }),
            },
        },
{
    match settings {
        None => Err(
            RuntimePackError::Selection(
                cat3("bound engine `", engine_id, "` is not registered"),
            ),
        ),
        Some(settings) => match settings.unsupported {
            Some(reason) => Err(RuntimePackError::Selection(reason)),
            None => match settings.definitions {
                Err(fault) => Err(RuntimePackError::Adapter(fault)),
                Ok(definitions) => Ok(
                    SettingsSchema { engine_id: engine_id.to_owned(), runtime_id: None, definitions },
                ),
            },
        },
    }
}

/// The engine of a runtime is that of the first installed one with its identifier.
pub proof fn law_engines_are_found_by_runtime(
    installed: Seq<EngineRuntimeView>,
    runtime_id: Seq<char>,
)
    ensures
        match engine_of(installed, runtime_id) {
            Some(engine) => exists|i: int|
                0 <= i < installed.len() && (#[trigger] installed[i]).runtime_id == runtime_id
                    && installed[i].engine_id == engine,
            None => forall|i: int|
                0 <= i < installed.len() ==> (#[trigger] installed[i]).runtime_id != runtime_id,
        },
        installed.len() > 0 && installed[0].runtime_id == runtime_id ==> engine_of(
            installed,
            runtime_id,
        ) == Some(installed[0].engine_id),
    decreases installed.len(),
{
    if installed.len() > 0 && installed[0].runtime_id != runtime_id {
        let rest = installed.skip(1);
        law_engines_are_found_by_runtime(rest, runtime_id);
        if let Some(engine) = engine_of(rest, runtime_id) {
            let i = choose|i: int|
                0 <= i < rest.len() && (#[trigger] rest[i]).runtime_id == runtime_id
                    && rest[i].engine_id == engine;
            assert(installed[i + 1] == rest[i]);
        } else {
            assert forall|i: int| 0 <= i < installed.len() implies (
            #[trigger] installed[i]).runtime_id != runtime_id by {
                if i > 0 {
                    assert(rest[i - 1] == installed[i]);
                }
            }
        }
    }
}

/// A schema is asked of each engine of a chosen runtime once, and of the runtime that was chosen first.
pub proof fn law_engines_are_asked_once(
    chosen: Seq<Seq<char>>,
    installed: Seq<EngineRuntimeView>,
    at: int,
)
    requires
        0 <= at < chosen.len(),
    ensures
        ({
            let plan = planned(chosen, installed);
            &&& plan.engines.no_duplicates()
            &&& forall|engine: Seq<char>| #[trigger]
                plan.engines.contains(engine) <==> plan.runtimes.contains_key(engine)
            &&& engine_of(installed, chosen[at]) matches Some(engine) ==> ((forall|i: int|
                0 <= i < at ==> engine_of(installed, #[trigger] chosen[i]) != Some(engine))
                ==> plan.runtimes.contains_key(engine) && plan.runtimes[engine] == chosen[at])
        }),
    decreases chosen.len(),
{
    lemma_engines_once(chosen, installed);
    let rest = chosen.drop_last();
    if at < rest.len() {
        law_engines_are_asked_once(rest, installed, at);
        assert(rest[at] == chosen[at]);
        if let Some(engine) = engine_of(installed, chosen[at]) {
            if forall|i: int|
                0 <= i < at ==> engine_of(installed, #[trigger] chosen[i]) != Some(engine) {
                assert forall|i: int| 0 <= i < at implies engine_of(installed, #[trigger] rest[i])
                    != Some(engine) by {
                    assert(rest[i] == chosen[i]);
                }
            }
        }
    } else if let Some(engine) = engine_of(installed, chosen[at]) {
        if forall|i: int|
            0 <= i < at ==> engine_of(installed, #[trigger] chosen[i]) != Some(engine) {
            law_ambiguous_engines(rest, installed, engine);
            assert(!planned(rest, installed).runtimes.contains_key(engine)) by {
                assert forall|i: int| 0 <= i < rest.len() implies engine_of(
                    installed,
                    #[trigger] rest[i],
                ) != Some(engine) by {
                    assert(rest[i] == chosen[i]);
                }
            }
        }
    }
}

proof fn lemma_engines_once(chosen: Seq<Seq<char>>, installed: Seq<EngineRuntimeView>)
    ensures
        ({
            let plan = planned(chosen, installed);
            &&& plan.engines.no_duplicates()
            &&& forall|engine: Seq<char>| #[trigger]
                plan.engines.contains(engine) <==> plan.runtimes.contains_key(engine)
        }),
    decreases chosen.len(),
{
    if chosen.len() > 0 {
        lemma_engines_once(chosen.drop_last(), installed);
        let before = planned(chosen.drop_last(), installed);
        let plan = planned(chosen, installed);
        if plan.engines.len() > before.engines.len() {
            let last = engine_of(installed, chosen.last())->0;
            assert(!before.engines.contains(last));
            assert forall|engine: Seq<char>| #[trigger]
                plan.engines.contains(engine) <==> plan.runtimes.contains_key(engine) by {
                if before.engines.contains(engine) {
                    assert(plan.engines[before.engines.index_of(engine)] == engine);
                }
                if engine == last {
                    assert(plan.engines[plan.engines.len() - 1] == engine);
                }
                if plan.engines.contains(engine) && engine != last {
                    assert(before.engines[plan.engines.index_of(engine)] == engine);
                }
            }
            assert forall|i: int, j: int|
                0 <= i < plan.engines.len() && 0 <= j < plan.engines.len() && i
                    != j implies plan.engines[i] != plan.engines[j] by {
                if i == before.engines.len() {
                    assert(before.engines[j] == plan.engines[j]);
                } else if j == before.engines.len() {
                    assert(before.engines[i] == plan.engines[i]);
                }
            }
        } else {
            assert(plan.engines == before.engines);
            assert(plan.runtimes == before.runtimes);
        }
    }
}

/// What cannot be used now is shown as such, with the reason and without a preview; its name stays. The
/// reason tells whether there is a runtime of the engine.
pub proof fn law_withheld_settings_say_why(
    plan: SchemaPlanView,
    engine: EngineDefinitionsView,
    i: int,
)
    requires
        0 <= i < engine.definitions.len(),
    ensures
        ({
            let schema = withheld_schema(plan, engine);
            let shown = schema.definitions[i];
            &&& schema.engine_id == engine.engine_id
            &&& schema.definitions.len() == engine.definitions.len()
            &&& shown.id == engine.definitions[i].id
            &&& !shown.supported && shown.default_preview is None
            &&& plan.runtimes.contains_key(engine.engine_id) ==> schema.runtime_id == Some(
                plan.runtimes[engine.engine_id],
            ) && shown.unsupported_reason == Some(
                "Selected runtime metadata/probe failed; see runtime diagnostics"@,
            )
            &&& !plan.runtimes.contains_key(engine.engine_id) ==> schema.runtime_id is None
                && shown.unsupported_reason == Some(
                "No runtime selected/installed for this engine"@,
            )
        }),
{
}

/// Whatever is wrong with an engine is said once, with its name before it, in the order of the engines.
pub proof fn law_warnings_name_their_engine(
    engines: Seq<Seq<char>>,
    outcomes: Seq<OutcomeView>,
    at: int,
    error: Seq<char>,
)
    requires
        0 <= at < engines.len(),
        engines.len() == outcomes.len(),
    ensures
        ({
            let before = warnings_of(engines, outcomes, at);
            let after = warnings_of(engines, outcomes, at + 1);
            &&& outcomes[at] is Unregistered ==> after == before.push(
                engines[at] + ": selected runtime uses an unregistered engine"@,
            )
            &&& outcomes[at] == OutcomeView::Failed(error) ==> after == before.push(
                engines[at] + ": "@ + error,
            )
            &&& outcomes[at] matches OutcomeView::Read { complaints, .. } ==> after.len()
                == before.len() + complaints.len() && forall|i: int|
                0 <= i < complaints.len() ==> after[before.len() + i] == engines[at] + ": "@
                    + #[trigger] complaints[i]
            &&& before == after.take(before.len() as int)
        }),
{
    reveal_strlit(": ");
    reveal_strlit("selected runtime uses an unregistered engine");
    reveal_strlit(": selected runtime uses an unregistered engine");
    let before = warnings_of(engines, outcomes, at);
    let after = warnings_of(engines, outcomes, at + 1);
    assert(said_of(engines[at], "selected runtime uses an unregistered engine"@) =~= engines[at]
        + ": selected runtime uses an unregistered engine"@);
    assert(before =~= after.take(before.len() as int));
}

/// A runtime can serve a format where it is one of the candidates and does not refuse it; structured output
/// can be had where the setting of it is supported; an engine embeds only where it does nothing else.
pub proof fn law_what_runtimes_can_serve(
    candidates: Seq<RuntimeCandidateView>,
    format: Seq<char>,
    i: int,
    engine: EngineCapability,
    engine_id: Seq<char>,
    definitions: Seq<DefinitionView>,
)
    requires
        0 <= i < candidates.len(),
    ensures
        candidates[i].model_refusal(format) is None ==> serving_ids(candidates, format).contains(
            candidates[i].status.runtime.manifest.runtime_id,
        ),
        (forall|k: int|
            0 <= k < candidates.len() ==> (#[trigger] candidates[k]).model_refusal(format) is Some)
            ==> serving_ids(candidates, format) == Set::<Seq<char>>::empty(),
        embeds_only(engine) <==> engine.embeddings && !engine.chat_completions && !engine.responses,
        (forall|k: int|
            0 <= k < definitions.len() ==> (#[trigger] definitions[k]).id != engine_id
                + ".structured_output_schema"@) ==> !offers_structured_output(
            engine_id,
            definitions,
        ),
        offers_structured_output(engine_id, definitions) ==> exists|k: int|
            0 <= k < definitions.len() && (#[trigger] definitions[k]).id == engine_id
                + ".structured_output_schema"@ && definitions[k].supported,
{
    lemma_offers(engine_id, definitions);
    if candidates[i].model_refusal(format) is None {
        assert(candidates[i].id() == candidates[i].status.runtime.manifest.runtime_id);
    }
    if forall|k: int|
        0 <= k < candidates.len() ==> (#[trigger] candidates[k]).model_refusal(format) is Some {
        assert(serving_ids(candidates, format) =~= Set::<Seq<char>>::empty());
    }
}

proof fn lemma_offers(engine_id: Seq<char>, definitions: Seq<DefinitionView>)
    ensures
        offers_structured_output(engine_id, definitions) ==> exists|k: int|
            0 <= k < definitions.len() && (#[trigger] definitions[k]).id == engine_id
                + ".structured_output_schema"@ && definitions[k].supported,
    decreases definitions.len(),
{
    if definitions.len() > 0 {
        assert(definitions[0] == definitions[0]);
        let rest = definitions.skip(1);
        lemma_offers(engine_id, rest);
        if definitions[0].id != engine_id + ".structured_output_schema"@ && offers_structured_output(
            engine_id,
            rest,
        ) {
            let k = choose|k: int|
                0 <= k < rest.len() && (#[trigger] rest[k]).id == engine_id
                    + ".structured_output_schema"@ && rest[k].supported;
            assert(definitions[k + 1] == rest[k]);
        }
    }
}

/// Settings are refused exactly where their engine is missing or refuses them, with the reason of it.
pub proof fn law_engines_refuse_settings(missing: Seq<char>, error: Seq<char>)
    ensures
        engine_refusal(None, missing) == Some(PackErrorView::Selection(missing)),
        engine_refusal(Some(Err(error)), missing) == Some(PackErrorView::Adapter(error)),
        engine_refusal(Some(Ok(())), missing) is None,
{
}

} // verus!
