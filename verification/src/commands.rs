//! What the commands change: profiles, defaults and choices, and what they refuse.
use vstd::prelude::*;
use vstd::string::*;

use crate::cli::{Cli, Command};
use crate::doctor::DoctorReport;
use crate::duplicate::{lemma_views_push, optional, views, Duplicate};
use crate::inference::{SettingValue, SettingView};
use crate::lifecycle::ModelRole;
use crate::table::Table;
use crate::text::{cat2, cat3, cat5, cat7, contains_text, same};

verus! {

/// Why a command is refused.
#[derive(Debug)]
pub enum CommandError {
    ModelProfileNotFound(String),
    UnknownSetting(String),
    InvalidGlobalSetting(String),
    WrongEngineScope { setting_id: String, engine_id: String },
    InvalidSetting(String),
    Message(String),
}

#[verifier::ext_equal]
pub enum CommandErrorView {
    ModelProfileNotFound(Seq<char>),
    UnknownSetting(Seq<char>),
    InvalidGlobalSetting(Seq<char>),
    WrongEngineScope { setting_id: Seq<char>, engine_id: Seq<char> },
    InvalidSetting(Seq<char>),
    Message(Seq<char>),
}

impl View for CommandError {
    type V = CommandErrorView;

    open spec fn view(&self) -> CommandErrorView {
        match self {
            CommandError::ModelProfileNotFound(id) => CommandErrorView::ModelProfileNotFound(id@),
            CommandError::UnknownSetting(id) => CommandErrorView::UnknownSetting(id@),
            CommandError::InvalidGlobalSetting(id) => CommandErrorView::InvalidGlobalSetting(id@),
            CommandError::WrongEngineScope { setting_id, engine_id } => {
                CommandErrorView::WrongEngineScope {
                    setting_id: setting_id@,
                    engine_id: engine_id@,
                }
            },
            CommandError::InvalidSetting(text) => CommandErrorView::InvalidSetting(text@),
            CommandError::Message(text) => CommandErrorView::Message(text@),
        }
    }
}

/// A profile as it is kept.
#[derive(Debug)]
pub struct ProfileRecord {
    pub id: String,
    pub display_name: String,
    pub model_id: String,
    pub engine_id: String,
    pub role: ModelRole,
    pub overrides: Table<SettingValue>,
}

#[verifier::ext_equal]
pub struct RecordView {
    pub id: Seq<char>,
    pub display_name: Seq<char>,
    pub model_id: Seq<char>,
    pub engine_id: Seq<char>,
    pub role: ModelRole,
    pub overrides: Map<Seq<char>, SettingView>,
}

impl View for ProfileRecord {
    type V = RecordView;

    open spec fn view(&self) -> RecordView {
        RecordView {
            id: self.id@,
            display_name: self.display_name@,
            model_id: self.model_id@,
            engine_id: self.engine_id@,
            role: self.role,
            overrides: self.overrides@,
        }
    }
}

/// A change of a profile.
#[derive(Debug)]
pub enum ProfileChange {
    SetModel(String),
    /// Binds another engine. Of what is set, only what the new engine takes is kept.
    SetEngine { engine_id: String, applicable: Vec<String> },
    SetRole(ModelRole),
    Assign(Table<SettingValue>),
    Unset(Vec<String>),
}

#[verifier::ext_equal]
pub enum ChangeView {
    SetModel(Seq<char>),
    SetEngine { engine_id: Seq<char>, applicable: Seq<Seq<char>> },
    SetRole(ModelRole),
    Assign(Map<Seq<char>, SettingView>),
    Unset(Seq<Seq<char>>),
}

impl View for ProfileChange {
    type V = ChangeView;

    open spec fn view(&self) -> ChangeView {
        match self {
            ProfileChange::SetModel(model) => ChangeView::SetModel(model@),
            ProfileChange::SetEngine { engine_id, applicable } => ChangeView::SetEngine {
                engine_id: engine_id@,
                applicable: views(applicable@),
            },
            ProfileChange::SetRole(role) => ChangeView::SetRole(*role),
            ProfileChange::Assign(patch) => ChangeView::Assign(patch@),
            ProfileChange::Unset(ids) => ChangeView::Unset(views(ids@)),
        }
    }
}

impl RecordView {
    pub open spec fn changed(self, change: ChangeView) -> RecordView {
        match change {
            ChangeView::SetModel(model_id) => RecordView { model_id, ..self },
            ChangeView::SetEngine { engine_id, applicable } => RecordView {
                engine_id,
                overrides: self.overrides.restrict(applicable.to_set()),
                ..self
            },
            ChangeView::SetRole(role) => RecordView { role, ..self },
            ChangeView::Assign(patch) => RecordView {
                overrides: self.overrides.union_prefer_right(patch),
                ..self
            },
            ChangeView::Unset(ids) => RecordView {
                overrides: self.overrides.remove_keys(ids.to_set()),
                ..self
            },
        }
    }
}

fn keep_only(table: &mut Table<SettingValue>, ids: &Vec<String>)
    ensures
        final(table)@ == old(table)@.restrict(views(ids@).to_set()),
{
    let ghost all = views(ids@);
    let ghost start = table@;
    let mut kept: Table<SettingValue> = Table::new();
    let mut i: usize = 0;
    proof {
        assert(kept@ =~= start.restrict(all.take(0).to_set()));
    }
    while i < ids.len()
        invariant
            i <= ids@.len(),
            all == views(ids@),
            table@ == start,
            kept@ == start.restrict(all.take(i as int).to_set()),
        decreases ids@.len() - i,
    {
        proof {
            crate::table::lemma_take_grows(all, i as int);
            assert(all[i as int] == ids@[i as int]@);
        }
        let ghost before = kept@;
        match table.get(ids[i].as_str()) {
            Some(value) => {
                let _ = kept.insert(ids[i].clone(), value.duplicate());
                proof {
                    assert(kept@ =~= start.restrict(all.take(i + 1).to_set()));
                }
            },
            None => {
                proof {
                    assert(kept@ =~= start.restrict(all.take(i + 1).to_set()));
                }
            },
        }
        i += 1;
    }
    proof {
        assert(all.take(all.len() as int) =~= all);
    }
    *table = kept;
}

fn remove_all(table: &mut Table<SettingValue>, ids: &Vec<String>)
    ensures
        final(table)@ == old(table)@.remove_keys(views(ids@).to_set()),
{
    let ghost all = views(ids@);
    let ghost start = table@;
    let mut i: usize = 0;
    proof {
        assert(table@ =~= start.remove_keys(all.take(0).to_set()));
    }
    while i < ids.len()
        invariant
            i <= ids@.len(),
            all == views(ids@),
            table@ == start.remove_keys(all.take(i as int).to_set()),
        decreases ids@.len() - i,
    {
        proof {
            crate::table::lemma_take_grows(all, i as int);
            assert(all[i as int] == ids@[i as int]@);
        }
        let _ = table.remove(ids[i].as_str());
        proof {
            assert(table@ =~= start.remove_keys(all.take(i + 1).to_set()));
        }
        i += 1;
    }
    proof {
        assert(all.take(all.len() as int) =~= all);
    }
}

impl ProfileRecord {
    pub fn change(&mut self, change: &ProfileChange)
        ensures
            final(self)@ == old(self)@.changed(change@),
    {
        match change {
            ProfileChange::SetModel(model) => {
                self.model_id = model.clone();
            },
            ProfileChange::SetEngine { engine_id, applicable } => {
                self.engine_id = engine_id.clone();
                keep_only(&mut self.overrides, applicable);
            },
            ProfileChange::SetRole(role) => {
                self.role = *role;
            },
            ProfileChange::Assign(patch) => {
                self.overrides.extend_from(patch);
            },
            ProfileChange::Unset(ids) => {
                remove_all(&mut self.overrides, ids);
            },
        }
    }
}

/// Changes a profile, if there is one of that name. All others stay as they are.
pub fn change_profile(
    profiles: &mut Table<ProfileRecord>,
    profile_id: &str,
    change: &ProfileChange,
) -> (result: Result<(), CommandError>)
    ensures
        match result {
            Ok(_) => old(profiles)@.dom().contains(profile_id@) && final(profiles)@ == old(
                profiles,
            )@.insert(profile_id@, old(profiles)@[profile_id@].changed(change@)),
            Err(error) => !old(profiles)@.dom().contains(profile_id@) && final(profiles)@ == old(
                profiles,
            )@ && error@ == CommandErrorView::ModelProfileNotFound(profile_id@),
        },
{
    let ghost start = profiles@;
    match profiles.remove(profile_id) {
        None => {
            proof {
                assert(profiles@ =~= start);
            }
            Err(CommandError::ModelProfileNotFound(profile_id.to_owned()))
        },
        Some(record) => {
            let mut record = record;
            record.change(change);
            let ghost view = record@;
            let _ = profiles.insert(profile_id.to_owned(), record);
            proof {
                assert(profiles@ =~= start.insert(profile_id@, view));
            }
            Ok(())
        },
    }
}

/// Unsetting what was set leaves the other settings of a profile as they were, and all that is not a
/// setting too.
pub proof fn law_unsetting_undoes_setting(
    profile: RecordView,
    patch: Map<Seq<char>, SettingView>,
    ids: Seq<Seq<char>>,
)
    requires
        ids.to_set() == patch.dom(),
    ensures
        profile.changed(ChangeView::Assign(patch)).changed(ChangeView::Unset(ids))
            == profile.changed(ChangeView::Unset(ids)),
        profile.overrides.dom().disjoint(patch.dom()) ==> profile.changed(
            ChangeView::Assign(patch),
        ).changed(ChangeView::Unset(ids)) == profile,
{
    let once = profile.changed(ChangeView::Unset(ids));
    let twice = profile.changed(ChangeView::Assign(patch)).changed(ChangeView::Unset(ids));
    assert(twice.overrides =~= once.overrides);
    if profile.overrides.dom().disjoint(patch.dom()) {
        assert(twice.overrides =~= profile.overrides);
    }
}

/// Binding another engine keeps of the settings only those that the engine takes, with the values that
/// they had.
pub proof fn law_engines_keep_what_they_take(
    profile: RecordView,
    engine_id: Seq<char>,
    applicable: Seq<Seq<char>>,
)
    ensures
        ({
            let changed = profile.changed(ChangeView::SetEngine { engine_id, applicable });
            &&& changed.engine_id == engine_id
            &&& changed.model_id == profile.model_id
            &&& changed.id == profile.id
            &&& changed.overrides.dom() == profile.overrides.dom().intersect(applicable.to_set())
            &&& forall|id: Seq<char>|
                changed.overrides.dom().contains(id) ==> changed.overrides[id]
                    == profile.overrides[id]
        }),
{
    let changed = profile.changed(ChangeView::SetEngine { engine_id, applicable });
    assert(changed.overrides.dom() =~= profile.overrides.dom().intersect(applicable.to_set()));
}

/// Where a default is set.
#[derive(Debug)]
pub enum DefaultsScope {
    Global,
    Engine(String),
}

#[verifier::ext_equal]
pub enum ScopeView {
    Global,
    Engine(Seq<char>),
}

impl View for DefaultsScope {
    type V = ScopeView;

    open spec fn view(&self) -> ScopeView {
        match self {
            DefaultsScope::Global => ScopeView::Global,
            DefaultsScope::Engine(engine) => ScopeView::Engine(engine@),
        }
    }
}

impl DefaultsScope {
    pub fn label(&self) -> (result: String)
        ensures
            result@ == match self@ {
                ScopeView::Global => "global"@,
                ScopeView::Engine(engine) => "engine:"@ + engine,
            },
    {
        match self {
            DefaultsScope::Global => "global".to_owned(),
            DefaultsScope::Engine(engine) => cat2("engine:", engine.as_str()),
        }
    }
}

/// The scope that was asked for: the global one, else that of an engine.
pub fn defaults_scope(global: bool, engine: Option<String>) -> (result: Option<DefaultsScope>)
    ensures
        optional(result) == if global {
            Some(ScopeView::Global)
        } else {
            match engine {
                Some(engine) => Some(ScopeView::Engine(engine@)),
                None => None,
            }
        },
{
    if global {
        Some(DefaultsScope::Global)
    } else {
        match engine {
            Some(engine) => Some(DefaultsScope::Engine(engine)),
            None => None,
        }
    }
}

/// A setting that is to be set or unset: whether it belongs to an engine, and whether it belongs to the
/// engine of the scope.
#[derive(Debug)]
pub struct ScopedSetting {
    pub id: String,
    pub namespaced: bool,
    pub applies: bool,
}

/// The first setting that does not fit an engine.
pub open spec fn first_foreign(settings: Seq<ScopedSetting>) -> Option<Seq<char>>
    decreases settings.len(),
{
    if settings.len() == 0 {
        None
    } else {
        match first_foreign(settings.drop_last()) {
            Some(id) => Some(id),
            None => if settings.last().applies {
                None
            } else {
                Some(settings.last().id@)
            },
        }
    }
}

/// The first setting that belongs to an engine.
pub open spec fn first_namespaced(settings: Seq<ScopedSetting>) -> Option<Seq<char>>
    decreases settings.len(),
{
    if settings.len() == 0 {
        None
    } else {
        match first_namespaced(settings.drop_last()) {
            Some(id) => Some(id),
            None => if settings.last().namespaced {
                Some(settings.last().id@)
            } else {
                None
            },
        }
    }
}

fn find_foreign(settings: &Vec<ScopedSetting>) -> (result: Option<String>)
    ensures
        optional(result) == first_foreign(settings@),
{
    let mut found: Option<String> = None;
    let mut i: usize = 0;
    while i < settings.len()
        invariant
            i <= settings@.len(),
            optional(found) == first_foreign(settings@.take(i as int)),
        decreases settings@.len() - i,
    {
        proof {
            assert(settings@.take(i + 1).drop_last() =~= settings@.take(i as int));
            assert(settings@.take(i + 1).last() == settings@[i as int]);
        }
        if found.is_none() && !settings[i].applies {
            found = Some(settings[i].id.clone());
        }
        i += 1;
    }
    proof {
        assert(settings@.take(settings@.len() as int) =~= settings@);
    }
    found
}

fn find_namespaced(settings: &Vec<ScopedSetting>) -> (result: Option<String>)
    ensures
        optional(result) == first_namespaced(settings@),
{
    let mut found: Option<String> = None;
    let mut i: usize = 0;
    while i < settings.len()
        invariant
            i <= settings@.len(),
            optional(found) == first_namespaced(settings@.take(i as int)),
        decreases settings@.len() - i,
    {
        proof {
            assert(settings@.take(i + 1).drop_last() =~= settings@.take(i as int));
            assert(settings@.take(i + 1).last() == settings@[i as int]);
        }
        if found.is_none() && settings[i].namespaced {
            found = Some(settings[i].id.clone());
        }
        i += 1;
    }
    proof {
        assert(settings@.take(settings@.len() as int) =~= settings@);
    }
    found
}

/// Whether settings may be set for an engine: all must be its own or common ones.
pub fn validate_patch_for_engine(settings: &Vec<ScopedSetting>, engine: &str) -> (result: Result<
    (),
    CommandError,
>)
    ensures
        match (result, first_foreign(settings@)) {
            (Ok(_), None) => true,
            (Err(error), Some(id)) => error@ == (CommandErrorView::WrongEngineScope {
                setting_id: id,
                engine_id: engine@,
            }),
            _ => false,
        },
{
    match find_foreign(settings) {
        Some(id) => Err(
            CommandError::WrongEngineScope { setting_id: id, engine_id: engine.to_owned() },
        ),
        None => Ok(()),
    }
}

/// Why settings may not be set in a scope.
pub open spec fn scope_refusal(
    scope: ScopeView,
    registered: bool,
    settings: Seq<ScopedSetting>,
) -> Option<CommandErrorView> {
    match scope {
        ScopeView::Global => match first_namespaced(settings) {
            Some(id) => Some(CommandErrorView::InvalidGlobalSetting(id)),
            None => None,
        },
        ScopeView::Engine(engine) => if !registered {
            Some(CommandErrorView::Message("unknown engine `"@ + engine + "`"@))
        } else {
            match first_foreign(settings) {
                Some(id) => Some(
                    CommandErrorView::WrongEngineScope { setting_id: id, engine_id: engine },
                ),
                None => None,
            }
        },
    }
}

pub fn validate_default_scope(
    scope: &DefaultsScope,
    registered: bool,
    settings: &Vec<ScopedSetting>,
) -> (result: Result<(), CommandError>)
    ensures
        match (result, scope_refusal(scope@, registered, settings@)) {
            (Ok(_), None) => true,
            (Err(error), Some(expected)) => error@ == expected,
            _ => false,
        },
{
    match scope {
        DefaultsScope::Global => match find_namespaced(settings) {
            Some(id) => Err(CommandError::InvalidGlobalSetting(id)),
            None => Ok(()),
        },
        DefaultsScope::Engine(engine) => {
            if !registered {
                return Err(
                    CommandError::Message(cat3("unknown engine `", engine.as_str(), "`")),
                );
            }
            validate_patch_for_engine(settings, engine.as_str())
        },
    }
}

/// The defaults of all engines and of each.
#[derive(Debug)]
pub struct SettingsState {
    pub global_defaults: Table<SettingValue>,
    pub engine_defaults: Table<Table<SettingValue>>,
}

#[verifier::ext_equal]
pub struct SettingsStateView {
    pub global_defaults: Map<Seq<char>, SettingView>,
    pub engine_defaults: Map<Seq<char>, Map<Seq<char>, SettingView>>,
}

impl View for SettingsState {
    type V = SettingsStateView;

    open spec fn view(&self) -> SettingsStateView {
        SettingsStateView {
            global_defaults: self.global_defaults@,
            engine_defaults: self.engine_defaults@,
        }
    }
}

impl SettingsStateView {
    /// What is set in a scope.
    pub open spec fn defaults(self, scope: ScopeView) -> Map<Seq<char>, SettingView> {
        match scope {
            ScopeView::Global => self.global_defaults,
            ScopeView::Engine(engine) => if self.engine_defaults.dom().contains(engine) {
                self.engine_defaults[engine]
            } else {
                Map::empty()
            },
        }
    }

    /// The defaults with others in one scope.
    pub open spec fn with(self, scope: ScopeView, defaults: Map<Seq<char>, SettingView>) -> SettingsStateView {
        match scope {
            ScopeView::Global => SettingsStateView { global_defaults: defaults, ..self },
            ScopeView::Engine(engine) => SettingsStateView {
                engine_defaults: self.engine_defaults.insert(engine, defaults),
                ..self
            },
        }
    }

    pub open spec fn assigned(self, scope: ScopeView, patch: Map<Seq<char>, SettingView>) -> SettingsStateView {
        self.with(scope, self.defaults(scope).union_prefer_right(patch))
    }

    /// The defaults without some. An engine for which nothing is left has no entry.
    pub open spec fn unset(self, scope: ScopeView, ids: Seq<Seq<char>>) -> SettingsStateView {
        let left = self.defaults(scope).remove_keys(ids.to_set());
        match scope {
            ScopeView::Global => self.with(scope, left),
            ScopeView::Engine(engine) => if left.dom().len() == 0 {
                SettingsStateView {
                    engine_defaults: self.engine_defaults.remove(engine),
                    ..self
                }
            } else {
                self.with(scope, left)
            },
        }
    }
}

impl SettingsState {
    pub fn assign(&mut self, scope: &DefaultsScope, patch: &Table<SettingValue>)
        ensures
            final(self)@ == old(self)@.assigned(scope@, patch@),
    {
        match scope {
            DefaultsScope::Global => {
                self.global_defaults.extend_from(patch);
            },
            DefaultsScope::Engine(engine) => {
                let ghost start = self.engine_defaults@;
                let mut defaults = match self.engine_defaults.remove(engine.as_str()) {
                    Some(defaults) => defaults,
                    None => Table::new(),
                };
                defaults.extend_from(patch);
                let ghost view = defaults@;
                let _ = self.engine_defaults.insert(engine.clone(), defaults);
                proof {
                    assert(self.engine_defaults@ =~= start.insert(engine@, view));
                }
            },
        }
    }

    pub fn unset(&mut self, scope: &DefaultsScope, ids: &Vec<String>)
        ensures
            final(self)@ == old(self)@.unset(scope@, views(ids@)),
    {
        match scope {
            DefaultsScope::Global => {
                remove_all(&mut self.global_defaults, ids);
            },
            DefaultsScope::Engine(engine) => {
                let ghost start = self.engine_defaults@;
                let mut defaults = match self.engine_defaults.remove(engine.as_str()) {
                    Some(defaults) => defaults,
                    None => Table::new(),
                };
                remove_all(&mut defaults, ids);
                let ghost view = defaults@;
                if defaults.len() > 0 {
                    let _ = self.engine_defaults.insert(engine.clone(), defaults);
                    proof {
                        assert(self.engine_defaults@ =~= start.insert(engine@, view));
                    }
                } else {
                    proof {
                        assert(self.engine_defaults@ =~= start.remove(engine@));
                    }
                }
            },
        }
    }
}

/// What is set in one scope is set in no other.
pub proof fn law_other_scopes_stay(
    state: SettingsStateView,
    scope: ScopeView,
    other: ScopeView,
    patch: Map<Seq<char>, SettingView>,
    ids: Seq<Seq<char>>,
)
    requires
        scope != other,
    ensures
        state.assigned(scope, patch).defaults(other) == state.defaults(other),
        state.unset(scope, ids).defaults(other) == state.defaults(other),
{
    match (scope, other) {
        (ScopeView::Engine(a), ScopeView::Engine(b)) => {
            assert(a != b);
        },
        _ => {},
    }
}

/// What is set is what is then there, and what is unset is not.
pub proof fn law_defaults_are_read_back(
    state: SettingsStateView,
    scope: ScopeView,
    patch: Map<Seq<char>, SettingView>,
    ids: Seq<Seq<char>>,
)
    requires
        state.defaults(scope).dom().finite(),
    ensures
        forall|id: Seq<char>| #[trigger]
            patch.dom().contains(id) ==> state.assigned(scope, patch).defaults(
                scope,
            ).dom().contains(id) && state.assigned(scope, patch).defaults(scope)[id] == patch[id],
        forall|id: Seq<char>| #[trigger]
            ids.contains(id) ==> !state.unset(scope, ids).defaults(scope).dom().contains(id),
{
    let left = state.defaults(scope).remove_keys(ids.to_set());
    assert forall|id: Seq<char>| #[trigger] ids.contains(id) implies !state.unset(
        scope,
        ids,
    ).defaults(scope).dom().contains(id) by {
        assert(!left.dom().contains(id));
    }
}

/// The settings that hold a file and the digest of it, in pairs.
pub open spec fn bound_settings() -> Seq<(Seq<char>, Seq<char>)> {
    seq![
        ("q27.template_path"@, "q27.template_sha256"@),
        ("llama.cpp.chat_template_file"@, "llama.cpp.chat_template_sha256"@),
        ("llama.cpp.speculative_draft_model"@, "llama.cpp.speculative_draft_sha256"@),
    ]
}

/// The digest of a file that is unset, if the file is among what is unset.
pub open spec fn bound_digest(ids: Seq<Seq<char>>, pair: (Seq<char>, Seq<char>)) -> Seq<Seq<char>> {
    if ids.contains(pair.0) {
        seq![pair.1]
    } else {
        Seq::empty()
    }
}

fn add_bound(ids: &mut Vec<String>, path: &str, digest: &str)
    ensures
        views(final(ids)@) == views(old(ids)@) + bound_digest(views(old(ids)@), (path@, digest@)),
{
    let ghost before = views(ids@);
    if contains_text(ids, path) {
        let id = digest.to_owned();
        proof {
            lemma_views_push(ids@, id);
            assert(before.push(id@) =~= before + seq![id@]);
        }
        ids.push(id);
    } else {
        proof {
            assert(before + Seq::<Seq<char>>::empty() =~= before);
        }
    }
}

/// What is to be unset, with the digests of the files among it.
pub open spec fn with_bound_digests(ids: Seq<Seq<char>>) -> Seq<Seq<char>> {
    let first = ids + bound_digest(ids, bound_settings()[0]);
    let second = first + bound_digest(first, bound_settings()[1]);
    second + bound_digest(second, bound_settings()[2])
}

pub fn add_bound_identity_ids(ids: &mut Vec<String>)
    ensures
        views(final(ids)@) == with_bound_digests(views(old(ids)@)),
{
    add_bound(ids, "q27.template_path", "q27.template_sha256");
    add_bound(ids, "llama.cpp.chat_template_file", "llama.cpp.chat_template_sha256");
    add_bound(ids, "llama.cpp.speculative_draft_model", "llama.cpp.speculative_draft_sha256");
}

/// Whoever unsets a file unsets its digest too, and nothing that was asked for is left out.
pub proof fn law_digests_go_with_their_files(ids: Seq<Seq<char>>)
    ensures
        forall|i: int|
            0 <= i < bound_settings().len() && ids.contains((#[trigger] bound_settings()[i]).0)
                ==> with_bound_digests(ids).contains(bound_settings()[i].1),
        forall|id: Seq<char>| ids.contains(id) ==> with_bound_digests(ids).contains(id),
{
    let pairs = bound_settings();
    let first = ids + bound_digest(ids, pairs[0]);
    let second = first + bound_digest(first, pairs[1]);
    let all = with_bound_digests(ids);
    assert forall|id: Seq<char>| ids.contains(id) implies first.contains(id) && second.contains(
        id,
    ) && all.contains(id) by {
        let k = ids.index_of(id);
        assert(first[k] == id && second[k] == id && all[k] == id);
    }
    if ids.contains(pairs[0].0) {
        assert(first[ids.len() as int] == pairs[0].1);
        assert(second[ids.len() as int] == pairs[0].1);
        assert(all[ids.len() as int] == pairs[0].1);
    }
    if ids.contains(pairs[1].0) {
        assert(second[first.len() as int] == pairs[1].1);
        assert(all[first.len() as int] == pairs[1].1);
    }
    if ids.contains(pairs[2].0) {
        assert(all[second.len() as int] == pairs[2].1);
    }
    assert(pairs.len() == 3);
}

/// The settings that were named, or the first reason that one of them is not known.
pub open spec fn known_ids(parsed: Seq<Result<String, String>>, known: Seq<Seq<char>>, at: int) -> Result<
    Seq<Seq<char>>,
    CommandErrorView,
>
    decreases parsed.len() - at,
{
    if at >= parsed.len() {
        Ok(Seq::empty())
    } else {
        match parsed[at] {
            Err(error) => Err(CommandErrorView::InvalidSetting(error@)),
            Ok(id) => if !known.contains(id@) {
                Err(CommandErrorView::UnknownSetting(id@))
            } else {
                match known_ids(parsed, known, at + 1) {
                    Err(error) => Err(error),
                    Ok(rest) => Ok(seq![id@] + rest),
                }
            },
        }
    }
}

/// The settings that were named. What is not a name of a setting, or of none that is known, is an
/// error.
pub fn parse_known_setting_ids(parsed: &Vec<Result<String, String>>, known: &Vec<String>) -> (result:
    Result<Vec<String>, CommandError>)
    ensures
        match (result, known_ids(parsed@, views(known@), 0)) {
            (Ok(ids), Ok(expected)) => views(ids@) == expected,
            (Err(error), Err(expected)) => error@ == expected,
            _ => false,
        },
{
    let ghost all = views(known@);
    let mut ids: Vec<String> = Vec::new();
    let mut i: usize = 0;
    proof {
        let rest = known_ids(parsed@, all, 0);
        assert(views(ids@) =~= Seq::empty());
        assert(rest is Ok ==> Seq::<Seq<char>>::empty() + rest->Ok_0 =~= rest->Ok_0);
    }
    while i < parsed.len()
        invariant
            i <= parsed@.len(),
            all == views(known@),
            known_ids(parsed@, all, 0) == match known_ids(parsed@, all, i as int) {
                Ok(rest) => Ok(views(ids@) + rest),
                Err(error) => Err::<Seq<Seq<char>>, CommandErrorView>(error),
            },
        decreases parsed@.len() - i,
    {
        match &parsed[i] {
            Err(error) => {
                return Err(CommandError::InvalidSetting(error.clone()));
            },
            Ok(id) => {
                if !contains_text(known, id.as_str()) {
                    return Err(CommandError::UnknownSetting(id.clone()));
                }
                let id = id.clone();
                let ghost before = views(ids@);
                let ghost view = id@;
                proof {
                    lemma_views_push(ids@, id);
                }
                ids.push(id);
                proof {
                    let rest = known_ids(parsed@, all, i + 1);
                    assert(rest is Ok ==> before + (seq![view] + rest->Ok_0) =~= views(ids@)
                        + rest->Ok_0);
                }
            },
        }
        i += 1;
    }
    proof {
        assert(views(ids@) + Seq::<Seq<char>>::empty() =~= views(ids@));
    }
    Ok(ids)
}

/// A profile that is loaded cannot be deleted.
pub fn check_deletable(profile_id: &str, active: &Option<String>) -> (result: Result<
    (),
    CommandError,
>)
    ensures
        match result {
            Ok(_) => optional(*active) != Some(profile_id@),
            Err(error) => optional(*active) == Some(profile_id@) && error@
                == CommandErrorView::Message(
                "cannot delete active Model Profile `"@ + profile_id@ + "`; unload it first"@,
            ),
        },
{
    match active {
        Some(active) => {
            if same(active.as_str(), profile_id) {
                return Err(
                    CommandError::Message(
                        cat3(
                            "cannot delete active Model Profile `",
                            profile_id,
                            "`; unload it first",
                        ),
                    ),
                );
            }
        },
        None => {},
    }
    Ok(())
}

/// A model must be known.
pub fn require_model(model_id: &str, known: bool) -> (result: Result<(), CommandError>)
    ensures
        match result {
            Ok(_) => known,
            Err(error) => !known && error@ == CommandErrorView::Message(
                "model `"@ + model_id@
                    + "` does not exist in the discovered artifact registry"@,
            ),
        },
{
    if known {
        Ok(())
    } else {
        Err(
            CommandError::Message(
                cat3(
                    "model `",
                    model_id,
                    "` does not exist in the discovered artifact registry",
                ),
            ),
        )
    }
}

/// The model that a profile is bound to must be known.
pub fn require_bound_model(profile_id: &str, model_id: &str, known: bool) -> (result: Result<
    (),
    CommandError,
>)
    ensures
        match result {
            Ok(_) => known,
            Err(error) => !known && error@ == CommandErrorView::Message(
                "Model Profile `"@ + profile_id@
                    + "` is unavailable because bound model `"@ + model_id@ + "` is missing"@,
            ),
        },
{
    if known {
        Ok(())
    } else {
        Err(
            CommandError::Message(
                cat5(
                    "Model Profile `",
                    profile_id,
                    "` is unavailable because bound model `",
                    model_id,
                    "` is missing",
                ),
            ),
        )
    }
}

/// Why an engine cannot serve a model. `supported` is empty where the engine is not registered.
pub open spec fn engine_refusal(
    engine_id: Seq<char>,
    supported: Option<bool>,
    model_id: Seq<char>,
    format: Seq<char>,
) -> Option<CommandErrorView> {
    match supported {
        None => Some(CommandErrorView::Message("unknown engine `"@ + engine_id + "`"@)),
        Some(false) => Some(
            CommandErrorView::Message(
                "engine `"@ + engine_id + "` is incompatible with model `"@ + model_id + "` ("@
                    + format + ")"@,
            ),
        ),
        Some(true) => None,
    }
}

pub fn require_compatible_engine(
    engine_id: &str,
    supported: Option<bool>,
    model_id: &str,
    format: &str,
) -> (result: Result<(), CommandError>)
    ensures
        match (result, engine_refusal(engine_id@, supported, model_id@, format@)) {
            (Ok(_), None) => true,
            (Err(error), Some(expected)) => error@ == expected,
            _ => false,
        },
{
    match supported {
        None => Err(CommandError::Message(cat3("unknown engine `", engine_id, "`"))),
        Some(false) => Err(
            CommandError::Message(
                cat7(
                    "engine `",
                    engine_id,
                    "` is incompatible with model `",
                    model_id,
                    "` (",
                    format,
                    ")",
                ),
            ),
        ),
        Some(true) => Ok(()),
    }
}

/// What is known of the model that a profile is bound to or is to be bound to.
#[derive(Debug)]
pub struct BoundModel {
    pub id: String,
    pub format: String,
    pub known: bool,
}

/// Why a profile is not bound to another model: the model is not known, there is no such profile, its
/// engine cannot serve the model, or its settings do not fit.
pub open spec fn rebind_refusal(
    profiles: Map<Seq<char>, RecordView>,
    profile_id: Seq<char>,
    model: BoundModel,
    supported: Option<bool>,
    fault: Option<Seq<char>>,
) -> Option<CommandErrorView> {
    if !model.known {
        Some(
            CommandErrorView::Message(
                "model `"@ + model.id@
                    + "` does not exist in the discovered artifact registry"@,
            ),
        )
    } else if !profiles.dom().contains(profile_id) {
        Some(CommandErrorView::ModelProfileNotFound(profile_id))
    } else {
        match engine_refusal(
            profiles[profile_id].engine_id,
            supported,
            model.id@,
            model.format@,
        ) {
            Some(error) => Some(error),
            None => match fault {
                Some(fault) => Some(CommandErrorView::InvalidSetting(fault)),
                None => None,
            },
        }
    }
}

/// Binds a profile to another model. What the engine of the profile says of the model, and what is
/// wrong with the settings of the profile for it, is given.
pub fn set_model(
    profiles: &mut Table<ProfileRecord>,
    profile_id: &str,
    model: &BoundModel,
    supported: Option<bool>,
    fault: &Option<String>,
) -> (result: Result<(), CommandError>)
    ensures
        match (
            result,
            rebind_refusal(
                old(profiles)@,
                profile_id@,
                *model,
                supported,
                optional(*fault),
            ),
        ) {
            (Ok(_), None) => final(profiles)@ == old(profiles)@.insert(
                profile_id@,
                old(profiles)@[profile_id@].changed(ChangeView::SetModel(model.id@)),
            ),
            (Err(error), Some(expected)) => error@ == expected && final(profiles)@ == old(
                profiles,
            )@,
            _ => false,
        },
{
    match require_model(model.id.as_str(), model.known) {
        Ok(_) => {},
        Err(error) => {
            return Err(error);
        },
    }
    let checked = match profiles.get(profile_id) {
        None => Err(CommandError::ModelProfileNotFound(profile_id.to_owned())),
        Some(profile) => require_compatible_engine(
            profile.engine_id.as_str(),
            supported,
            model.id.as_str(),
            model.format.as_str(),
        ),
    };
    match checked {
        Ok(_) => {},
        Err(error) => {
            return Err(error);
        },
    }
    match fault {
        Some(fault) => {
            return Err(CommandError::InvalidSetting(fault.clone()));
        },
        None => {},
    }
    change_profile(profiles, profile_id, &ProfileChange::SetModel(model.id.clone()))
}

/// Why a profile is not bound to another engine: there is no such profile, its model is not known, or
/// the engine cannot serve the model.
pub open spec fn reengine_refusal(
    profiles: Map<Seq<char>, RecordView>,
    profile_id: Seq<char>,
    model: BoundModel,
    engine_id: Seq<char>,
    supported: Option<bool>,
) -> Option<CommandErrorView> {
    if !profiles.dom().contains(profile_id) {
        Some(CommandErrorView::ModelProfileNotFound(profile_id))
    } else if !model.known {
        Some(
            CommandErrorView::Message(
                "model `"@ + model.id@
                    + "` does not exist in the discovered artifact registry"@,
            ),
        )
    } else {
        engine_refusal(engine_id, supported, model.id@, model.format@)
    }
}

/// Binds a profile to another engine, and drops the settings that the engine does not take.
pub fn set_engine(
    profiles: &mut Table<ProfileRecord>,
    profile_id: &str,
    model: &BoundModel,
    engine_id: &str,
    supported: Option<bool>,
    applicable: Vec<String>,
) -> (result: Result<(), CommandError>)
    ensures
        match (
            result,
            reengine_refusal(old(profiles)@, profile_id@, *model, engine_id@, supported),
        ) {
            (Ok(_), None) => final(profiles)@ == old(profiles)@.insert(
                profile_id@,
                old(profiles)@[profile_id@].changed(
                    ChangeView::SetEngine {
                        engine_id: engine_id@,
                        applicable: views(applicable@),
                    },
                ),
            ),
            (Err(error), Some(expected)) => error@ == expected && final(profiles)@ == old(
                profiles,
            )@,
            _ => false,
        },
{
    if !profiles.contains(profile_id) {
        return Err(CommandError::ModelProfileNotFound(profile_id.to_owned()));
    }
    match require_model(model.id.as_str(), model.known) {
        Ok(_) => {},
        Err(error) => {
            return Err(error);
        },
    }
    match require_compatible_engine(
        engine_id,
        supported,
        model.id.as_str(),
        model.format.as_str(),
    ) {
        Ok(_) => {},
        Err(error) => {
            return Err(error);
        },
    }
    let change = ProfileChange::SetEngine { engine_id: engine_id.to_owned(), applicable };
    change_profile(profiles, profile_id, &change)
}

/// Why settings are not set in a profile: there is no such profile, one of them is of another engine,
/// its model is not known, or all of them together do not fit.
pub open spec fn assign_refusal(
    profiles: Map<Seq<char>, RecordView>,
    profile_id: Seq<char>,
    settings: Seq<ScopedSetting>,
    model: BoundModel,
    fault: Option<Seq<char>>,
) -> Option<CommandErrorView> {
    if !profiles.dom().contains(profile_id) {
        Some(CommandErrorView::ModelProfileNotFound(profile_id))
    } else {
        match first_foreign(settings) {
            Some(id) => Some(
                CommandErrorView::WrongEngineScope {
                    setting_id: id,
                    engine_id: profiles[profile_id].engine_id,
                },
            ),
            None => if !model.known {
                Some(
                    CommandErrorView::Message(
                        "model `"@ + model.id@
                            + "` does not exist in the discovered artifact registry"@,
                    ),
                )
            } else {
                match fault {
                    Some(fault) => Some(CommandErrorView::InvalidSetting(fault)),
                    None => None,
                }
            },
        }
    }
}

/// Sets settings of a profile. Which of them its engine takes, and what is wrong with all of them
/// together, is given.
pub fn assign_settings(
    profiles: &mut Table<ProfileRecord>,
    profile_id: &str,
    patch: Table<SettingValue>,
    settings: &Vec<ScopedSetting>,
    model: &BoundModel,
    fault: &Option<String>,
) -> (result: Result<(), CommandError>)
    ensures
        match (
            result,
            assign_refusal(
                old(profiles)@,
                profile_id@,
                settings@,
                *model,
                optional(*fault),
            ),
        ) {
            (Ok(_), None) => final(profiles)@ == old(profiles)@.insert(
                profile_id@,
                old(profiles)@[profile_id@].changed(ChangeView::Assign(patch@)),
            ),
            (Err(error), Some(expected)) => error@ == expected && final(profiles)@ == old(
                profiles,
            )@,
            _ => false,
        },
{
    let checked = match profiles.get(profile_id) {
        None => Err(CommandError::ModelProfileNotFound(profile_id.to_owned())),
        Some(profile) => validate_patch_for_engine(settings, profile.engine_id.as_str()),
    };
    match checked {
        Ok(_) => {},
        Err(error) => {
            return Err(error);
        },
    }
    match require_model(model.id.as_str(), model.known) {
        Ok(_) => {},
        Err(error) => {
            return Err(error);
        },
    }
    match fault {
        Some(fault) => {
            return Err(CommandError::InvalidSetting(fault.clone()));
        },
        None => {},
    }
    change_profile(profiles, profile_id, &ProfileChange::Assign(patch))
}

/// What is warned of where the server is reachable without authentication.
pub fn report_insecure_remote(bind: &str, insecure_remote: bool) -> (result: Option<String>)
    ensures
        optional(result) == if insecure_remote {
            Some(
                "WARNING: INSECURE REMOTE SERVING on "@ + bind@
                    + ": public authentication is disabled and plain HTTP is not encrypted."@,
            )
        } else {
            None
        },
{
    if insecure_remote {
        Some(
            cat3(
                "WARNING: INSECURE REMOTE SERVING on ",
                bind,
                ": public authentication is disabled and plain HTTP is not encrypted.",
            ),
        )
    } else {
        None
    }
}

/// The command to run: the terminal interface unless another one is named.
pub fn command_of(cli: Cli) -> (result: Command)
    ensures
        result == match cli.command {
            Some(command) => command,
            None => Command::Tui,
        },
{
    match cli.command {
        Some(command) => command,
        None => Command::Tui,
    }
}

/// Whether the program succeeds after a report: it does not where a check fails.
pub fn doctor_succeeds(report: &DoctorReport) -> (result: bool)
    ensures
        result == (report@.summary.failures == 0),
{
    !report.has_failures()
}

/// Where a named runtime is found: among the installed ones, else among the published ones.
#[derive(Debug)]
pub enum RuntimePlace {
    Installed(usize),
    Available(usize),
}

/// The first place of a text in a list.
pub open spec fn place_of(list: Seq<Seq<char>>, text: Seq<char>) -> Option<int>
    decreases list.len(),
{
    if list.len() == 0 {
        None
    } else {
        match place_of(list.drop_last(), text) {
            Some(at) => Some(at),
            None => if list.last() == text {
                Some(list.len() - 1)
            } else {
                None
            },
        }
    }
}

fn find_place(list: &Vec<String>, text: &str) -> (result: Option<usize>)
    ensures
        match (result, place_of(views(list@), text@)) {
            (Some(i), Some(at)) => i == at,
            (None, None) => true,
            _ => false,
        },
{
    let ghost all = views(list@);
    let mut found: Option<usize> = None;
    let mut i: usize = 0;
    while i < list.len()
        invariant
            i <= list@.len(),
            all == views(list@),
            match (found, place_of(all.take(i as int), text@)) {
                (Some(b), Some(at)) => b == at,
                (None, None) => true,
                _ => false,
            },
        decreases list@.len() - i,
    {
        proof {
            assert(all.take(i + 1).drop_last() =~= all.take(i as int));
            assert(all.take(i + 1).last() == list@[i as int]@);
        }
        if found.is_none() && same(list[i].as_str(), text) {
            found = Some(i);
        }
        i += 1;
    }
    proof {
        assert(all.take(all.len() as int) =~= all);
    }
    found
}

/// Finds a named runtime. The published ones are looked at only where none is installed under the name.
pub fn locate_runtime(runtime_id: &str, installed: &Vec<String>, available: &Vec<String>) -> (result:
    Result<RuntimePlace, CommandError>)
    ensures
        match (
            result,
            place_of(views(installed@), runtime_id@),
            place_of(views(available@), runtime_id@),
        ) {
            (Ok(RuntimePlace::Installed(i)), Some(at), _) => i == at,
            (Ok(RuntimePlace::Available(i)), None, Some(at)) => i == at,
            (Err(error), None, None) => error@ == CommandErrorView::Message(
                "runtime `"@ + runtime_id@ + "` was not found"@,
            ),
            _ => false,
        },
{
    match find_place(installed, runtime_id) {
        Some(i) => Ok(RuntimePlace::Installed(i)),
        None => match find_place(available, runtime_id) {
            Some(i) => Ok(RuntimePlace::Available(i)),
            None => Err(
                CommandError::Message(cat3("runtime `", runtime_id, "` was not found")),
            ),
        },
    }
}

/// What the terminal interface does at its start: attach to a server that runs, start one, or give up.
#[derive(Debug, Clone, Copy, PartialEq, Eq, Structural)]
pub enum TuiStart {
    Attach,
    Start,
}

/// A server that runs already is attached to.
pub fn plan_tui(existing: bool) -> (result: TuiStart)
    ensures
        result == if existing {
            TuiStart::Attach
        } else {
            TuiStart::Start
        },
{
    if existing {
        TuiStart::Attach
    } else {
        TuiStart::Start
    }
}

/// A server that could not be started may have been started by another program meanwhile: then it is
/// attached to, else the error stands.
pub fn recover_tui(existing: bool, error: String) -> (result: Result<TuiStart, String>)
    ensures
        match result {
            Ok(start) => existing && start == TuiStart::Attach,
            Err(found) => !existing && found@ == error@,
        },
{
    if existing {
        Ok(TuiStart::Attach)
    } else {
        Err(error)
    }
}

/// A change of a profile changes what it names and nothing else: what is set holds, what is unset is gone,
/// and any other setting stays as it was.
pub proof fn law_changes_touch_what_they_name(
    profile: RecordView,
    patch: Map<Seq<char>, SettingView>,
    ids: Seq<Seq<char>>,
    id: Seq<char>,
    name: Seq<char>,
    role: ModelRole,
)
    ensures
        ({
            let set = profile.changed(ChangeView::Assign(patch));
            let unset = profile.changed(ChangeView::Unset(ids));
            let model = profile.changed(ChangeView::SetModel(name));
            &&& patch.contains_key(id) ==> set.overrides.contains_key(id) && set.overrides[id]
                == patch[id]
            &&& !patch.contains_key(id) ==> (set.overrides.contains_key(id)
                <==> profile.overrides.contains_key(id)) && (profile.overrides.contains_key(id)
                ==> set.overrides[id] == profile.overrides[id])
            &&& ids.contains(id) ==> !unset.overrides.contains_key(id)
            &&& !ids.contains(id) ==> (unset.overrides.contains_key(id)
                <==> profile.overrides.contains_key(id)) && (profile.overrides.contains_key(id)
                ==> unset.overrides[id] == profile.overrides[id])
            &&& model == (RecordView { model_id: name, ..profile })
            &&& profile.changed(ChangeView::SetRole(role)) == (RecordView { role, ..profile })
            &&& (RecordView { overrides: profile.overrides, ..set }) == profile
            &&& (RecordView { overrides: profile.overrides, ..unset }) == profile
        }),
{
    assert(ids.to_set().contains(id) == ids.contains(id));
}

/// Settings are refused for all engines where one of them belongs to one, and for an engine where it is not
/// known or one of them is not for it; otherwise they are not.
pub proof fn law_settings_must_fit_their_scope(
    engine: Seq<char>,
    registered: bool,
    settings: Seq<ScopedSetting>,
)
    ensures
        scope_refusal(ScopeView::Global, registered, settings) is None <==> forall|i: int|
            0 <= i < settings.len() ==> !(#[trigger] settings[i]).namespaced,
        scope_refusal(ScopeView::Engine(engine), registered, settings) is None <==> registered
            && forall|i: int| 0 <= i < settings.len() ==> (#[trigger] settings[i]).applies,
        scope_refusal(ScopeView::Global, registered, settings) matches Some(error) ==> error
            is InvalidGlobalSetting,
        registered && scope_refusal(ScopeView::Engine(engine), registered, settings) is Some
            ==> scope_refusal(ScopeView::Engine(engine), registered, settings)->0
            is WrongEngineScope,
{
    lemma_first_foreign(settings);
    lemma_first_namespaced(settings);
}

proof fn lemma_first_foreign(settings: Seq<ScopedSetting>)
    ensures
        match first_foreign(settings) {
            Some(id) => exists|i: int|
                0 <= i < settings.len() && !(#[trigger] settings[i]).applies && settings[i].id@
                    == id,
            None => forall|i: int| 0 <= i < settings.len() ==> (#[trigger] settings[i]).applies,
        },
    decreases settings.len(),
{
    if settings.len() > 0 {
        let rest = settings.drop_last();
        lemma_first_foreign(rest);
        assert(settings[settings.len() - 1] == settings.last());
        if let Some(id) = first_foreign(rest) {
            let i = choose|i: int|
                0 <= i < rest.len() && !(#[trigger] rest[i]).applies && rest[i].id@ == id;
            assert(settings[i] == rest[i]);
        } else {
            assert forall|i: int| 0 <= i < rest.len() implies (#[trigger] settings[i]).applies by {
                assert(settings[i] == rest[i]);
            }
        }
    }
}

proof fn lemma_first_namespaced(settings: Seq<ScopedSetting>)
    ensures
        match first_namespaced(settings) {
            Some(id) => exists|i: int|
                0 <= i < settings.len() && (#[trigger] settings[i]).namespaced && settings[i].id@
                    == id,
            None => forall|i: int| 0 <= i < settings.len() ==> !(#[trigger] settings[i]).namespaced,
        },
    decreases settings.len(),
{
    if settings.len() > 0 {
        let rest = settings.drop_last();
        lemma_first_namespaced(rest);
        assert(settings[settings.len() - 1] == settings.last());
        if let Some(id) = first_namespaced(rest) {
            let i = choose|i: int|
                0 <= i < rest.len() && (#[trigger] rest[i]).namespaced && rest[i].id@ == id;
            assert(settings[i] == rest[i]);
        } else {
            assert forall|i: int| 0 <= i < rest.len() implies !(
            #[trigger] settings[i]).namespaced by {
                assert(settings[i] == rest[i]);
            }
        }
    }
}

/// Other defaults of a scope stay as they are where some are set or unset, and an engine of which nothing
/// is set any more has no entry.
pub proof fn law_other_defaults_stay(
    state: SettingsStateView,
    scope: ScopeView,
    patch: Map<Seq<char>, SettingView>,
    ids: Seq<Seq<char>>,
    id: Seq<char>,
)
    requires
        state.defaults(scope).dom().finite(),
    ensures
        ({
            let old = state.defaults(scope);
            let set = state.assigned(scope, patch).defaults(scope);
            let left = state.unset(scope, ids).defaults(scope);
            &&& !patch.contains_key(id) ==> (set.contains_key(id) <==> old.contains_key(id)) && (
            old.contains_key(id) ==> set[id] == old[id])
            &&& !ids.contains(id) ==> (left.contains_key(id) <==> old.contains_key(id)) && (
            old.contains_key(id) ==> left[id] == old[id])
        }),
        scope matches ScopeView::Engine(engine) ==> ((forall|key: Seq<char>| #[trigger]
            state.defaults(scope).contains_key(key) ==> ids.contains(key)) ==> !state.unset(
            scope,
            ids,
        ).engine_defaults.contains_key(engine)),
{
    let old = state.defaults(scope);
    let left = old.remove_keys(ids.to_set());
    assert(ids.to_set().contains(id) == ids.contains(id));
    assert(left.dom().subset_of(old.dom()));
    vstd::set_lib::lemma_len_subset(left.dom(), old.dom());
    if left.dom().len() == 0 {
        assert(left.dom() =~= Set::empty());
        if old.contains_key(id) && !ids.contains(id) {
            assert(left.dom().contains(id));
        }
    }
    if forall|key: Seq<char>| #[trigger] old.contains_key(key) ==> ids.contains(key) {
        assert forall|key: Seq<char>| !left.dom().contains(key) by {
            if old.contains_key(key) {
                assert(ids.to_set().contains(key));
            }
        }
        assert(left.dom() =~= Set::empty());
    }
}

/// With the template or the draft model of an engine its digest is unset; nothing else is unset that was
/// not named.
pub proof fn law_digests_of_files_are_unset(ids: Seq<Seq<char>>, id: Seq<char>)
    ensures
        ids.contains(id) ==> with_bound_digests(ids).contains(id),
        ids.contains("q27.template_path"@) ==> with_bound_digests(ids).contains(
            "q27.template_sha256"@,
        ),
        ids.contains("llama.cpp.chat_template_file"@) ==> with_bound_digests(ids).contains(
            "llama.cpp.chat_template_sha256"@,
        ),
        ids.contains("llama.cpp.speculative_draft_model"@) ==> with_bound_digests(ids).contains(
            "llama.cpp.speculative_draft_sha256"@,
        ),
        with_bound_digests(ids).contains(id) && !ids.contains(id) ==> id == "q27.template_sha256"@
            || id == "llama.cpp.chat_template_sha256"@ || id
            == "llama.cpp.speculative_draft_sha256"@,
{
    law_digests_go_with_their_files(ids);
    let pairs = bound_settings();
    assert(pairs[0] == ("q27.template_path"@, "q27.template_sha256"@));
    assert(pairs[1] == ("llama.cpp.chat_template_file"@, "llama.cpp.chat_template_sha256"@));
    assert(pairs[2] == (
        "llama.cpp.speculative_draft_model"@,
        "llama.cpp.speculative_draft_sha256"@,
    ));
    let first = ids + bound_digest(ids, pairs[0]);
    let second = first + bound_digest(first, pairs[1]);
    let all = with_bound_digests(ids);
    if all.contains(id) {
        let k = all.index_of(id);
        if k < ids.len() {
            assert(ids[k] == id);
        } else if k < first.len() {
            assert(first[k] == pairs[0].1);
        } else if k < second.len() {
            assert(second[k] == pairs[1].1);
        } else {
            assert(all[k] == pairs[2].1);
        }
    }
}

/// Whether a named setting could be read, and is a known one.
pub open spec fn is_known(
    named: Result<String, String>,
    known: Seq<Seq<char>>,
    expected: Seq<char>,
) -> bool {
    match named {
        Err(_) => false,
        Ok(id) => id@ == expected && known.contains(id@),
    }
}

/// Whether an error tells what is wrong with a named setting.
pub open spec fn is_fault(
    named: Result<String, String>,
    known: Seq<Seq<char>>,
    error: CommandErrorView,
) -> bool {
    match named {
        Err(fault) => error == CommandErrorView::InvalidSetting(fault@),
        Ok(id) => !known.contains(id@) && error == CommandErrorView::UnknownSetting(id@),
    }
}

/// Named settings are all known, each as it was named, in their order; the first that cannot be read or is
/// not known is told.
pub proof fn law_named_settings_are_known(parsed: Seq<Result<String, String>>, known: Seq<Seq<char>>)
    ensures
        match known_ids(parsed, known, 0) {
            Ok(ids) => ids.len() == parsed.len() && forall|i: int|
                0 <= i < parsed.len() ==> is_known(#[trigger] parsed[i], known, ids[i]),
            Err(error) => exists|i: int|
                0 <= i < parsed.len() && is_fault(#[trigger] parsed[i], known, error),
        },
{
    lemma_known_ids(parsed, known, 0);
    if let Ok(ids) = known_ids(parsed, known, 0) {
        assert forall|i: int| 0 <= i < parsed.len() implies is_known(
            #[trigger] parsed[i],
            known,
            ids[i],
        ) by {
            assert(is_known(parsed[0 + i], known, ids[i]));
        }
    }
}

proof fn lemma_known_ids(parsed: Seq<Result<String, String>>, known: Seq<Seq<char>>, at: int)
    requires
        0 <= at <= parsed.len(),
    ensures
        match known_ids(parsed, known, at) {
            Ok(ids) => ids.len() == parsed.len() - at && forall|i: int|
                0 <= i < ids.len() ==> is_known(parsed[at + i], known, #[trigger] ids[i]),
            Err(error) => exists|i: int|
                at <= i < parsed.len() && is_fault(#[trigger] parsed[i], known, error),
        },
    decreases parsed.len() - at,
{
    if at < parsed.len() {
        lemma_known_ids(parsed, known, at + 1);
        match known_ids(parsed, known, at) {
            Ok(ids) => {
                let rest = known_ids(parsed, known, at + 1)->Ok_0;
                assert forall|i: int| 0 <= i < ids.len() implies is_known(
                    parsed[at + i],
                    known,
                    #[trigger] ids[i],
                ) by {
                    if i == 0 {
                        assert(ids[0] == parsed[at]->Ok_0@);
                    } else {
                        assert(rest[i - 1] == ids[i]);
                        assert(at + 1 + (i - 1) == at + i);
                    }
                }
            },
            Err(error) => {
                if parsed[at] is Ok && known.contains(parsed[at]->Ok_0@) {
                    let i = choose|i: int|
                        at + 1 <= i < parsed.len() && is_fault(#[trigger] parsed[i], known, error);
                    assert(is_fault(parsed[i], known, error));
                } else {
                    assert(is_fault(parsed[at], known, error));
                }
            },
        }
    }
}

/// A profile is bound to a model only where the model is known, there is such a profile, its engine is
/// known and supports the model, and its settings fit; to an engine only where there is such a profile, its
/// model is known, and the engine is known and supports it; and settings are set only where there is such a
/// profile, each is for its engine, its model is known, and they fit.
pub proof fn law_profiles_change_only_soundly(
    profiles: Map<Seq<char>, RecordView>,
    profile_id: Seq<char>,
    model: BoundModel,
    engine_id: Seq<char>,
    supported: Option<bool>,
    fault: Option<Seq<char>>,
    settings: Seq<ScopedSetting>,
)
    ensures
        rebind_refusal(profiles, profile_id, model, supported, fault) is None <==> model.known
            && profiles.contains_key(profile_id) && supported == Some(true) && fault is None,
        reengine_refusal(profiles, profile_id, model, engine_id, supported) is None <==> model.known
            && profiles.contains_key(profile_id) && supported == Some(true),
        assign_refusal(profiles, profile_id, settings, model, fault) is None <==> model.known
            && profiles.contains_key(profile_id) && fault is None && forall|i: int|
            0 <= i < settings.len() ==> (#[trigger] settings[i]).applies,
{
    lemma_first_foreign(settings);
}

/// The place of a text in a list is the first that has it.
pub proof fn law_texts_are_found_first(list: Seq<Seq<char>>, text: Seq<char>)
    ensures
        match place_of(list, text) {
            Some(at) => 0 <= at < list.len() && list[at] == text && forall|i: int|
                0 <= i < at ==> #[trigger] list[i] != text,
            None => !list.contains(text),
        },
    decreases list.len(),
{
    if list.len() > 0 {
        let rest = list.drop_last();
        law_texts_are_found_first(rest, text);
        assert forall|i: int| 0 <= i < rest.len() && rest[i] != text implies #[trigger] list[i]
            != text by {
            assert(rest[i] == list[i]);
        }
        if list.contains(text) && place_of(rest, text) is None {
            let k = list.index_of(text);
            if k < rest.len() {
                assert(rest[k] == text);
                assert(rest.contains(text));
            }
        }
    }
}

} // verus!
