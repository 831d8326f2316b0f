//! Which runtime is chosen for a format or a model, and which updates each follows.
use vstd::prelude::*;
use vstd::string::*;

use crate::duplicate::{views, Duplicate};
use crate::table::{kept_where, lemma_kept_where, ordered, Table};
use crate::text::{ascii_upper, cat2, same, to_ascii_upper};
use crate::updates::RuntimeUpdatePreference;

verus! {

/// The runtimes chosen for formats and for models, and the updates that each of them follows.
#[derive(Debug)]
pub struct RuntimeSelections {
    pub format_defaults: Table<String>,
    pub model_overrides: Table<String>,
    pub update_preferences: Table<RuntimeUpdatePreference>,
}

#[verifier::ext_equal]
pub struct SelectionsView {
    pub format_defaults: Map<Seq<char>, Seq<char>>,
    pub model_overrides: Map<Seq<char>, Seq<char>>,
    pub update_preferences: Map<Seq<char>, RuntimeUpdatePreference>,
}

impl View for RuntimeSelections {
    type V = SelectionsView;

    open spec fn view(&self) -> SelectionsView {
        SelectionsView {
            format_defaults: self.format_defaults@,
            model_overrides: self.model_overrides@,
            update_preferences: self.update_preferences@,
        }
    }
}

impl Duplicate for RuntimeSelections {
    fn duplicate(&self) -> (result: RuntimeSelections) {
        RuntimeSelections {
            format_defaults: self.format_defaults.duplicate(),
            model_overrides: self.model_overrides.duplicate(),
            update_preferences: self.update_preferences.duplicate(),
        }
    }
}

/// What a format's choice is called.
pub open spec fn format_use(format: Seq<char>) -> Seq<char> {
    ascii_upper(format) + " default"@
}

/// What a model's choice is called.
pub open spec fn model_use(model: Seq<char>) -> Seq<char> {
    "model "@ + model
}

/// The keys that lead to a value, in order.
pub open spec fn leading_to(map: Map<Seq<char>, Seq<char>>, value: Seq<char>) -> Seq<Seq<char>> {
    kept_where(ordered(map.dom()), |key: Seq<char>| map[key] == value)
}

impl SelectionsView {
    pub open spec fn empty() -> SelectionsView {
        SelectionsView {
            format_defaults: Map::empty(),
            model_overrides: Map::empty(),
            update_preferences: Map::empty(),
        }
    }

    /// What a runtime is chosen for: formats first, then models.
    pub open spec fn uses(self, runtime_id: Seq<char>) -> Seq<Seq<char>> {
        leading_to(self.format_defaults, runtime_id).map_values(
            |format: Seq<char>| format_use(format),
        ) + leading_to(self.model_overrides, runtime_id).map_values(
            |model: Seq<char>| model_use(model),
        )
    }

    pub open spec fn is_used(self, runtime_id: Seq<char>) -> bool {
        self.format_defaults.contains_value(runtime_id) || self.model_overrides.contains_value(
            runtime_id,
        )
    }

    /// Whether every preference is of a runtime that is chosen for something.
    pub open spec fn preferences_belong(self) -> bool {
        forall|id: Seq<char>| #[trigger]
            self.update_preferences.contains_key(id) ==> self.is_used(id)
    }

    /// The updates that a runtime follows: the latest, unless something else was chosen.
    pub open spec fn preference(self, runtime_id: Seq<char>) -> RuntimeUpdatePreference {
        if self.update_preferences.contains_key(runtime_id) {
            self.update_preferences[runtime_id]
        } else {
            RuntimeUpdatePreference::Latest
        }
    }

    /// Without the preference of a runtime that is no longer chosen for anything.
    pub open spec fn forgetting(self, runtime_id: Option<Seq<char>>) -> SelectionsView {
        match runtime_id {
            Some(runtime_id) if !self.is_used(runtime_id) => SelectionsView {
                update_preferences: self.update_preferences.remove(runtime_id),
                ..self
            },
            _ => self,
        }
    }

    pub open spec fn preferring(
        self,
        runtime_id: Seq<char>,
        preference: RuntimeUpdatePreference,
    ) -> SelectionsView {
        SelectionsView {
            update_preferences: self.update_preferences.insert(runtime_id, preference),
            ..self
        }
    }

    /// With a runtime chosen for a format.
    pub open spec fn format_selected(
        self,
        format: Seq<char>,
        runtime_id: Seq<char>,
        preference: RuntimeUpdatePreference,
    ) -> SelectionsView {
        SelectionsView {
            format_defaults: self.format_defaults.insert(format, runtime_id),
            ..self
        }.forgetting(value_at(self.format_defaults, format)).preferring(runtime_id, preference)
    }

    /// With a runtime chosen for a model.
    pub open spec fn model_selected(
        self,
        model: Seq<char>,
        runtime_id: Seq<char>,
        preference: RuntimeUpdatePreference,
    ) -> SelectionsView {
        SelectionsView {
            model_overrides: self.model_overrides.insert(model, runtime_id),
            ..self
        }.forgetting(value_at(self.model_overrides, model)).preferring(runtime_id, preference)
    }

    /// Without a choice for a format.
    pub open spec fn format_cleared(self, format: Seq<char>) -> SelectionsView {
        SelectionsView {
            format_defaults: self.format_defaults.remove(format),
            ..self
        }.forgetting(value_at(self.format_defaults, format))
    }

    /// Without a choice for a model.
    pub open spec fn model_cleared(self, model: Seq<char>) -> SelectionsView {
        SelectionsView {
            model_overrides: self.model_overrides.remove(model),
            ..self
        }.forgetting(value_at(self.model_overrides, model))
    }
}

pub open spec fn value_at(map: Map<Seq<char>, Seq<char>>, key: Seq<char>) -> Option<Seq<char>> {
    if map.contains_key(key) {
        Some(map[key])
    } else {
        None
    }
}

/// The keys of a table that lead to a value.
fn keys_leading_to(table: &Table<String>, value: &str) -> (result: Vec<String>)
    ensures
        views(result@) == leading_to(table@, value@),
        result@.len() == 0 <==> !table@.contains_value(value@),
{
    let count: usize = table.len();
    let ghost keys = table.keys();
    let ghost test = |key: Seq<char>| table@[key] == value@;
    let mut result: Vec<String> = Vec::new();
    let mut i: usize = 0;
    proof {
        assert(keys.take(0) =~= Seq::empty());
        assert(views(result@) =~= kept_where(keys.take(0), test));
    }
    while i < count
        invariant
            i <= count,
            count == keys.len(),
            keys == table.keys(),
            test == (|key: Seq<char>| table@[key] == value@),
            views(result@) == kept_where(keys.take(i as int), test),
        decreases count - i,
    {
        let ghost before = result@;
        if same(table.value_at(i).as_str(), value) {
            result.push(table.key_at(i).clone());
        }
        proof {
            assert(keys.take(i + 1).drop_last() =~= keys.take(i as int));
            assert(keys.take(i + 1).last() == keys[i as int]);
            if result@.len() > before.len() {
                assert(views(result@) =~= views(before).push(keys[i as int]));
            }
        }
        i += 1;
    }
    proof {
        assert(keys.take(count as int) =~= keys);
        lemma_kept_where(keys, test);
        if table@.contains_value(value@) {
            let key = choose|key: Seq<char>| table@.contains_key(key) && table@[key] == value@;
            assert(table@.dom().contains(key));
            assert(keys.to_set().contains(key));
            assert(keys.contains(key));
            assert(kept_where(keys, test).contains(key));
            assert(kept_where(keys, test).len() > 0);
        } else if result@.len() > 0 {
            let key = kept_where(keys, test)[0];
            assert(kept_where(keys, test).contains(key));
            assert(keys.contains(key));
            assert(keys.to_set().contains(key));
            assert(table@.contains_key(key) && table@[key] == value@);
        }
    }
    result
}

pub fn selected_for(selections: &RuntimeSelections, runtime_id: &str) -> (result: Vec<String>)
    ensures
        views(result@) == selections@.uses(runtime_id@),
        result@.len() == 0 <==> !selections@.is_used(runtime_id@),
{
    let formats = keys_leading_to(&selections.format_defaults, runtime_id);
    let models = keys_leading_to(&selections.model_overrides, runtime_id);
    let ghost format_texts = views(formats@).map_values(|format: Seq<char>| format_use(format));
    let ghost model_texts = views(models@).map_values(|model: Seq<char>| model_use(model));
    let mut result: Vec<String> = Vec::new();
    let mut i: usize = 0;
    while i < formats.len()
        invariant
            i <= formats.len(),
            format_texts == views(formats@).map_values(|format: Seq<char>| format_use(format)),
            views(result@) =~= format_texts.take(i as int),
        decreases formats.len() - i,
    {
        let ghost before = views(result@);
        let text = cat2(to_ascii_upper(formats[i].as_str()).as_str(), " default");
        let ghost view = text@;
        result.push(text);
        proof {
            assert(views(formats@)[i as int] == formats@[i as int]@);
            assert(format_texts[i as int] == view);
            assert(views(result@) =~= before.push(view));
            assert(format_texts.take(i + 1) =~= format_texts.take(i as int).push(view));
        }
        i += 1;
    }
    let mut j: usize = 0;
    while j < models.len()
        invariant
            j <= models.len(),
            model_texts == views(models@).map_values(|model: Seq<char>| model_use(model)),
            views(result@) =~= format_texts + model_texts.take(j as int),
        decreases models.len() - j,
    {
        let ghost before = views(result@);
        let text = cat2("model ", models[j].as_str());
        let ghost view = text@;
        result.push(text);
        proof {
            assert(views(models@)[j as int] == models@[j as int]@);
            assert(model_texts[j as int] == view);
            assert(views(result@) =~= before.push(view));
            assert(model_texts.take(j + 1) =~= model_texts.take(j as int).push(view));
        }
        j += 1;
    }
    proof {
        assert(model_texts.take(models.len() as int) =~= model_texts);
        assert(views(result@).len() == formats@.len() + models@.len());
    }
    result
}

/// The first thing that keeps a runtime chosen.
pub fn selection_for_runtime(selections: &RuntimeSelections, runtime_id: &str) -> (result: Option<
    String,
>)
    ensures
        match result {
            Some(text) => selections@.uses(runtime_id@).len() > 0 && text@ == selections@.uses(
                runtime_id@,
            )[0],
            None => !selections@.is_used(runtime_id@),
        },
{
    let uses = selected_for(selections, runtime_id);
    if uses.len() > 0 {
        proof {
            assert(views(uses@)[0] == uses@[0]@);
        }
        Some(uses[0].clone())
    } else {
        None
    }
}

impl RuntimeSelections {
    pub fn new() -> (result: RuntimeSelections)
        ensures
            result@ == SelectionsView::empty(),
    {
        RuntimeSelections {
            format_defaults: Table::new(),
            model_overrides: Table::new(),
            update_preferences: Table::new(),
        }
    }

    pub fn update_preference(&self, runtime_id: &str) -> (result: RuntimeUpdatePreference)
        ensures
            result == self@.preference(runtime_id@),
    {
        match self.update_preferences.get(runtime_id) {
            Some(preference) => *preference,
            None => RuntimeUpdatePreference::Latest,
        }
    }

    fn forget_unused(&mut self, runtime_id: &str)
        ensures
            final(self)@ == old(self)@.forgetting(Some(runtime_id@)),
    {
        let uses = selected_for(self, runtime_id);
        if uses.len() == 0 {
            let _ = self.update_preferences.remove(runtime_id);
        }
    }

    /// Chooses a runtime for a format. Where that leaves the one chosen before without any use, its
    /// preference is forgotten.
    pub fn select_format(
        &mut self,
        format: &str,
        runtime_id: &str,
        preference: RuntimeUpdatePreference,
    )
        ensures
            final(self)@ == old(self)@.format_selected(format@, runtime_id@, preference),
    {
        let previous = self.format_defaults.insert(format.to_owned(), runtime_id.to_owned());
        match previous {
            Some(previous) => self.forget_unused(previous.as_str()),
            None => {},
        }
        let _ = self.update_preferences.insert(runtime_id.to_owned(), preference);
    }

    /// Chooses a runtime for a model.
    pub fn select_model(
        &mut self,
        model: &str,
        runtime_id: &str,
        preference: RuntimeUpdatePreference,
    )
        ensures
            final(self)@ == old(self)@.model_selected(model@, runtime_id@, preference),
    {
        let previous = self.model_overrides.insert(model.to_owned(), runtime_id.to_owned());
        match previous {
            Some(previous) => self.forget_unused(previous.as_str()),
            None => {},
        }
        let _ = self.update_preferences.insert(runtime_id.to_owned(), preference);
    }

    pub fn clear_format(&mut self, format: &str)
        ensures
            final(self)@ == old(self)@.format_cleared(format@),
    {
        match self.format_defaults.remove(format) {
            Some(runtime_id) => self.forget_unused(runtime_id.as_str()),
            None => {},
        }
    }

    pub fn clear_model(&mut self, model: &str)
        ensures
            final(self)@ == old(self)@.model_cleared(model@),
    {
        match self.model_overrides.remove(model) {
            Some(runtime_id) => self.forget_unused(runtime_id.as_str()),
            None => {},
        }
    }
}

/// Clearing undoes choosing, for a format or a model that had no choice and a runtime that had no
/// use and no preference.
pub proof fn law_clearing_undoes_choosing(
    selections: SelectionsView,
    key: Seq<char>,
    runtime_id: Seq<char>,
    preference: RuntimeUpdatePreference,
)
    requires
        !selections.is_used(runtime_id),
        !selections.update_preferences.contains_key(runtime_id),
    ensures
        !selections.format_defaults.contains_key(key) ==> selections.format_selected(
            key,
            runtime_id,
            preference,
        ).format_cleared(key) == selections,
        !selections.model_overrides.contains_key(key) ==> selections.model_selected(
            key,
            runtime_id,
            preference,
        ).model_cleared(key) == selections,
{
    if !selections.format_defaults.contains_key(key) {
        let chosen = selections.format_selected(key, runtime_id, preference);
        assert(chosen.format_defaults.remove(key) =~= selections.format_defaults);
        assert(chosen.update_preferences.remove(runtime_id) =~= selections.update_preferences);
    }
    if !selections.model_overrides.contains_key(key) {
        let chosen = selections.model_selected(key, runtime_id, preference);
        assert(chosen.model_overrides.remove(key) =~= selections.model_overrides);
        assert(chosen.update_preferences.remove(runtime_id) =~= selections.update_preferences);
    }
}

/// Choosing or clearing leaves the choices for other formats and for other models alone.
pub proof fn law_other_choices_stay(
    selections: SelectionsView,
    key: Seq<char>,
    other: Seq<char>,
    runtime_id: Seq<char>,
    preference: RuntimeUpdatePreference,
)
    requires
        key != other,
    ensures
        value_at(
            selections.format_selected(key, runtime_id, preference).format_defaults,
            other,
        ) == value_at(selections.format_defaults, other),
        value_at(selections.format_cleared(key).format_defaults, other) == value_at(
            selections.format_defaults,
            other,
        ),
        value_at(
            selections.model_selected(key, runtime_id, preference).model_overrides,
            other,
        ) == value_at(selections.model_overrides, other),
        value_at(selections.model_cleared(key).model_overrides, other) == value_at(
            selections.model_overrides,
            other,
        ),
        selections.format_selected(key, runtime_id, preference).model_overrides
            == selections.model_overrides,
        selections.format_cleared(key).model_overrides == selections.model_overrides,
        selections.model_selected(key, runtime_id, preference).format_defaults
            == selections.format_defaults,
        selections.model_cleared(key).format_defaults == selections.format_defaults,
{
}

/// Where every preference is of a chosen runtime, that stays so.
pub proof fn law_preferences_belong_to_choices(
    selections: SelectionsView,
    key: Seq<char>,
    runtime_id: Seq<char>,
    preference: RuntimeUpdatePreference,
)
    requires
        selections.preferences_belong(),
    ensures
        selections.format_selected(key, runtime_id, preference).preferences_belong(),
        selections.format_cleared(key).preferences_belong(),
        selections.model_selected(key, runtime_id, preference).preferences_belong(),
        selections.model_cleared(key).preferences_belong(),
{
    let formats = SelectionsView {
        format_defaults: selections.format_defaults.insert(key, runtime_id),
        ..selections
    };
    lemma_still_belong(selections, formats, value_at(selections.format_defaults, key), runtime_id);
    assert(formats.format_defaults.contains_key(key) && formats.format_defaults[key] == runtime_id);
    let models = SelectionsView {
        model_overrides: selections.model_overrides.insert(key, runtime_id),
        ..selections
    };
    lemma_still_belong(selections, models, value_at(selections.model_overrides, key), runtime_id);
    assert(models.model_overrides.contains_key(key) && models.model_overrides[key] == runtime_id);
    lemma_still_belong(
        selections,
        SelectionsView {
            format_defaults: selections.format_defaults.remove(key),
            ..selections
        },
        value_at(selections.format_defaults, key),
        runtime_id,
    );
    lemma_still_belong(
        selections,
        SelectionsView {
            model_overrides: selections.model_overrides.remove(key),
            ..selections
        },
        value_at(selections.model_overrides, key),
        runtime_id,
    );
}

/// Only the runtime that lost a choice can have lost its last one.
proof fn lemma_still_belong(
    before: SelectionsView,
    after: SelectionsView,
    dropped: Option<Seq<char>>,
    chosen: Seq<char>,
)
    requires
        before.preferences_belong(),
        after.update_preferences == before.update_preferences,
        forall|key: Seq<char>| #[trigger]
            before.format_defaults.contains_key(key) ==> after.format_defaults.contains_key(key)
                && after.format_defaults[key] == before.format_defaults[key] || dropped == Some(
                before.format_defaults[key],
            ),
        forall|key: Seq<char>| #[trigger]
            before.model_overrides.contains_key(key) ==> after.model_overrides.contains_key(key)
                && after.model_overrides[key] == before.model_overrides[key] || dropped == Some(
                before.model_overrides[key],
            ),
    ensures
        after.forgetting(dropped).preferences_belong(),
{
    let end = after.forgetting(dropped);
    assert forall|id: Seq<char>| #[trigger] end.update_preferences.contains_key(id) implies end.is_used(
        id,
    ) by {
        assert(before.update_preferences.contains_key(id));
        if dropped != Some(id) {
            if before.format_defaults.contains_value(id) {
                let at = choose|at: Seq<char>|
                    before.format_defaults.contains_key(at) && before.format_defaults[at] == id;
                assert(before.format_defaults.contains_key(at));
                assert(end.format_defaults.contains_key(at) && end.format_defaults[at] == id);
            } else {
                let at = choose|at: Seq<char>|
                    before.model_overrides.contains_key(at) && before.model_overrides[at] == id;
                assert(before.model_overrides.contains_key(at));
                assert(end.model_overrides.contains_key(at) && end.model_overrides[at] == id);
            }
        }
    }
}

/// What is chosen for a format or a model is read back, with the updates that it follows; what is cleared
/// is not; and a runtime of which nothing is known follows the latest updates.
pub proof fn law_choices_are_read_back(
    selections: SelectionsView,
    key: Seq<char>,
    runtime_id: Seq<char>,
    preference: RuntimeUpdatePreference,
)
    ensures
        ({
            let format = selections.format_selected(key, runtime_id, preference);
            let model = selections.model_selected(key, runtime_id, preference);
            &&& format.format_defaults.contains_key(key) && format.format_defaults[key]
                == runtime_id
            &&& format.model_overrides == selections.model_overrides
            &&& format.preference(runtime_id) == preference
            &&& model.model_overrides.contains_key(key) && model.model_overrides[key] == runtime_id
            &&& model.format_defaults == selections.format_defaults
            &&& model.preference(runtime_id) == preference
            &&& !selections.format_cleared(key).format_defaults.contains_key(key)
            &&& !selections.model_cleared(key).model_overrides.contains_key(key)
        }),
        !selections.update_preferences.contains_key(runtime_id) ==> selections.preference(runtime_id)
            == RuntimeUpdatePreference::Latest,
{
}

/// The updates that other runtimes follow stay as they are, unless it is the one that was replaced.
pub proof fn law_other_preferences_stay(
    selections: SelectionsView,
    key: Seq<char>,
    runtime_id: Seq<char>,
    preference: RuntimeUpdatePreference,
    other: Seq<char>,
)
    requires
        other != runtime_id,
    ensures
        value_at(selections.format_defaults, key) != Some(other) ==> selections.format_selected(
            key,
            runtime_id,
            preference,
        ).preference(other) == selections.preference(other) && selections.format_cleared(
            key,
        ).preference(other) == selections.preference(other),
        value_at(selections.model_overrides, key) != Some(other) ==> selections.model_selected(
            key,
            runtime_id,
            preference,
        ).preference(other) == selections.preference(other) && selections.model_cleared(
            key,
        ).preference(other) == selections.preference(other),
{
}

/// What a runtime is chosen for is told of each format and each model that it is chosen for, and of
/// nothing else; a format is written in capitals.
pub proof fn law_all_uses_are_told(selections: SelectionsView, runtime_id: Seq<char>, told: Seq<char>)
    requires
        selections.format_defaults.dom().finite(),
        selections.model_overrides.dom().finite(),
    ensures
        selections.uses(runtime_id).contains(told) <==> (exists|format: Seq<char>| #[trigger]
            selections.format_defaults.contains_key(format) && selections.format_defaults[format]
                == runtime_id && told == ascii_upper(format) + " default"@) || (exists|
            model: Seq<char>,
        | #[trigger]
            selections.model_overrides.contains_key(model) && selections.model_overrides[model]
                == runtime_id && told == "model "@ + model),
{
    let formats = leading_to(selections.format_defaults, runtime_id);
    let models = leading_to(selections.model_overrides, runtime_id);
    lemma_leading_to(selections.format_defaults, runtime_id);
    lemma_leading_to(selections.model_overrides, runtime_id);
    let first = formats.map_values(|format: Seq<char>| format_use(format));
    let second = models.map_values(|model: Seq<char>| model_use(model));
    let all = selections.uses(runtime_id);
    assert(all =~= first + second);
    if all.contains(told) {
        let i = all.index_of(told);
        if i < first.len() {
            assert(formats.contains(formats[i]));
            assert(selections.format_defaults.contains_key(formats[i]));
        } else {
            let k = i - first.len();
            assert(models.contains(models[k]));
            assert(selections.model_overrides.contains_key(models[k]));
        }
    }
    if exists|format: Seq<char>| #[trigger]
        selections.format_defaults.contains_key(format) && selections.format_defaults[format]
            == runtime_id && told == ascii_upper(format) + " default"@ {
        let format = choose|format: Seq<char>| #[trigger]
            selections.format_defaults.contains_key(format) && selections.format_defaults[format]
                == runtime_id && told == ascii_upper(format) + " default"@;
        assert(formats.contains(format));
        let i = formats.index_of(format);
        assert(all[i] == told);
    }
    if exists|model: Seq<char>| #[trigger]
        selections.model_overrides.contains_key(model) && selections.model_overrides[model]
            == runtime_id && told == "model "@ + model {
        let model = choose|model: Seq<char>| #[trigger]
            selections.model_overrides.contains_key(model) && selections.model_overrides[model]
                == runtime_id && told == "model "@ + model;
        assert(models.contains(model));
        let i = models.index_of(model);
        assert(all[first.len() + i] == told);
    }
}

proof fn lemma_leading_to(map: Map<Seq<char>, Seq<char>>, value: Seq<char>)
    requires
        map.dom().finite(),
    ensures
        forall|key: Seq<char>| #[trigger]
            leading_to(map, value).contains(key) <==> map.contains_key(key) && map[key] == value,
{
    let keys = ordered(map.dom());
    let kept = leading_to(map, value);
    crate::table::lemma_ordered(map.dom());
    assert forall|test: spec_fn(Seq<char>) -> bool, key: Seq<char>| #[trigger]
        kept_where(keys, test).contains(key) <==> keys.contains(key) && test(key) by {
        lemma_kept_where(keys, test);
    }
    assert forall|key: Seq<char>| #[trigger] kept.contains(key) <==> map.contains_key(key)
        && map[key] == value by {
        assert(keys.contains(key) == map.dom().contains(key));
    }
}

} // verus!
