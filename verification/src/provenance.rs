//! The record of how a backend was launched: its arguments and environment without their values,
//! and the settings that the runtime reported back.
use vstd::prelude::*;
use vstd::string::*;
use vstd::utf8::encode_utf8;

use crate::outside::{is_hex_digit, sha256, sha256_digest};
use crate::duplicate::{optional, views, Duplicate};
use crate::table::{lemma_take_grows, ordered, Table};
use crate::text::{
    ascii_lower, cat2, cat3, chars_of, decimal, decimal_text, find_char, first_at, same,
    same_ignoring_case, text_between,
};

verus! {

/// The small hexadecimal digit of a number below sixteen.
pub open spec fn hex_digit(n: u8) -> char {
    if n < 10 {
        (48 + n) as char
    } else {
        (87 + n) as char
    }
}

/// Bytes in hexadecimal, two small digits each, the high half first.
pub open spec fn hex_text(bytes: Seq<u8>) -> Seq<char>
    decreases bytes.len(),
{
    if bytes.len() == 0 {
        Seq::empty()
    } else {
        hex_text(bytes.drop_last()).push(hex_digit((bytes.last() / 16) as u8)).push(
            hex_digit((bytes.last() % 16) as u8),
        )
    }
}

fn hex_char(n: u8) -> (result: char)
    requires
        n < 16,
    ensures
        result == hex_digit(n),
{
    if n < 10 {
        (48u8 + n) as char
    } else {
        (87u8 + n) as char
    }
}

pub fn hex_digest(bytes: &Vec<u8>) -> (result: String)
    ensures
        result@ == hex_text(bytes@),
{
    let mut result = String::new();
    let mut i: usize = 0;
    while i < bytes.len()
        invariant
            i <= bytes.len(),
            result@ == hex_text(bytes@.take(i as int)),
        decreases bytes.len() - i,
    {
        let byte: u8 = bytes[i];
        result.push(hex_char(byte / 16));
        result.push(hex_char(byte % 16));
        proof {
            assert(bytes@.take(i + 1).drop_last() =~= bytes@.take(i as int));
        }
        i += 1;
    }
    proof {
        assert(bytes@.take(bytes@.len() as int) =~= bytes@);
    }
    result
}

/// Hexadecimal text is twice as long as the bytes, consists of small hexadecimal digits, and tells
/// different bytes apart.
pub proof fn law_hex_text(a: Seq<u8>, b: Seq<u8>)
    ensures
        hex_text(a).len() == 2 * a.len(),
        forall|i: int| 0 <= i < hex_text(a).len() ==> is_hex_digit(#[trigger] hex_text(a)[i]),
        hex_text(a) == hex_text(b) ==> a == b,
    decreases a.len() + b.len(),
{
    if a.len() > 0 {
        law_hex_text(a.drop_last(), Seq::empty());
        assert(a.last() / 16 < 16 && a.last() % 16 < 16);
    }
    if b.len() > 0 {
        law_hex_text(b.drop_last(), Seq::empty());
    }
    if hex_text(a) == hex_text(b) {
        if a.len() == 0 || b.len() == 0 {
            assert(hex_text(a).len() == 2 * a.len());
            assert(hex_text(b).len() == 2 * b.len());
            assert(a =~= b);
        } else {
            let x = hex_text(a.drop_last());
            let y = hex_text(b.drop_last());
            assert(hex_text(a).drop_last().drop_last() =~= x);
            assert(hex_text(b).drop_last().drop_last() =~= y);
            law_hex_text(a.drop_last(), b.drop_last());
            assert(hex_text(a).last() == hex_digit((a.last() % 16) as u8));
            assert(hex_text(b).last() == hex_digit((b.last() % 16) as u8));
            assert(hex_text(a).drop_last().last() == hex_digit((a.last() / 16) as u8));
            assert(hex_text(b).drop_last().last() == hex_digit((b.last() / 16) as u8));
            lemma_hex_digit_injective((a.last() % 16) as u8, (b.last() % 16) as u8);
            lemma_hex_digit_injective((a.last() / 16) as u8, (b.last() / 16) as u8);
            assert(a.last() == b.last());
            assert(a =~= a.drop_last().push(a.last()));
            assert(b =~= b.drop_last().push(b.last()));
        }
    }
}

proof fn lemma_hex_digit_injective(a: u8, b: u8)
    requires
        a < 16,
        b < 16,
        hex_digit(a) == hex_digit(b),
    ensures
        a == b,
{
    assert(hex_digit(a) as u32 == if a < 10 {
        48 + a
    } else {
        87 + a
    });
    assert(hex_digit(b) as u32 == if b < 10 {
        48 + b
    } else {
        87 + b
    });
}

/// The hexadecimal SHA-256 digest of a text.
pub open spec fn text_digest(text: Seq<char>) -> Seq<char> {
    hex_text(sha256(encode_utf8(text)))
}

pub fn sha256_text(text: &str) -> (result: String)
    ensures
        result@ == text_digest(text@),
        result@.len() == 64,
{
    let digest = sha256_digest(text.as_bytes());
    proof {
        law_hex_text(digest@, Seq::empty());
    }
    hex_digest(&digest)
}

/// An argument of a launch: an option by its text, any value only by its digest.
#[derive(Debug)]
pub enum NativeArgumentProvenance {
    Value(String),
    Redacted { argument: String, value_sha256: String },
}

#[verifier::ext_equal]
pub enum ArgumentView {
    Value(Seq<char>),
    Redacted { argument: Seq<char>, value_sha256: Seq<char> },
}

impl View for NativeArgumentProvenance {
    type V = ArgumentView;

    open spec fn view(&self) -> ArgumentView {
        match self {
            NativeArgumentProvenance::Value(argument) => ArgumentView::Value(argument@),
            NativeArgumentProvenance::Redacted { argument, value_sha256 } => {
                ArgumentView::Redacted { argument: argument@, value_sha256: value_sha256@ }
            },
        }
    }
}

/// Whether an argument is an option: it begins with a hyphen.
pub open spec fn is_option(argument: Seq<char>) -> bool {
    argument.len() > 0 && argument[0] == '-'
}

/// Where the value of an option that carries it begins: behind its first equals sign.
pub open spec fn value_mark(argument: Seq<char>) -> Option<int> {
    if is_option(argument) && exists|at: int| first_at(argument, '=', at) {
        Some(choose|at: int| first_at(argument, '=', at))
    } else {
        None
    }
}

/// The record of the arguments from one on, given the option that the one before it was.
pub open spec fn recorded_arguments(
    arguments: Seq<Seq<char>>,
    from: int,
    previous: Option<Seq<char>>,
) -> Seq<ArgumentView>
    decreases arguments.len() - from,
{
    if from < 0 || from >= arguments.len() {
        Seq::empty()
    } else {
        let argument = arguments[from];
        if value_mark(argument) is Some {
            let at = value_mark(argument)->0;
            seq![
                ArgumentView::Redacted {
                    argument: argument.take(at) + "=<redacted>"@,
                    value_sha256: text_digest(argument.skip(at + 1)),
                },
            ] + recorded_arguments(arguments, from + 1, None)
        } else if is_option(argument) {
            seq![ArgumentView::Value(argument)] + recorded_arguments(
                arguments,
                from + 1,
                Some(argument),
            )
        } else {
            seq![
                ArgumentView::Redacted {
                    argument: match previous {
                        Some(option) => option + "=<redacted>"@,
                        None => "<positional:"@ + decimal(from as nat) + ">=<redacted>"@,
                    },
                    value_sha256: text_digest(argument),
                },
            ] + recorded_arguments(arguments, from + 1, None)
        }
    }
}

proof fn lemma_value_mark(argument: Seq<char>, at: int)
    requires
        first_at(argument, '=', at),
    ensures
        is_option(argument) ==> value_mark(argument) == Some(at),
        is_option(argument) == is_option(argument.take(at)),
{
    let other = choose|k: int| first_at(argument, '=', k);
    assert(first_at(argument, '=', other));
    if other < at {
        assert(argument[other] != '=');
    } else if at < other {
        assert(argument[at] != '=');
    }
    if at == 0 {
        assert(argument[0] == '=');
    }
}

pub fn native_argument_provenance(arguments: &Vec<String>) -> (result: Vec<
    NativeArgumentProvenance,
>)
    ensures
        views(result@) == recorded_arguments(views(arguments@), 0, None),
{
    let mut result: Vec<NativeArgumentProvenance> = Vec::new();
    let mut previous: Option<String> = None;
    let mut index: usize = 0;
    let ghost texts = views(arguments@);
    proof {
        assert(views(result@) + recorded_arguments(texts, 0, None) =~= recorded_arguments(
            texts,
            0,
            None,
        ));
    }
    while index < arguments.len()
        invariant
            index <= arguments.len(),
            texts == views(arguments@),
            recorded_arguments(texts, 0, None) == views(result@) + recorded_arguments(
                texts,
                index as int,
                optional(previous),
            ),
        decreases arguments.len() - index,
    {
        let argument = &arguments[index];
        let chars = chars_of(argument.as_str());
        let ghost done = views(result@);
        let ghost rest = recorded_arguments(texts, index as int, optional(previous));
        let hyphen: bool = chars.len() > 0 && chars[0] == '-';
        let mark = if hyphen {
            find_char(&chars, 0, '=')
        } else {
            None
        };
        proof {
            assert(texts[index as int] == argument@);
            if mark is Some {
                assert(first_at(argument@, '=', mark->0 as int));
                lemma_value_mark(argument@, mark->0 as int);
            } else {
                if hyphen {
                    assert(!exists|at: int| first_at(argument@, '=', at));
                }
                assert(value_mark(argument@) is None);
            }
        }
        let entry;
        let next: Option<String>;
        match mark {
            Some(at) => {
                let name = text_between(&chars, 0, at);
                let value = text_between(&chars, at + 1, chars.len());
                proof {
                    assert(name@ =~= argument@.take(at as int));
                    assert(value@ =~= argument@.skip(at + 1));
                }
                entry =
                NativeArgumentProvenance::Redacted {
                    argument: cat2(name.as_str(), "=<redacted>"),
                    value_sha256: sha256_text(value.as_str()),
                };
                next = None;
            },
            None => if hyphen {
                entry = NativeArgumentProvenance::Value(argument.clone());
                next = Some(argument.clone());
            } else {
                let owner = match &previous {
                    Some(option) => cat2(option.as_str(), "=<redacted>"),
                    None => {
                        let position = decimal_text(index as u64);
                        cat3("<positional:", position.as_str(), ">=<redacted>")
                    },
                };
                entry =
                NativeArgumentProvenance::Redacted {
                    argument: owner,
                    value_sha256: sha256_text(argument.as_str()),
                };
                next = None;
            },
        }
        previous = next;
        let ghost view = entry@;
        result.push(entry);
        proof {
            let after = recorded_arguments(texts, index + 1, optional(previous));
            assert(rest == seq![view] + after);
            assert(views(result@) =~= done.push(view));
            assert(done + (seq![view] + after) =~= done.push(view) + after);
        }
        index += 1;
    }
    proof {
        assert(views(result@) + Seq::<ArgumentView>::empty() =~= views(result@));
    }
    result
}

/// Each argument has its record, and what is recorded in the clear is an option that carries no
/// value.
pub proof fn law_argument_values_are_redacted(
    arguments: Seq<Seq<char>>,
    from: int,
    previous: Option<Seq<char>>,
)
    requires
        0 <= from <= arguments.len(),
    ensures
        recorded_arguments(arguments, from, previous).len() == arguments.len() - from,
        forall|i: int|
            0 <= i < arguments.len() - from ==> (#[trigger] recorded_arguments(
                arguments,
                from,
                previous,
            )[i] matches ArgumentView::Value(text) ==> text == arguments[from + i] && is_option(text)
                && !text.contains('=')),
    decreases arguments.len() - from,
{
    if from < arguments.len() {
        let argument = arguments[from];
        let next = if value_mark(argument) is None && is_option(argument) {
            Some(argument)
        } else {
            None
        };
        let rest = recorded_arguments(arguments, from + 1, next);
        let all = recorded_arguments(arguments, from, previous);
        law_argument_values_are_redacted(arguments, from + 1, next);
        assert(all == seq![all[0]] + rest);
        assert forall|i: int| 0 <= i < arguments.len() - from implies (#[trigger] all[i] matches
            ArgumentView::Value(text) ==> text == arguments[from + i] && is_option(text)
            && !text.contains('=')) by {
            if i > 0 {
                assert(all[i] == rest[i - 1]);
            } else if all[0] is Value {
                if argument.contains('=') {
                    let k = argument.index_of('=');
                    lemma_first_equals(argument, k);
                }
            }
        }
    }
}

proof fn lemma_first_equals(text: Seq<char>, k: int)
    requires
        0 <= k < text.len(),
        text[k] == '=',
    ensures
        exists|at: int| first_at(text, '=', at),
    decreases k,
{
    if forall|j: int| 0 <= j < k ==> text[j] != '=' {
        assert(first_at(text, '=', k));
    } else {
        let j = choose|j: int| 0 <= j < k && text[j] == '=';
        lemma_first_equals(text, j);
    }
}

/// A variable of a launch: its name, where it came from, and the digest of its value.
#[derive(Debug)]
pub struct EnvironmentVariableProvenance {
    pub name: String,
    pub inherited: bool,
    pub value_sha256: String,
}

#[verifier::ext_equal]
pub struct VariableView {
    pub name: Seq<char>,
    pub inherited: bool,
    pub value_sha256: Seq<char>,
}

impl View for EnvironmentVariableProvenance {
    type V = VariableView;

    open spec fn view(&self) -> VariableView {
        VariableView {
            name: self.name@,
            inherited: self.inherited,
            value_sha256: self.value_sha256@,
        }
    }
}

/// A value of the environment and whether it was inherited.
pub struct ObservedVariable {
    pub value: String,
    pub inherited: bool,
}

impl View for ObservedVariable {
    type V = (Seq<char>, bool);

    open spec fn view(&self) -> (Seq<char>, bool) {
        (self.value@, self.inherited)
    }
}

/// Whether a name is in a list when the case of ASCII letters does not count.
pub open spec fn listed_ignoring_case(list: Seq<Seq<char>>, name: Seq<char>) -> bool {
    exists|i: int| 0 <= i < list.len() && ascii_lower(#[trigger] list[i]) == ascii_lower(name)
}

/// Whether some key of a map is a name when the case of ASCII letters does not count.
pub open spec fn key_ignoring_case(
    observed: Map<Seq<char>, (Seq<char>, bool)>,
    name: Seq<char>,
) -> bool {
    exists|key: Seq<char>|
        #[trigger] observed.dom().contains(key) && ascii_lower(key) == ascii_lower(name)
}

/// The environment after the parent's variables from one on: each is inherited unless it is removed
/// or a variable of that name is there already.
pub open spec fn with_inherited(
    observed: Map<Seq<char>, (Seq<char>, bool)>,
    parent: Seq<(Seq<char>, Seq<char>)>,
    removed: Seq<Seq<char>>,
) -> Map<Seq<char>, (Seq<char>, bool)>
    decreases parent.len(),
{
    if parent.len() == 0 {
        observed
    } else {
        let (name, value) = parent[0];
        let next = if listed_ignoring_case(removed, name) || key_ignoring_case(observed, name) {
            observed
        } else {
            observed.insert(name, (value, true))
        };
        with_inherited(next, parent.skip(1), removed)
    }
}

/// The variables that the launch sets itself.
pub open spec fn own_variables(environment: Map<Seq<char>, Seq<char>>) -> Map<
    Seq<char>,
    (Seq<char>, bool),
> {
    environment.map_values(|value: Seq<char>| (value, false))
}

/// The record of an environment, by ascending name.
pub open spec fn recorded_environment(observed: Map<Seq<char>, (Seq<char>, bool)>) -> Seq<
    VariableView,
> {
    ordered(observed.dom()).map_values(
        |name: Seq<char>|
            VariableView {
                name,
                inherited: observed[name].1,
                value_sha256: text_digest(observed[name].0),
            },
    )
}

pub open spec fn pair_views(pairs: Seq<(String, String)>) -> Seq<(Seq<char>, Seq<char>)> {
    pairs.map_values(|pair: (String, String)| (pair.0@, pair.1@))
}

fn listed(list: &Vec<String>, name: &str) -> (result: bool)
    ensures
        result == listed_ignoring_case(views(list@), name@),
{
    let mut i: usize = 0;
    while i < list.len()
        invariant
            i <= list.len(),
            forall|k: int|
                0 <= k < i ==> ascii_lower(#[trigger] views(list@)[k]) != ascii_lower(name@),
        decreases list.len() - i,
    {
        proof {
            assert(views(list@)[i as int] == list@[i as int]@);
        }
        if same_ignoring_case(list[i].as_str(), name) {
            return true;
        }
        i += 1;
    }
    false
}

fn overridden(observed: &Table<ObservedVariable>, name: &str) -> (result: bool)
    ensures
        result == key_ignoring_case(observed@, name@),
{
    let mut i: usize = 0;
    let count: usize = observed.len();
    while i < count
        invariant
            i <= count,
            count == observed.keys().len(),
            observed.keys().to_set() == observed@.dom(),
            forall|k: int|
                0 <= k < i ==> ascii_lower(#[trigger] observed.keys()[k]) != ascii_lower(name@),
        decreases observed.keys().len() - i,
    {
        if same_ignoring_case(observed.key_at(i).as_str(), name) {
            return true;
        }
        i += 1;
    }
    proof {
        assert forall|key: Seq<char>| #[trigger]
            observed@.dom().contains(key) implies ascii_lower(key) != ascii_lower(name@) by {
            assert(observed.keys().to_set().contains(key));
            let k = choose|k: int| 0 <= k < observed.keys().len() && observed.keys()[k] == key;
        }
    }
    false
}

/// What the launch sets, then what it inherits.
fn observe_environment(
    environment: &Table<String>,
    removed: &Vec<String>,
    parent: &Vec<(String, String)>,
) -> (result: Table<ObservedVariable>)
    ensures
        result@ == with_inherited(own_variables(environment@), pair_views(parent@), views(removed@)),
{
    let mut observed: Table<ObservedVariable> = Table::new();
    let mut i: usize = 0;
    let ghost keys = environment.keys();
    let count: usize = environment.len();
    proof {
        assert(observed@ =~= own_variables(environment@.restrict(keys.take(0).to_set())));
    }
    while i < count
        invariant
            i <= count,
            count == keys.len(),
            keys == environment.keys(),
            keys.to_set() == environment@.dom(),
            observed@ == own_variables(environment@.restrict(keys.take(i as int).to_set())),
        decreases keys.len() - i,
    {
        let name = environment.key_at(i).clone();
        let value = environment.value_at(i).clone();
        observed.insert(name, ObservedVariable { value, inherited: false });
        proof {
            lemma_take_grows(keys, i as int);
            assert(observed@ =~= own_variables(environment@.restrict(keys.take(i + 1).to_set())));
        }
        i += 1;
    }
    proof {
        assert(keys.take(i as int) =~= keys);
        assert(environment@.restrict(keys.to_set()) =~= environment@);
    }
    let mut j: usize = 0;
    let ghost pairs = pair_views(parent@);
    let ghost all = with_inherited(own_variables(environment@), pairs, views(removed@));
    proof {
        assert(pairs.skip(0) =~= pairs);
    }
    while j < parent.len()
        invariant
            j <= parent.len(),
            pairs == pair_views(parent@),
            all == with_inherited(observed@, pairs.skip(j as int), views(removed@)),
        decreases parent.len() - j,
    {
        let name = parent[j].0.as_str();
        proof {
            assert(pairs.skip(j as int)[0] == (parent@[j as int].0@, parent@[j as int].1@));
            assert(pairs.skip(j as int).skip(1) =~= pairs.skip(j + 1));
        }
        if !listed(removed, name) && !overridden(&observed, name) {
            let entry = ObservedVariable { value: parent[j].1.clone(), inherited: true };
            observed.insert(parent[j].0.clone(), entry);
        }
        j += 1;
    }
    proof {
        assert(pairs.skip(j as int) =~= Seq::empty());
    }
    observed
}

/// The record of the environment of a launch. `parent` is what the parent process has, in the order
/// in which it lists it, and counts only where the launch inherits.
pub fn environment_provenance(
    environment: &Table<String>,
    environment_remove: &Vec<String>,
    inherits_parent_environment: bool,
    parent: &Vec<(String, String)>,
) -> (result: Vec<EnvironmentVariableProvenance>)
    ensures
        views(result@) == recorded_environment(
            if inherits_parent_environment {
                with_inherited(
                    own_variables(environment@),
                    pair_views(parent@),
                    views(environment_remove@),
                )
            } else {
                own_variables(environment@)
            },
        ),
{
    let none: Vec<(String, String)> = Vec::new();
    proof {
        assert(pair_views(none@) =~= Seq::empty());
    }
    let observed = if inherits_parent_environment {
        observe_environment(environment, environment_remove, parent)
    } else {
        observe_environment(environment, environment_remove, &none)
    };
    let mut result: Vec<EnvironmentVariableProvenance> = Vec::new();
    let mut i: usize = 0;
    let ghost all = recorded_environment(observed@);
    let count: usize = observed.len();
    proof {
        assert(views(result@) =~= all.take(0));
    }
    while i < count
        invariant
            i <= count,
            count == observed.keys().len(),
            all == recorded_environment(observed@),
            ordered(observed@.dom()) == observed.keys(),
            views(result@) == all.take(i as int),
        decreases observed.keys().len() - i,
    {
        let name = observed.key_at(i).clone();
        let variable = observed.value_at(i);
        let entry = EnvironmentVariableProvenance {
            name,
            inherited: variable.inherited,
            value_sha256: sha256_text(variable.value.as_str()),
        };
        let ghost done = views(result@);
        let ghost view = entry@;
        result.push(entry);
        proof {
            assert(views(result@) =~= done.push(view));
            assert(all.take(i + 1) =~= all.take(i as int).push(all[i as int]));
            assert(all[i as int] == view);
        }
        i += 1;
    }
    proof {
        assert(all.take(i as int) =~= all);
    }
    result
}

/// A removed variable is never inherited, and what the launch sets stays as it set it.
pub proof fn law_inherited_environment(
    observed: Map<Seq<char>, (Seq<char>, bool)>,
    parent: Seq<(Seq<char>, Seq<char>)>,
    removed: Seq<Seq<char>>,
)
    ensures
        forall|name: Seq<char>| #[trigger]
            observed.dom().contains(name) ==> with_inherited(observed, parent, removed).dom().contains(
                name,
            ) && with_inherited(observed, parent, removed)[name] == observed[name],
        forall|name: Seq<char>| #[trigger]
            with_inherited(observed, parent, removed).dom().contains(name)
                && !observed.dom().contains(name) ==> with_inherited(observed, parent, removed)[name].1
                && !listed_ignoring_case(removed, name),
    decreases parent.len(),
{
    if parent.len() > 0 {
        let (name, value) = parent[0];
        let next = if listed_ignoring_case(removed, name) || key_ignoring_case(observed, name) {
            observed
        } else {
            observed.insert(name, (value, true))
        };
        law_inherited_environment(next, parent.skip(1), removed);
        let end = with_inherited(observed, parent, removed);
        assert(end == with_inherited(next, parent.skip(1), removed));
        assert forall|key: Seq<char>| #[trigger] observed.dom().contains(key) implies end.dom().contains(
            key,
        ) && end[key] == observed[key] by {
            assert(next.dom().contains(key));
            if key == name {
                assert(key_ignoring_case(observed, name));
            }
        }
        assert forall|key: Seq<char>| #[trigger]
            end.dom().contains(key) && !observed.dom().contains(key) implies end[key].1
            && !listed_ignoring_case(removed, key) by {
            if next.dom().contains(key) {
                assert(key == name);
            }
        }
    }
}

/// Where the value of a setting comes from.
#[derive(Debug, Clone, Copy, PartialEq, Eq, Structural)]
pub enum SettingSource {
    GlobalDefault,
    EngineDefault,
    ModelProfile,
    Invocation,
    RuntimeDefault,
}

/// The value that a setting had when the backend was launched.
#[derive(Debug)]
pub struct EffectiveSetting {
    pub value: String,
    pub source: SettingSource,
    pub detail: Option<String>,
}

#[verifier::ext_equal]
pub struct EffectiveView {
    pub value: Seq<char>,
    pub source: SettingSource,
    pub detail: Option<Seq<char>>,
}

impl View for EffectiveSetting {
    type V = EffectiveView;

    open spec fn view(&self) -> EffectiveView {
        EffectiveView {
            value: self.value@,
            source: self.source,
            detail: optional(self.detail),
        }
    }
}

impl Duplicate for EffectiveSetting {
    fn duplicate(&self) -> (result: EffectiveSetting) {
        EffectiveSetting {
            value: self.value.clone(),
            source: self.source,
            detail: crate::duplicate::duplicate_option(&self.detail),
        }
    }
}

impl Duplicate for NativeArgumentProvenance {
    fn duplicate(&self) -> (result: NativeArgumentProvenance) {
        match self {
            NativeArgumentProvenance::Value(argument) => NativeArgumentProvenance::Value(
                argument.clone(),
            ),
            NativeArgumentProvenance::Redacted { argument, value_sha256 } => {
                NativeArgumentProvenance::Redacted {
                    argument: argument.clone(),
                    value_sha256: value_sha256.clone(),
                }
            },
        }
    }
}

impl Duplicate for EnvironmentVariableProvenance {
    fn duplicate(&self) -> (result: EnvironmentVariableProvenance) {
        EnvironmentVariableProvenance {
            name: self.name.clone(),
            inherited: self.inherited,
            value_sha256: self.value_sha256.clone(),
        }
    }
}

/// A value that the runtime reported for a setting: its text, which for other than text is how JSON
/// writes it, and whether its name is a setting identifier at all.
pub struct ReportedValue {
    pub display: String,
    pub valid_id: bool,
}

#[verifier::ext_equal]
pub struct ReportedView {
    pub display: Seq<char>,
    pub valid_id: bool,
}

impl View for ReportedValue {
    type V = ReportedView;

    open spec fn view(&self) -> ReportedView {
        ReportedView { display: self.display@, valid_id: self.valid_id }
    }
}

impl Duplicate for ReportedValue {
    fn duplicate(&self) -> (result: ReportedValue) {
        ReportedValue { display: self.display.clone(), valid_id: self.valid_id }
    }
}

/// A setting after the runtime reported its value.
pub open spec fn reconciled(setting: Option<EffectiveView>, display: Seq<char>) -> EffectiveView {
    match setting {
        Some(setting) => if setting.value != display {
            let resolution = "The launched runtime resolved the pre-startup `"@ + setting.value
                + "` policy/value"@;
            EffectiveView {
                value: display,
                source: setting.source,
                detail: Some(
                    match setting.detail {
                        Some(detail) => detail + "; "@ + resolution,
                        None => resolution,
                    },
                ),
            }
        } else if setting.detail is None {
            EffectiveView { detail: Some("Confirmed by the launched runtime"@), ..setting }
        } else {
            setting
        },
        None => EffectiveView {
            value: display,
            source: SettingSource::RuntimeDefault,
            detail: Some("Reported by the launched runtime"@),
        },
    }
}

/// The settings after the runtime reported some of them: those that it reported under a valid
/// identifier are reconciled, the others stay.
pub open spec fn all_reconciled(
    effective: Map<Seq<char>, EffectiveView>,
    reported: Map<Seq<char>, ReportedView>,
) -> Map<Seq<char>, EffectiveView> {
    Map::new(
        |id: Seq<char>|
            effective.dom().contains(id) || (reported.dom().contains(id) && reported[id].valid_id),
        |id: Seq<char>|
            if reported.dom().contains(id) && reported[id].valid_id {
                reconciled(
                    if effective.dom().contains(id) {
                        Some(effective[id])
                    } else {
                        None
                    },
                    reported[id].display,
                )
            } else {
                effective[id]
            },
    )
}

fn reconcile_setting(setting: Option<EffectiveSetting>, display: String) -> (result:
    EffectiveSetting)
    ensures
        result@ == reconciled(
            match setting {
                Some(setting) => Some(setting@),
                None => None,
            },
            display@,
        ),
{
    match setting {
        Some(setting) => {
            if !same(setting.value.as_str(), display.as_str()) {
                let resolution = cat3(
                    "The launched runtime resolved the pre-startup `",
                    setting.value.as_str(),
                    "` policy/value",
                );
                let detail = match &setting.detail {
                    Some(detail) => cat3(detail.as_str(), "; ", resolution.as_str()),
                    None => resolution,
                };
                EffectiveSetting { value: display, source: setting.source, detail: Some(detail) }
            } else if setting.detail.is_none() {
                EffectiveSetting {
                    value: display,
                    source: setting.source,
                    detail: Some("Confirmed by the launched runtime".to_owned()),
                }
            } else {
                setting
            }
        },
        None => EffectiveSetting {
            value: display,
            source: SettingSource::RuntimeDefault,
            detail: Some("Reported by the launched runtime".to_owned()),
        },
    }
}

/// Takes the values that the launched runtime reported into the effective settings.
pub fn reconcile_effective_settings(
    effective: &mut Table<EffectiveSetting>,
    reported: &Table<ReportedValue>,
)
    ensures
        final(effective)@ == all_reconciled(old(effective)@, reported@),
{
    let ghost start = effective@;
    let ghost keys = reported.keys();
    let mut i: usize = 0;
    let count: usize = reported.len();
    proof {
        assert(effective@ =~= all_reconciled(start, reported@.restrict(keys.take(0).to_set())));
    }
    while i < count
        invariant
            i <= count,
            count == keys.len(),
            keys == reported.keys(),
            keys.to_set() == reported@.dom(),
            forall|p: int, q: int|
                0 <= p < keys.len() && 0 <= q < keys.len() && p != q ==> #[trigger] keys[p]
                    != #[trigger] keys[q],
            effective@ == all_reconciled(start, reported@.restrict(keys.take(i as int).to_set())),
        decreases keys.len() - i,
    {
        let id = reported.key_at(i).clone();
        let value = reported.value_at(i);
        proof {
            assert(id@ == keys[i as int]);
            lemma_take_grows(keys, i as int);
            assert(!keys.take(i as int).to_set().contains(id@)) by {
                if keys.take(i as int).contains(id@) {
                    let p = keys.take(i as int).index_of(id@);
                    assert(keys[p] != keys[i as int]);
                }
            }
        }
        if value.valid_id {
            let previous = effective.remove(id.as_str());
            let next = reconcile_setting(previous, value.display.clone());
            effective.insert(id, next);
        }
        proof {
            assert(effective@ =~= all_reconciled(
                start,
                reported@.restrict(keys.take(i + 1).to_set()),
            ));
        }
        i += 1;
    }
    proof {
        assert(keys.take(i as int) =~= keys);
        assert(reported@.restrict(keys.to_set()) =~= reported@);
    }
}

/// A setting that the runtime does not report keeps its value, its source and its detail; one that
/// it reports has the reported value, and keeps its source where it had one.
pub proof fn law_reconciled_settings(
    effective: Map<Seq<char>, EffectiveView>,
    reported: Map<Seq<char>, ReportedView>,
    id: Seq<char>,
)
    ensures
        !reported.dom().contains(id) && effective.dom().contains(id) ==> all_reconciled(
            effective,
            reported,
        )[id] == effective[id],
        reported.dom().contains(id) && reported[id].valid_id ==> {
            let after = all_reconciled(effective, reported);
            &&& after.dom().contains(id)
            &&& after[id].value == reported[id].display
            &&& after[id].detail is Some
            &&& effective.dom().contains(id) ==> after[id].source == effective[id].source
        },
{
}

/// Of an option with its value the name stays and the value is a digest; of a value behind an option that
/// option is told; of any other the place among the arguments.
pub proof fn law_arguments_are_recorded(arguments: Seq<Seq<char>>, at: int)
    requires
        0 <= at < arguments.len(),
    ensures
        ({
            let argument = arguments[at];
            let record = recorded_arguments(arguments, 0, None)[at];
            let plain = argument.len() > 0 && argument[0] == '-' && !argument.contains('=');
            let behind = at > 0 && arguments[at - 1].len() > 0 && arguments[at - 1][0] == '-'
                && !arguments[at - 1].contains('=');
            &&& plain ==> record == ArgumentView::Value(argument)
            &&& forall|name: Seq<char>, value: Seq<char>|
                argument == #[trigger] (name + seq!['='] + value) && !name.contains('=') && name.len()
                    > 0 && name[0] == '-' ==> record == (ArgumentView::Redacted {
                    argument: name + "=<redacted>"@,
                    value_sha256: text_digest(value),
                })
            &&& argument.len() == 0 || argument[0] != '-' ==> record == (ArgumentView::Redacted {
                argument: if behind {
                    arguments[at - 1] + "=<redacted>"@
                } else {
                    "<positional:"@ + decimal(at as nat) + ">=<redacted>"@
                },
                value_sha256: text_digest(argument),
            })
        }),
{
    let argument = arguments[at];
    let record = recorded_arguments(arguments, 0, None)[at];
    lemma_recorded_at(arguments, 0, None, at);
    lemma_has_mark(argument);
    if at > 0 {
        lemma_has_mark(arguments[at - 1]);
    }
    assert forall|name: Seq<char>, value: Seq<char>|
        argument == #[trigger] (name + seq!['='] + value) && !name.contains('=') && name.len() > 0
            && name[0] == '-' implies record == (ArgumentView::Redacted {
        argument: name + "=<redacted>"@,
        value_sha256: text_digest(value),
    }) by {
        assert(argument[0] == name[0]);
        assert(first_at(argument, '=', name.len() as int));
        let mark = value_mark(argument)->0;
        assert(first_at(argument, '=', mark));
        assert(mark == name.len());
        assert(argument.take(mark) =~= name);
        assert(argument.skip(mark + 1) =~= value);
    }
}

proof fn lemma_has_mark(argument: Seq<char>)
    ensures
        value_mark(argument) is Some <==> argument.len() > 0 && argument[0] == '-'
            && argument.contains('='),
{
    if argument.contains('=') {
        lemma_first_mark(argument, argument.index_of('='));
    }
    if value_mark(argument) is Some {
        let at = choose|at: int| first_at(argument, '=', at);
        assert(argument.contains(argument[at]));
    }
}

proof fn lemma_first_mark(text: Seq<char>, at: int)
    requires
        0 <= at < text.len(),
        text[at] == '=',
    ensures
        exists|k: int| first_at(text, '=', k),
    decreases at,
{
    if forall|k: int| 0 <= k < at ==> text[k] != '=' {
        assert(first_at(text, '=', at));
    } else {
        let k = choose|k: int| 0 <= k < at && text[k] == '=';
        lemma_first_mark(text, k);
    }
}

/// The option that an argument is, where its value may follow.
spec fn as_option(argument: Seq<char>) -> Option<Seq<char>> {
    if value_mark(argument) is None && is_option(argument) {
        Some(argument)
    } else {
        None
    }
}

proof fn lemma_recorded_at(
    arguments: Seq<Seq<char>>,
    from: int,
    previous: Option<Seq<char>>,
    at: int,
)
    requires
        0 <= from <= at < arguments.len(),
    ensures
        recorded_arguments(arguments, from, previous)[at - from] == recorded_arguments(
            arguments,
            at,
            if at == from {
                previous
            } else {
                as_option(arguments[at - 1])
            },
        )[0],
    decreases at - from,
{
    if at > from {
        let next = as_option(arguments[from]);
        let all = recorded_arguments(arguments, from, previous);
        let rest = recorded_arguments(arguments, from + 1, next);
        lemma_recorded_at(arguments, from + 1, next, at);
        law_argument_values_are_redacted(arguments, from + 1, next);
        assert(all == seq![all[0]] + rest);
        assert(all[at - from] == rest[at - from - 1]);
    }
}

/// A process has the variables that its launch sets, and of the parent's the first of each name, unless it
/// is removed or set; the case of letters does not count. Each is recorded with whether it was inherited
/// and with the digest of its value, by ascending name.
pub proof fn law_environments_are_recorded(
    observed: Map<Seq<char>, (Seq<char>, bool)>,
    at: int,
)
    requires
        observed.dom().finite(),
        0 <= at < recorded_environment(observed).len(),
    ensures
        recorded_environment(observed).len() == observed.dom().len(),
        ({
            let variable = recorded_environment(observed)[at];
            &&& observed.contains_key(variable.name)
            &&& variable.inherited == observed[variable.name].1
            &&& variable.value_sha256 == text_digest(observed[variable.name].0)
        }),
{
    let names = ordered(observed.dom());
    crate::table::lemma_ordered(observed.dom());
    crate::table::lemma_ordered_once(observed.dom());
    names.unique_seq_to_set();
    assert(names.contains(names[at]));
}

/// A variable of the parent is inherited where nothing of its name is removed, set or before it.
pub proof fn law_variables_are_inherited(
    environment: Map<Seq<char>, Seq<char>>,
    name: Seq<char>,
    value: Seq<char>,
    rest: Seq<(Seq<char>, Seq<char>)>,
    removed: Seq<Seq<char>>,
)
    ensures
        ({
            let own = own_variables(environment);
            let all = with_inherited(own, seq![(name, value)] + rest, removed);
            let is_removed = exists|i: int|
                0 <= i < removed.len() && ascii_lower(#[trigger] removed[i]) == ascii_lower(name);
            let is_set = exists|key: Seq<char>| #[trigger]
                environment.contains_key(key) && ascii_lower(key) == ascii_lower(name);
            &&& !is_removed && !is_set ==> all.contains_key(name) && all[name] == (value, true)
            &&& environment.contains_key(name) ==> all.contains_key(name) && all[name] == (
                environment[name],
                false,
            )
            &&& is_removed && !environment.contains_key(name) ==> !all.contains_key(name)
        }),
{
    let own = own_variables(environment);
    let parent = seq![(name, value)] + rest;
    assert(parent.skip(1) =~= rest);
    assert(parent[0] == (name, value));
    law_inherited_environment(own, parent, removed);
    assert(own.dom() =~= environment.dom());
    assert forall|key: Seq<char>| environment.contains_key(key) == own.dom().contains(key) by {}
    let is_removed = listed_ignoring_case(removed, name);
    let is_set = key_ignoring_case(own, name);
    if is_set {
        let key = choose|key: Seq<char>| #[trigger]
            own.dom().contains(key) && ascii_lower(key) == ascii_lower(name);
        assert(environment.contains_key(key));
    }
    if !is_removed && !is_set {
        let next = own.insert(name, (value, true));
        law_inherited_environment(next, rest, removed);
        assert(next.dom().contains(name));
    }
    if environment.contains_key(name) {
        assert(own.dom().contains(name));
    }
    let all = with_inherited(own, parent, removed);
    if all.contains_key(name) && !own.dom().contains(name) {
        assert(all.dom().contains(name));
    }
}

/// A setting whose value the runtime changed keeps its source and tells of the value that it had; one that
/// it confirmed stays, and says so where it said nothing; one that was not known is the runtime's own.
pub proof fn law_runtimes_have_the_last_word(setting: EffectiveView, display: Seq<char>)
    ensures
        reconciled(None, display).value == display,
        reconciled(None, display).source == SettingSource::RuntimeDefault,
        reconciled(Some(setting), display).value == display,
        reconciled(Some(setting), display).source == setting.source,
        setting.value == display && setting.detail is Some ==> reconciled(Some(setting), display)
            == setting,
        setting.value != display ==> reconciled(Some(setting), display).detail == Some(
            (match setting.detail {
                Some(detail) => detail + "; "@,
                None => Seq::empty(),
            }) + ("The launched runtime resolved the pre-startup `"@ + setting.value
                + "` policy/value"@),
        ),
{
    let words = "The launched runtime resolved the pre-startup `"@ + setting.value
        + "` policy/value"@;
    assert(Seq::<char>::empty() + words =~= words);
}

} // verus!
