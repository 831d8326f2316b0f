//! The store of installed runtimes: where each belongs, what may replace it, and what may be removed.
use vstd::prelude::*;
use vstd::string::*;

use crate::duplicate::{lemma_views_push, optional, views};
use crate::order::{text_order, Order};
use crate::paths::{parts, same_path};
use crate::runtimes::{
    AssetView, InstalledRuntime, ManifestView, PackErrorView, RuntimeAcquisitionMethod,
    RuntimeManifest, RuntimePackError, RuntimePackageAsset, RuntimeView,
};
use crate::selections::{selection_for_runtime, RuntimeSelections};
use crate::sorting::{law_sorted, order_of, sort, sorted, Precedes};
use crate::text::{
    ascii_lower, cat2, cat3, cat4, cat7, chars_of, compare_text, decimal, decimal_text, holds, lower,
    lower_char, same, same_ignoring_case, same_list, same_optional, stands_at, text_between,
};

verus! {

/// The file that holds the record of an installed runtime.
pub const RUNTIME_MANIFEST_FILE: &'static str = "runtime.json";

/// Why an operation on the store failed.
#[derive(Debug)]
pub enum RuntimeStoreError {
    Io { path: String, source: String },
    InvalidManifest { path: String, message: String },
    NotInstalled(String),
    RuntimeInUse(String),
    RuntimeSelected { runtime_id: String, selection: String },
    ExternalRuntime(String),
    UnsafePath(String),
    ProvenanceConflict { runtime_id: String, detail: String },
    InvalidSelections(String),
}

#[verifier::ext_equal]
pub enum StoreErrorView {
    Io { path: Seq<char>, source: Seq<char> },
    InvalidManifest { path: Seq<char>, message: Seq<char> },
    NotInstalled(Seq<char>),
    RuntimeInUse(Seq<char>),
    RuntimeSelected { runtime_id: Seq<char>, selection: Seq<char> },
    ExternalRuntime(Seq<char>),
    UnsafePath(Seq<char>),
    ProvenanceConflict { runtime_id: Seq<char>, detail: Seq<char> },
    InvalidSelections(Seq<char>),
}

impl View for RuntimeStoreError {
    type V = StoreErrorView;

    open spec fn view(&self) -> StoreErrorView {
        match self {
            RuntimeStoreError::Io { path, source } => StoreErrorView::Io {
                path: path@,
                source: source@,
            },
            RuntimeStoreError::InvalidManifest { path, message } => {
                StoreErrorView::InvalidManifest { path: path@, message: message@ }
            },
            RuntimeStoreError::NotInstalled(id) => StoreErrorView::NotInstalled(id@),
            RuntimeStoreError::RuntimeInUse(id) => StoreErrorView::RuntimeInUse(id@),
            RuntimeStoreError::RuntimeSelected { runtime_id, selection } => {
                StoreErrorView::RuntimeSelected {
                    runtime_id: runtime_id@,
                    selection: selection@,
                }
            },
            RuntimeStoreError::ExternalRuntime(id) => StoreErrorView::ExternalRuntime(id@),
            RuntimeStoreError::UnsafePath(path) => StoreErrorView::UnsafePath(path@),
            RuntimeStoreError::ProvenanceConflict { runtime_id, detail } => {
                StoreErrorView::ProvenanceConflict { runtime_id: runtime_id@, detail: detail@ }
            },
            RuntimeStoreError::InvalidSelections(detail) => StoreErrorView::InvalidSelections(
                detail@,
            ),
        }
    }
}

impl StoreErrorView {
    pub open spec fn text(self) -> Seq<char> {
        match self {
            StoreErrorView::Io { path, source } => "runtime store I/O failed at "@ + path + ": "@
                + source,
            StoreErrorView::InvalidManifest { path, message } => "runtime manifest at "@ + path
                + " is invalid: "@ + message,
            StoreErrorView::NotInstalled(id) => "runtime `"@ + id + "` is not installed"@,
            StoreErrorView::RuntimeInUse(id) => "runtime `"@ + id
                + "` is leased by a loading or running backend"@,
            StoreErrorView::RuntimeSelected { runtime_id, selection } => "runtime `"@ + runtime_id
                + "` is selected for "@ + selection,
            StoreErrorView::ExternalRuntime(id) => "external runtime `"@ + id
                + "` is unmanaged and cannot be removed by Norted"@,
            StoreErrorView::UnsafePath(path) => "runtime path failed the store containment check: "@
                + path,
            StoreErrorView::ProvenanceConflict { runtime_id, detail } => "runtime `"@ + runtime_id
                + "` has a provenance conflict: "@ + detail,
            StoreErrorView::InvalidSelections(detail) => "runtime selections are invalid: "@
                + detail,
        }
    }

    /// What the error is to those who ask for a removal.
    pub open spec fn removal_error(self, runtime_id: Seq<char>) -> PackErrorView {
        match self {
            StoreErrorView::RuntimeInUse(_) => PackErrorView::Active(runtime_id),
            StoreErrorView::RuntimeSelected { runtime_id, selection } => PackErrorView::Selected {
                runtime_id,
                selection,
            },
            error => PackErrorView::Other(error.text()),
        }
    }
}

impl RuntimeStoreError {
    pub fn message(&self) -> (result: String)
        ensures
            result@ == self@.text(),
    {
        match self {
            RuntimeStoreError::Io { path, source } => cat4(
                "runtime store I/O failed at ",
                path.as_str(),
                ": ",
                source.as_str(),
            ),
            RuntimeStoreError::InvalidManifest { path, message } => cat4(
                "runtime manifest at ",
                path.as_str(),
                " is invalid: ",
                message.as_str(),
            ),
            RuntimeStoreError::NotInstalled(id) => cat3(
                "runtime `",
                id.as_str(),
                "` is not installed",
            ),
            RuntimeStoreError::RuntimeInUse(id) => cat3(
                "runtime `",
                id.as_str(),
                "` is leased by a loading or running backend",
            ),
            RuntimeStoreError::RuntimeSelected { runtime_id, selection } => cat4(
                "runtime `",
                runtime_id.as_str(),
                "` is selected for ",
                selection.as_str(),
            ),
            RuntimeStoreError::ExternalRuntime(id) => cat3(
                "external runtime `",
                id.as_str(),
                "` is unmanaged and cannot be removed by Norted",
            ),
            RuntimeStoreError::UnsafePath(path) => cat2(
                "runtime path failed the store containment check: ",
                path.as_str(),
            ),
            RuntimeStoreError::ProvenanceConflict { runtime_id, detail } => cat4(
                "runtime `",
                runtime_id.as_str(),
                "` has a provenance conflict: ",
                detail.as_str(),
            ),
            RuntimeStoreError::InvalidSelections(detail) => cat2(
                "runtime selections are invalid: ",
                detail.as_str(),
            ),
        }
    }

    pub fn into_removal_error(self, runtime_id: &str) -> (result: RuntimePackError)
        ensures
            result@ == self@.removal_error(runtime_id@),
    {
        match self {
            RuntimeStoreError::RuntimeInUse(_) => RuntimePackError::Active(runtime_id.to_owned()),
            RuntimeStoreError::RuntimeSelected { runtime_id, selection } => {
                RuntimePackError::Selected { runtime_id, selection }
            },
            error => RuntimePackError::Other(error.message()),
        }
    }
}

/// Whether a runtime may be removed at all: not while it is the one that runs.
pub fn admit_removal(runtime_id: &str, active_runtime: &Option<String>) -> (result: Result<
    (),
    RuntimePackError,
>)
    ensures
        match result {
            Ok(()) => optional(*active_runtime) != Some(runtime_id@),
            Err(error) => optional(*active_runtime) == Some(runtime_id@) && error@
                == PackErrorView::Active(runtime_id@),
        },
{
    match active_runtime {
        Some(active) => {
            if same(active.as_str(), runtime_id) {
                return Err(RuntimePackError::Active(runtime_id.to_owned()));
            }
        },
        None => {},
    }
    Ok(())
}

/// Where runtimes are kept, and the file of the selections.
#[derive(Debug)]
pub struct RuntimeStore {
    root: String,
    selections_file: String,
}

impl RuntimeStore {
    pub closed spec fn place(&self) -> Seq<char> {
        self.root@
    }

    pub closed spec fn selections_place(&self) -> Seq<char> {
        self.selections_file@
    }

    pub fn new(runtimes_dir: &str, runtime_selections_file: &str) -> (result: RuntimeStore)
        ensures
            result.place() == runtimes_dir@,
            result.selections_place() == runtime_selections_file@,
    {
        RuntimeStore {
            root: runtimes_dir.to_owned(),
            selections_file: runtime_selections_file.to_owned(),
        }
    }

    pub fn root(&self) -> (result: &str)
        ensures
            result@ == self.place(),
    {
        self.root.as_str()
    }

    pub fn selections_file(&self) -> (result: &str)
        ensures
            result@ == self.selections_place(),
    {
        self.selections_file.as_str()
    }
}

/// Whether a character can stand in a name in the store.
pub open spec fn is_segment_char(c: char) -> bool {
    ('a' <= c && c <= 'z') || ('0' <= c && c <= '9') || c == '.' || c == '_' || c == '-'
}

/// The character that stands for one in a name in the store.
pub open spec fn segment_char(c: char) -> char {
    if is_segment_char(lower(c)) {
        lower(c)
    } else {
        '-'
    }
}

pub open spec fn is_edge(c: char) -> bool {
    c == '.' || c == '-'
}

/// A text without the dots and dashes that it begins with.
pub open spec fn without_front_edge(text: Seq<char>) -> Seq<char>
    decreases text.len(),
{
    if text.len() > 0 && is_edge(text[0]) {
        without_front_edge(text.skip(1))
    } else {
        text
    }
}

/// A text without the dots and dashes that it ends with.
pub open spec fn without_back_edge(text: Seq<char>) -> Seq<char>
    decreases text.len(),
{
    if text.len() > 0 && is_edge(text.last()) {
        without_back_edge(text.drop_last())
    } else {
        text
    }
}

/// The name in the store that stands for a text.
pub open spec fn segment(value: Seq<char>) -> Seq<char> {
    let plain = without_back_edge(
        without_front_edge(value.map_values(|c: char| segment_char(c))),
    );
    if plain.len() == 0 {
        "unknown"@
    } else {
        plain
    }
}

fn to_segment_char(c: char) -> (result: char)
    ensures
        result == segment_char(c),
{
    let small = lower_char(c);
    if ('a' <= small && small <= 'z') || ('0' <= small && small <= '9') || small == '.' || small
        == '_' || small == '-' {
        small
    } else {
        '-'
    }
}

proof fn lemma_front_edge(text: Seq<char>, from: int)
    requires
        0 <= from <= text.len(),
        forall|i: int| 0 <= i < from ==> is_edge(#[trigger] text[i]),
        from < text.len() ==> !is_edge(text[from]),
    ensures
        without_front_edge(text) == text.skip(from),
    decreases from,
{
    if from > 0 {
        let rest = text.skip(1);
        assert(is_edge(text[0]));
        assert forall|i: int| 0 <= i < from - 1 implies is_edge(#[trigger] rest[i]) by {
            assert(rest[i] == text[i + 1]);
        }
        lemma_front_edge(rest, from - 1);
        assert(rest.skip(from - 1) =~= text.skip(from));
    } else {
        assert(text.skip(0) =~= text);
    }
}

proof fn lemma_back_edge(text: Seq<char>, to: int)
    requires
        0 <= to <= text.len(),
        forall|i: int| to <= i < text.len() ==> is_edge(#[trigger] text[i]),
        to > 0 ==> !is_edge(text[to - 1]),
    ensures
        without_back_edge(text) == text.take(to),
    decreases text.len() - to,
{
    if to < text.len() {
        let rest = text.drop_last();
        assert(is_edge(text[text.len() - 1]));
        assert forall|i: int| to <= i < rest.len() implies is_edge(#[trigger] rest[i]) by {
            assert(rest[i] == text[i]);
        }
        lemma_back_edge(rest, to);
        assert(rest.take(to) =~= text.take(to));
    } else {
        assert(text.take(to) =~= text);
    }
}

pub fn safe_segment(value: &str) -> (result: String)
    ensures
        result@ == segment(value@),
{
    let chars = chars_of(value);
    let ghost goal = value@.map_values(|c: char| segment_char(c));
    let mut plain: Vec<char> = Vec::new();
    let mut i: usize = 0;
    while i < chars.len()
        invariant
            i <= chars.len(),
            chars@ == value@,
            goal == value@.map_values(|c: char| segment_char(c)),
            plain@ =~= goal.take(i as int),
        decreases chars.len() - i,
    {
        plain.push(to_segment_char(chars[i]));
        i += 1;
    }
    proof {
        assert(goal.take(goal.len() as int) =~= goal);
    }
    let mut from: usize = 0;
    while from < plain.len() && (plain[from] == '.' || plain[from] == '-')
        invariant
            from <= plain.len(),
            forall|k: int| 0 <= k < from ==> is_edge(#[trigger] plain@[k]),
        decreases plain.len() - from,
    {
        from += 1;
    }
    let mut to: usize = plain.len();
    while to > from && (plain[to - 1] == '.' || plain[to - 1] == '-')
        invariant
            from <= to <= plain.len(),
            forall|k: int| to <= k < plain.len() ==> is_edge(#[trigger] plain@[k]),
        decreases to,
    {
        to -= 1;
    }
    let text = text_between(&plain, from, to);
    proof {
        lemma_front_edge(goal, from as int);
        let rest = goal.skip(from as int);
        assert forall|k: int| to - from <= k < rest.len() implies is_edge(#[trigger] rest[k]) by {
            assert(rest[k] == plain@[from + k]);
        }
        if to > from {
            assert(rest[to - from - 1] == plain@[to - 1]);
        }
        lemma_back_edge(rest, to - from);
        assert(rest.take(to - from) =~= plain@.subrange(from as int, to as int));
    }
    if from == to {
        "unknown".to_owned()
    } else {
        text
    }
}

proof fn lemma_no_edges(text: Seq<char>)
    requires
        text.len() > 0,
        !is_edge(text[0]),
        !is_edge(text.last()),
    ensures
        without_back_edge(without_front_edge(text)) == text,
{
}

proof fn lemma_trimmed(text: Seq<char>)
    ensures
        ({
            let end = without_back_edge(without_front_edge(text));
            &&& end.len() > 0 ==> !is_edge(end[0]) && !is_edge(end.last())
            &&& forall|i: int|
                0 <= i < end.len() ==> exists|j: int|
                    0 <= j < text.len() && text[j] == #[trigger] end[i]
        }),
{
    lemma_front_part(text);
    lemma_back_part(without_front_edge(text));
    let end = without_back_edge(without_front_edge(text));
    assert forall|i: int| 0 <= i < end.len() implies exists|j: int|
        0 <= j < text.len() && text[j] == #[trigger] end[i] by {
        let front = without_front_edge(text);
        assert(front[i] == end[i]);
        let j = text.len() - front.len() + i;
        assert(text[j] == front[i]);
    }
}

proof fn lemma_front_part(text: Seq<char>)
    ensures
        without_front_edge(text).len() <= text.len(),
        without_front_edge(text) == text.skip(text.len() - without_front_edge(text).len()),
        without_front_edge(text).len() > 0 ==> !is_edge(without_front_edge(text)[0]),
    decreases text.len(),
{
    if text.len() > 0 && is_edge(text[0]) {
        lemma_front_part(text.skip(1));
        let end = without_front_edge(text);
        assert(text.skip(1).skip(text.len() - 1 - end.len()) =~= text.skip(text.len() - end.len()));
    } else {
        assert(text.skip(0) =~= text);
    }
}

proof fn lemma_back_part(text: Seq<char>)
    ensures
        without_back_edge(text).len() <= text.len(),
        without_back_edge(text) == text.take(without_back_edge(text).len() as int),
        without_back_edge(text).len() > 0 ==> !is_edge(without_back_edge(text).last()),
    decreases text.len(),
{
    if text.len() > 0 && is_edge(text.last()) {
        lemma_back_part(text.drop_last());
        let end = without_back_edge(text);
        assert(text.drop_last().take(end.len() as int) =~= text.take(end.len() as int));
    } else {
        assert(text.take(text.len() as int) =~= text);
    }
}

/// A name in the store is never empty, holds only small letters, digits, dots, underscores and
/// dashes, neither begins nor ends with a dot or a dash, and stands for itself.
pub proof fn law_segments_are_safe(value: Seq<char>)
    ensures
        segment(value).len() > 0,
        forall|i: int| 0 <= i < segment(value).len() ==> is_segment_char(#[trigger] segment(value)[i]),
        !is_edge(segment(value)[0]),
        !is_edge(segment(value).last()),
        segment(segment(value)) == segment(value),
{
    reveal_strlit("unknown");
    let mapped = value.map_values(|c: char| segment_char(c));
    let plain = without_back_edge(without_front_edge(mapped));
    lemma_trimmed(mapped);
    let end = segment(value);
    assert forall|i: int| 0 <= i < end.len() implies is_segment_char(#[trigger] end[i]) by {
        if plain.len() > 0 {
            let j = choose|j: int| 0 <= j < mapped.len() && mapped[j] == plain[i];
            assert(mapped[j] == segment_char(value[j]));
        }
    }
    assert(end.map_values(|c: char| segment_char(c)) =~= end);
    lemma_no_edges(end);
}

/// Where a runtime belongs in the store: by engine, by platform and variant, by version, by
/// identifier.
pub open spec fn home(manifest: ManifestView) -> Seq<Seq<char>> {
    let identity = manifest.identity;
    seq![
        segment(identity.engine_id),
        segment(
            identity.platform + "-"@ + identity.architecture + "-"@ + identity.accelerator + "-"@
                + identity.variant,
        ),
        segment(identity.version),
        manifest.runtime_id,
    ]
}

/// The names that lead from the root of the store to a runtime.
pub fn installation_path_for(manifest: &RuntimeManifest) -> (result: Vec<String>)
    ensures
        views(result@) == home(manifest@),
{
    let identity = &manifest.identity;
    let variant = cat7(
        identity.platform.as_str(),
        "-",
        identity.architecture.as_str(),
        "-",
        identity.accelerator.as_str(),
        "-",
        identity.variant.as_str(),
    );
    let result = vec![
        safe_segment(identity.engine_id.as_str()),
        safe_segment(variant.as_str()),
        safe_segment(identity.version.as_str()),
        manifest.runtime_id.clone(),
    ];
    proof {
        assert(views(result@) =~= home(manifest@));
    }
    result
}

/// The names that the store keeps for itself.
pub open spec fn is_internal(name: Seq<char>) -> bool {
    name == ".staging"@ || name == ".locks"@ || name == ".trash"@
}

pub fn is_internal_store_segment(name: &str) -> (result: bool)
    ensures
        result == is_internal(name@),
{
    same(name, ".staging") || same(name, ".locks") || same(name, ".trash")
}

/// No runtime's home is one of the names that the store keeps for itself.
pub proof fn law_homes_are_not_internal(manifest: ManifestView)
    ensures
        !is_internal(home(manifest)[0]),
        !is_internal(home(manifest)[1]),
        !is_internal(home(manifest)[2]),
{
    reveal_strlit(".staging");
    reveal_strlit(".locks");
    reveal_strlit(".trash");
    let identity = manifest.identity;
    law_segments_are_safe(identity.engine_id);
    law_segments_are_safe(
        identity.platform + "-"@ + identity.architecture + "-"@ + identity.accelerator + "-"@
            + identity.variant,
    );
    law_segments_are_safe(identity.version);
}

/// A step of a path: down to a name, or anywhere else.
#[derive(Debug)]
pub enum PathStep {
    Name(String),
    Other,
}

/// Whether a step goes down to a name that is not the store's own.
pub open spec fn leads_down(step: PathStep) -> bool {
    match step {
        PathStep::Name(name) => !is_internal(name@),
        PathStep::Other => false,
    }
}

fn check_leads_down(steps: &Vec<PathStep>) -> (result: bool)
    ensures
        result == forall|i: int| 0 <= i < steps@.len() ==> leads_down(#[trigger] steps@[i]),
{
    let mut i: usize = 0;
    while i < steps.len()
        invariant
            i <= steps.len(),
            forall|k: int| 0 <= k < i ==> leads_down(#[trigger] steps@[k]),
        decreases steps.len() - i,
    {
        let fine = match &steps[i] {
            PathStep::Name(name) => !is_internal_store_segment(name.as_str()),
            PathStep::Other => false,
        };
        if !fine {
            assert(!leads_down(steps@[i as int]));
            return false;
        }
        i += 1;
    }
    true
}

/// Whether the steps from the root of the store lead to where a runtime can be: four names down, none
/// of them the store's own.
pub fn is_managed_place(steps: &Vec<PathStep>) -> (result: bool)
    ensures
        result == (steps@.len() == 4 && forall|i: int|
            0 <= i < steps@.len() ==> leads_down(#[trigger] steps@[i])),
{
    steps.len() == 4 && check_leads_down(steps)
}

/// Whether the steps from the root of the store lead to a directory that runtimes can stand under.
pub fn is_managed_parent(steps: &Vec<PathStep>) -> (result: bool)
    ensures
        result == forall|i: int| 0 <= i < steps@.len() ==> leads_down(#[trigger] steps@[i]),
{
    check_leads_down(steps)
}

/// Whether one place is properly inside another, by the parts of their resolved paths.
pub open spec fn inside(place: Seq<Seq<char>>, root: Seq<Seq<char>>) -> bool {
    root.len() < place.len() && place.take(root.len() as int) == root
}

pub fn is_inside(place: &Vec<String>, root: &Vec<String>) -> (result: bool)
    ensures
        result == inside(views(place@), views(root@)),
{
    let ghost (a, b) = (views(place@), views(root@));
    if place.len() <= root.len() {
        return false;
    }
    let mut i: usize = 0;
    while i < root.len()
        invariant
            i <= root.len(),
            root.len() < place.len(),
            a == views(place@),
            b == views(root@),
            forall|k: int| 0 <= k < i ==> #[trigger] a[k] == b[k],
        decreases root.len() - i,
    {
        proof {
            assert(a[i as int] == place@[i as int]@);
            assert(b[i as int] == root@[i as int]@);
        }
        if !same(place[i].as_str(), root[i].as_str()) {
            assert(a.take(b.len() as int)[i as int] != b[i as int]);
            return false;
        }
        i += 1;
    }
    assert(a.take(b.len() as int) =~= b);
    true
}

/// Whether a directory of the store's own is where it should be: inside its parent, which is inside
/// the root.
pub fn is_internal_place(
    directory: &Vec<String>,
    parent: &Vec<String>,
    root: &Vec<String>,
) -> (result: bool)
    ensures
        result == (inside(views(parent@), views(root@)) && inside(
            views(directory@),
            views(parent@),
        )),
{
    is_inside(parent, root) && is_inside(directory, parent)
}

/// What is inside a place that is inside another is inside that other.
pub proof fn law_inside_chains(a: Seq<Seq<char>>, b: Seq<Seq<char>>, c: Seq<Seq<char>>)
    ensures
        inside(a, b) && inside(b, c) ==> inside(a, c),
        !inside(a, a),
{
    if inside(a, b) && inside(b, c) {
        assert(a.take(c.len() as int) =~= a.take(b.len() as int).take(c.len() as int));
    }
}

/// Whether a record may replace one that is there: all but what was seen when it was tried and how
/// it was built must be the same.
pub open spec fn repairs(existing: ManifestView, candidate: ManifestView) -> bool {
    &&& existing.schema_version == candidate.schema_version
    &&& existing.runtime_id == candidate.runtime_id
    &&& existing.identity == candidate.identity
    &&& existing.supported_formats == candidate.supported_formats
    &&& existing.requirements == candidate.requirements
    &&& existing.acquisition_method == candidate.acquisition_method
    &&& existing.source_url == candidate.source_url
    &&& existing.downloaded_archive_sha256 == candidate.downloaded_archive_sha256
    &&& existing.additional_downloaded_archive_sha256
        == candidate.additional_downloaded_archive_sha256
    &&& parts(existing.entrypoint) == parts(candidate.entrypoint)
    &&& existing.entrypoint_sha256 == candidate.entrypoint_sha256
}

pub fn repairable_runtime_manifest(
    existing: &RuntimeManifest,
    candidate: &RuntimeManifest,
) -> (result: bool)
    ensures
        result == repairs(existing@, candidate@),
{
    existing.schema_version == candidate.schema_version && same(
        existing.runtime_id.as_str(),
        candidate.runtime_id.as_str(),
    ) && existing.identity.same_as(&candidate.identity) && same_list(
        &existing.supported_formats,
        &candidate.supported_formats,
    ) && same(existing.requirements.as_str(), candidate.requirements.as_str())
        && existing.acquisition_method == candidate.acquisition_method && same_optional(
        &existing.source_url,
        &candidate.source_url,
    ) && same_optional(
        &existing.downloaded_archive_sha256,
        &candidate.downloaded_archive_sha256,
    ) && same_list(
        &existing.additional_downloaded_archive_sha256,
        &candidate.additional_downloaded_archive_sha256,
    ) && same_path(existing.entrypoint.as_str(), candidate.entrypoint.as_str()) && same(
        existing.entrypoint_sha256.as_str(),
        candidate.entrypoint_sha256.as_str(),
    )
}

/// How a record differs from the one that is installed.
pub open spec fn difference(existing: ManifestView, candidate: ManifestView) -> Seq<char> {
    match (existing.downloaded_archive_sha256, candidate.downloaded_archive_sha256) {
        (Some(installed), Some(found)) if installed != found => {
            "the same immutable release asset now advertises archive digest "@ + found
                + ", but the installed digest is "@ + installed
        },
        _ => if existing.additional_downloaded_archive_sha256
            != candidate.additional_downloaded_archive_sha256 {
            "one or more required component archive digests changed"@
        } else if existing.entrypoint_sha256 != candidate.entrypoint_sha256 {
            "the entrypoint digest changed from "@ + existing.entrypoint_sha256 + " to "@
                + candidate.entrypoint_sha256
        } else {
            "the immutable runtime manifest differs from the installed record"@
        },
    }
}

pub fn provenance_difference(existing: &RuntimeManifest, candidate: &RuntimeManifest) -> (result:
    String)
    ensures
        result@ == difference(existing@, candidate@),
{
    match (&existing.downloaded_archive_sha256, &candidate.downloaded_archive_sha256) {
        (Some(installed), Some(found)) => {
            if !same(installed.as_str(), found.as_str()) {
                return cat4(
                    "the same immutable release asset now advertises archive digest ",
                    found.as_str(),
                    ", but the installed digest is ",
                    installed.as_str(),
                );
            }
        },
        _ => {},
    }
    if !same_list(
        &existing.additional_downloaded_archive_sha256,
        &candidate.additional_downloaded_archive_sha256,
    ) {
        "one or more required component archive digests changed".to_owned()
    } else if !same(
        existing.entrypoint_sha256.as_str(),
        candidate.entrypoint_sha256.as_str(),
    ) {
        cat4(
            "the entrypoint digest changed from ",
            existing.entrypoint_sha256.as_str(),
            " to ",
            candidate.entrypoint_sha256.as_str(),
        )
    } else {
        "the immutable runtime manifest differs from the installed record".to_owned()
    }
}

/// The further files of a package by name and role.
pub open spec fn named_roles(assets: Seq<AssetView>) -> Seq<(Seq<char>, Seq<char>)> {
    assets.map_values(|asset: AssetView| (asset.asset_name, asset.role))
}

/// Whether two records claim to be of the same release.
pub open spec fn same_claim(left: ManifestView, right: ManifestView) -> bool {
    let (a, b) = (left.identity, right.identity);
    &&& a.engine_id == b.engine_id
    &&& a.package_family == b.package_family
    &&& a.version == b.version
    &&& a.platform == b.platform
    &&& a.architecture == b.architecture
    &&& a.accelerator == b.accelerator
    &&& a.variant == b.variant
    &&& a.package.provider_id == b.package.provider_id
    &&& a.package.repository == b.package.repository
    &&& a.package.release_tag == b.package.release_tag
    &&& a.package.asset_name == b.package.asset_name
    &&& named_roles(a.package.additional_assets) == named_roles(b.package.additional_assets)
}

fn same_named_roles(a: &Vec<RuntimePackageAsset>, b: &Vec<RuntimePackageAsset>) -> (result: bool)
    ensures
        result == (named_roles(views(a@)) == named_roles(views(b@))),
{
    let ghost (x, y) = (named_roles(views(a@)), named_roles(views(b@)));
    if a.len() != b.len() {
        assert(x.len() != y.len());
        return false;
    }
    let mut i: usize = 0;
    while i < a.len()
        invariant
            i <= a.len(),
            a.len() == b.len(),
            x == named_roles(views(a@)),
            y == named_roles(views(b@)),
            forall|k: int| 0 <= k < i ==> #[trigger] x[k] == y[k],
        decreases a.len() - i,
    {
        proof {
            assert(views(a@)[i as int] == a@[i as int]@);
            assert(views(b@)[i as int] == b@[i as int]@);
        }
        if !(same(a[i].asset_name.as_str(), b[i].asset_name.as_str()) && same(
            a[i].role.as_str(),
            b[i].role.as_str(),
        )) {
            assert(x[i as int] != y[i as int]);
            return false;
        }
        assert(x[i as int] == y[i as int]);
        i += 1;
    }
    assert(x =~= y);
    true
}

pub fn same_claimed_release_identity(left: &RuntimeManifest, right: &RuntimeManifest) -> (result:
    bool)
    ensures
        result == same_claim(left@, right@),
{
    let a = &left.identity;
    let b = &right.identity;
    same(a.engine_id.as_str(), b.engine_id.as_str()) && same(
        a.package_family.as_str(),
        b.package_family.as_str(),
    ) && same(a.version.as_str(), b.version.as_str()) && same(
        a.platform.as_str(),
        b.platform.as_str(),
    ) && same(a.architecture.as_str(), b.architecture.as_str()) && same(
        a.accelerator.as_str(),
        b.accelerator.as_str(),
    ) && same(a.variant.as_str(), b.variant.as_str()) && same(
        a.package.provider_id.as_str(),
        b.package.provider_id.as_str(),
    ) && same_optional(&a.package.repository, &b.package.repository) && same_optional(
        &a.package.release_tag,
        &b.package.release_tag,
    ) && same_optional(&a.package.asset_name, &b.package.asset_name) && same_named_roles(
        &a.package.additional_assets,
        &b.package.additional_assets,
    )
}

/// The first runtime with an identifier, by its place.
pub open spec fn runtime_at(runtimes: Seq<RuntimeView>, id: Seq<char>) -> Option<int>
    decreases runtimes.len(),
{
    if runtimes.len() == 0 {
        None
    } else {
        match runtime_at(runtimes.drop_last(), id) {
            Some(at) => Some(at),
            None => if runtimes.last().manifest.runtime_id == id {
                Some(runtimes.len() - 1)
            } else {
                None
            },
        }
    }
}

/// The first runtime that claims to be of the same release, by its place.
pub open spec fn claimed_at(runtimes: Seq<RuntimeView>, manifest: ManifestView) -> Option<int>
    decreases runtimes.len(),
{
    if runtimes.len() == 0 {
        None
    } else {
        match claimed_at(runtimes.drop_last(), manifest) {
            Some(at) => Some(at),
            None => if same_claim(runtimes.last().manifest, manifest) {
                Some(runtimes.len() - 1)
            } else {
                None
            },
        }
    }
}

pub fn find_runtime(runtimes: &Vec<InstalledRuntime>, id: &str) -> (result: Option<usize>)
    ensures
        match (result, runtime_at(views(runtimes@), id@)) {
            (Some(i), Some(at)) => i == at && i < runtimes@.len(),
            (None, None) => true,
            _ => false,
        },
{
    let ghost all = views(runtimes@);
    let mut found: Option<usize> = None;
    let mut i: usize = 0;
    while i < runtimes.len()
        invariant
            i <= runtimes.len(),
            all == views(runtimes@),
            match (found, runtime_at(all.take(i as int), id@)) {
                (Some(b), Some(at)) => b == at && b < i,
                (None, None) => true,
                _ => false,
            },
        decreases runtimes.len() - i,
    {
        proof {
            assert(all.take(i + 1).drop_last() =~= all.take(i as int));
            assert(all.take(i + 1).last() == runtimes@[i as int]@);
        }
        if found.is_none() && same(runtimes[i].manifest.runtime_id.as_str(), id) {
            found = Some(i);
        }
        i += 1;
    }
    proof {
        assert(all.take(all.len() as int) =~= all);
    }
    found
}

fn find_claim(runtimes: &Vec<InstalledRuntime>, manifest: &RuntimeManifest) -> (result: Option<
    usize,
>)
    ensures
        match (result, claimed_at(views(runtimes@), manifest@)) {
            (Some(i), Some(at)) => i == at && i < runtimes@.len(),
            (None, None) => true,
            _ => false,
        },
{
    let ghost all = views(runtimes@);
    let mut found: Option<usize> = None;
    let mut i: usize = 0;
    while i < runtimes.len()
        invariant
            i <= runtimes.len(),
            all == views(runtimes@),
            match (found, claimed_at(all.take(i as int), manifest@)) {
                (Some(b), Some(at)) => b == at && b < i,
                (None, None) => true,
                _ => false,
            },
        decreases runtimes.len() - i,
    {
        proof {
            assert(all.take(i + 1).drop_last() =~= all.take(i as int));
            assert(all.take(i + 1).last() == runtimes@[i as int]@);
        }
        if found.is_none() && same_claimed_release_identity(&runtimes[i].manifest, manifest) {
            found = Some(i);
        }
        i += 1;
    }
    proof {
        assert(all.take(all.len() as int) =~= all);
    }
    found
}

/// Whether a runtime may be put in the store next to those that are there: it is there already, it
/// may be, or it conflicts with one that is.
pub open spec fn activation(
    runtimes: Seq<RuntimeView>,
    manifest: ManifestView,
) -> Result<Option<int>, StoreErrorView> {
    match runtime_at(runtimes, manifest.runtime_id) {
        Some(at) => if runtimes[at].manifest.equals(manifest) {
            Ok(Some(at))
        } else {
            Err(
                StoreErrorView::ProvenanceConflict {
                    runtime_id: manifest.runtime_id,
                    detail: difference(runtimes[at].manifest, manifest),
                },
            )
        },
        None => match claimed_at(runtimes, manifest) {
            Some(at) => Err(
                StoreErrorView::ProvenanceConflict {
                    runtime_id: manifest.runtime_id,
                    detail: "upstream release/asset identity matches installed runtime `"@
                        + runtimes[at].manifest.runtime_id
                        + "`, but its asset identity or digest changed: "@ + difference(
                        runtimes[at].manifest,
                        manifest,
                    ),
                },
            ),
            None => Ok(None),
        },
    }
}

pub fn admit_activation(runtimes: &Vec<InstalledRuntime>, manifest: &RuntimeManifest) -> (result:
    Result<Option<usize>, RuntimeStoreError>)
    ensures
        match (result, activation(views(runtimes@), manifest@)) {
            (Ok(Some(i)), Ok(Some(at))) => i == at && i < runtimes@.len(),
            (Ok(None), Ok(None)) => true,
            (Err(error), Err(expected)) => error@ == expected,
            _ => false,
        },
{
    match find_runtime(runtimes, manifest.runtime_id.as_str()) {
        Some(at) => {
            let existing = &runtimes[at].manifest;
            proof {
                assert(views(runtimes@)[at as int] == runtimes@[at as int]@);
            }
            if existing.same_as(manifest) {
                return Ok(Some(at));
            }
            return Err(
                RuntimeStoreError::ProvenanceConflict {
                    runtime_id: manifest.runtime_id.clone(),
                    detail: provenance_difference(existing, manifest),
                },
            );
        },
        None => {},
    }
    match find_claim(runtimes, manifest) {
        Some(at) => {
            let existing = &runtimes[at].manifest;
            proof {
                assert(views(runtimes@)[at as int] == runtimes@[at as int]@);
            }
            Err(
                RuntimeStoreError::ProvenanceConflict {
                    runtime_id: manifest.runtime_id.clone(),
                    detail: cat4(
                        "upstream release/asset identity matches installed runtime `",
                        existing.runtime_id.as_str(),
                        "`, but its asset identity or digest changed: ",
                        provenance_difference(existing, manifest).as_str(),
                    ),
                },
            )
        },
        None => Ok(None),
    }
}

/// What is done with what stands where a runtime is to go.
#[derive(Debug, Clone, Copy, PartialEq, Eq, Structural)]
pub enum Displaced {
    /// The same runtime, to be repaired; it is discarded afterwards.
    Repair,
    /// Nothing that is known; it is kept aside.
    Orphan,
}

/// Whether what stands where a runtime is to go may be moved aside.
pub fn admit_replacement(
    existing: &Option<RuntimeManifest>,
    manifest: &RuntimeManifest,
    destination: &str,
) -> (result: Result<Displaced, RuntimeStoreError>)
    ensures
        match (result, optional(*existing)) {
            (Ok(displaced), None) => displaced == Displaced::Orphan,
            (Ok(displaced), Some(existing)) => displaced == Displaced::Repair && repairs(
                existing,
                manifest@,
            ),
            (Err(error), Some(existing)) => !repairs(existing, manifest@) && error@
                == (StoreErrorView::ProvenanceConflict {
                runtime_id: manifest@.runtime_id,
                detail: "activation directory contains a different immutable runtime manifest: "@
                    + destination@,
            }),
            (Err(_), None) => false,
        },
{
    match existing {
        Some(existing) => {
            if repairable_runtime_manifest(existing, manifest) {
                Ok(Displaced::Repair)
            } else {
                Err(
                    RuntimeStoreError::ProvenanceConflict {
                        runtime_id: manifest.runtime_id.clone(),
                        detail: cat2(
                            "activation directory contains a different immutable runtime manifest: ",
                            destination,
                        ),
                    },
                )
            }
        },
        None => Ok(Displaced::Orphan),
    }
}

impl Displaced {
    pub open spec fn name(self) -> Seq<char> {
        match self {
            Displaced::Repair => "repair"@,
            Displaced::Orphan => "orphan"@,
        }
    }

    /// What the place that it is moved to is called, with a fresh identifier.
    pub fn quarantine_name(self, identifier: &str) -> (result: String)
        ensures
            result@ == self.name() + "-"@ + identifier@,
    {
        let kind = match self {
            Displaced::Repair => "repair",
            Displaced::Orphan => "orphan",
        };
        cat3(kind, "-", identifier)
    }
}

/// Whether a runtime that is found in the store belongs there.
pub open spec fn belongs(
    manifest: ManifestView,
    at: Seq<Seq<char>>,
    path: Seq<char>,
    expected: Seq<char>,
) -> Result<(), StoreErrorView> {
    if manifest.acquisition_method == RuntimeAcquisitionMethod::ExternalBinary {
        Err(
            StoreErrorView::InvalidManifest {
                path,
                message: "external runtime manifests do not belong in the managed store"@,
            },
        )
    } else if at != home(manifest) {
        Err(
            StoreErrorView::InvalidManifest {
                path,
                message: "manifest is outside its exact identity-derived installation path "@
                    + expected,
            },
        )
    } else {
        Ok(())
    }
}

pub fn admit_found(
    manifest: &RuntimeManifest,
    at: &Vec<String>,
    path: &str,
    expected: &str,
) -> (result: Result<(), RuntimeStoreError>)
    ensures
        match (result, belongs(manifest@, views(at@), path@, expected@)) {
            (Ok(()), Ok(())) => true,
            (Err(error), Err(wanted)) => error@ == wanted,
            _ => false,
        },
{
    if manifest.acquisition_method == RuntimeAcquisitionMethod::ExternalBinary {
        return Err(
            RuntimeStoreError::InvalidManifest {
                path: path.to_owned(),
                message: "external runtime manifests do not belong in the managed store".to_owned(),
            },
        );
    }
    if !same_list(at, &installation_path_for(manifest)) {
        return Err(
            RuntimeStoreError::InvalidManifest {
                path: path.to_owned(),
                message: cat2(
                    "manifest is outside its exact identity-derived installation path ",
                    expected,
                ),
            },
        );
    }
    Ok(())
}

/// Whether the observed digest of an entrypoint is the recorded one, whatever the case of its
/// letters.
pub fn check_entrypoint(
    manifest: &RuntimeManifest,
    observed: &str,
    manifest_path: &str,
) -> (result: Result<(), RuntimeStoreError>)
    ensures
        match result {
            Ok(()) => ascii_lower(observed@) == ascii_lower(manifest@.entrypoint_sha256),
            Err(error) => ascii_lower(observed@) != ascii_lower(manifest@.entrypoint_sha256)
                && error@ == mismatch(manifest@, observed@, manifest_path@),
        },
{
    if same_ignoring_case(observed, manifest.entrypoint_sha256.as_str()) {
        Ok(())
    } else {
        Err(
            RuntimeStoreError::InvalidManifest {
                path: manifest_path.to_owned(),
                message: cat4(
                    "entrypoint SHA-256 mismatch: expected ",
                    manifest.entrypoint_sha256.as_str(),
                    ", observed ",
                    observed,
                ),
            },
        )
    }
}

/// Whether a record that is read again is still the one expected.
pub fn verify_exact_manifest(
    observed: &RuntimeManifest,
    expected: &RuntimeManifest,
    path: &str,
) -> (result: Result<(), RuntimeStoreError>)
    ensures
        match result {
            Ok(()) => observed@.equals(expected@),
            Err(error) => !observed@.equals(expected@) && error@ == (StoreErrorView::InvalidManifest {
                path: path@,
                message: "manifest changed between discovery and the exact removal transaction"@,
            }),
        },
{
    if observed.same_as(expected) {
        Ok(())
    } else {
        Err(
            RuntimeStoreError::InvalidManifest {
                path: path.to_owned(),
                message: "manifest changed between discovery and the exact removal transaction".to_owned(),
            },
        )
    }
}

/// The one directory to remove, of those with the name of a runtime.
pub fn removal_target(matches: &Vec<String>, runtime_id: &str, root: &str) -> (result: Result<
    String,
    RuntimeStoreError,
>)
    ensures
        match result {
            Ok(target) => matches@.len() == 1 && target@ == matches@[0]@,
            Err(error) => {
                ||| matches@.len() == 0 && error@ == StoreErrorView::NotInstalled(runtime_id@)
                ||| matches@.len() > 1 && error@ == StoreErrorView::UnsafePath(root@)
            },
        },
{
    if matches.len() == 0 {
        Err(RuntimeStoreError::NotInstalled(runtime_id.to_owned()))
    } else if matches.len() == 1 {
        Ok(matches[0].clone())
    } else {
        Err(RuntimeStoreError::UnsafePath(root.to_owned()))
    }
}

/// Whether the record in a directory shows that the directory is that of the runtime asked for.
pub fn check_ownership(
    manifest: &RuntimeManifest,
    runtime_id: &str,
    at: &Vec<String>,
    path: &str,
) -> (result: Result<(), RuntimeStoreError>)
    ensures
        match result {
            Ok(()) => manifest@.runtime_id == runtime_id@ && views(at@) == home(manifest@),
            Err(error) => !(manifest@.runtime_id == runtime_id@ && views(at@) == home(manifest@))
                && error@ == (StoreErrorView::InvalidManifest {
                path: path@,
                message: "manifest does not prove ownership of the requested exact runtime path"@,
            }),
        },
{
    if same(manifest.runtime_id.as_str(), runtime_id) && same_list(
        at,
        &installation_path_for(manifest),
    ) {
        Ok(())
    } else {
        Err(
            RuntimeStoreError::InvalidManifest {
                path: path.to_owned(),
                message: "manifest does not prove ownership of the requested exact runtime path".to_owned(),
            },
        )
    }
}

/// Whether a runtime may leave the store as far as the choices go.
pub fn check_unselected(selections: &RuntimeSelections, runtime_id: &str) -> (result: Result<
    (),
    RuntimeStoreError,
>)
    ensures
        match result {
            Ok(()) => !selections@.is_used(runtime_id@),
            Err(error) => selections@.uses(runtime_id@).len() > 0 && error@
                == (StoreErrorView::RuntimeSelected {
                runtime_id: runtime_id@,
                selection: selections@.uses(runtime_id@)[0],
            }),
        },
{
    match selection_for_runtime(selections, runtime_id) {
        Some(selection) => Err(
            RuntimeStoreError::RuntimeSelected { runtime_id: runtime_id.to_owned(), selection },
        ),
        None => Ok(()),
    }
}

/// Whether a runtime that was found may be removed: it is managed, and stands where it belongs.
pub fn check_removable(
    manifest: &RuntimeManifest,
    at: &Vec<String>,
    installation_root: &str,
) -> (result: Result<(), RuntimeStoreError>)
    ensures
        match result {
            Ok(()) => manifest@.acquisition_method != RuntimeAcquisitionMethod::ExternalBinary
                && views(at@) == home(manifest@),
            Err(error) => {
                ||| manifest@.acquisition_method == RuntimeAcquisitionMethod::ExternalBinary
                    && error@ == StoreErrorView::ExternalRuntime(manifest@.runtime_id)
                ||| manifest@.acquisition_method != RuntimeAcquisitionMethod::ExternalBinary
                    && views(at@) != home(manifest@) && error@ == StoreErrorView::UnsafePath(
                    installation_root@,
                )
            },
        },
{
    if manifest.acquisition_method == RuntimeAcquisitionMethod::ExternalBinary {
        return Err(RuntimeStoreError::ExternalRuntime(manifest.runtime_id.clone()));
    }
    if !same_list(at, &installation_path_for(manifest)) {
        return Err(RuntimeStoreError::UnsafePath(installation_root.to_owned()));
    }
    Ok(())
}

/// Whether stored selections are of the schema that is understood.
pub fn check_read_schema(found: u64, expected: u64) -> (result: Result<(), RuntimeStoreError>)
    ensures
        match result {
            Ok(()) => found == expected,
            Err(error) => found != expected && error@ == StoreErrorView::InvalidSelections(
                "schema "@ + decimal(found as nat) + " is unsupported; expected "@ + decimal(
                    expected as nat,
                ),
            ),
        },
{
    if found == expected {
        Ok(())
    } else {
        Err(
            RuntimeStoreError::InvalidSelections(
                cat4(
                    "schema ",
                    decimal_text(found).as_str(),
                    " is unsupported; expected ",
                    decimal_text(expected).as_str(),
                ),
            ),
        )
    }
}

/// Whether selections may be written.
pub fn check_written_schema(found: u64, expected: u64) -> (result: Result<(), RuntimeStoreError>)
    ensures
        match result {
            Ok(()) => found == expected,
            Err(error) => found != expected && error@ == StoreErrorView::InvalidSelections(
                "schema "@ + decimal(found as nat) + " is unsupported"@,
            ),
        },
{
    if found == expected {
        Ok(())
    } else {
        Err(
            RuntimeStoreError::InvalidSelections(
                cat3("schema ", decimal_text(found).as_str(), " is unsupported"),
            ),
        )
    }
}

/// How two runtimes stand in a scan: by engine, by variant, then the higher version first.
pub open spec fn scan_order(a: RuntimeView, b: RuntimeView) -> Order {
    text_order(a.manifest.identity.engine_id, b.manifest.identity.engine_id).or(
        text_order(a.manifest.identity.variant, b.manifest.identity.variant),
    ).or(text_order(b.manifest.identity.version, a.manifest.identity.version))
}

impl Precedes for InstalledRuntime {
    open spec fn before(a: RuntimeView, b: RuntimeView) -> bool {
        scan_order(a, b) == Order::Less
    }

    fn precedes(&self, other: &InstalledRuntime) -> (result: bool) {
        let left = &self.manifest.identity;
        let right = &other.manifest.identity;
        match compare_text(left.engine_id.as_str(), right.engine_id.as_str()).and_next(
            compare_text(left.variant.as_str(), right.variant.as_str()),
        ).and_next(compare_text(right.version.as_str(), left.version.as_str())) {
            Order::Less => true,
            _ => false,
        }
    }
}

/// The runtimes of a scan, as they are listed.
pub fn sort_scan(runtimes: Vec<InstalledRuntime>) -> (result: Vec<InstalledRuntime>)
    ensures
        views(result@) == sorted(
            views(runtimes@),
            |a: RuntimeView, b: RuntimeView| scan_order(a, b) == Order::Less,
        ),
{
    proof {
        assert(order_of::<InstalledRuntime>() =~= (|a: RuntimeView, b: RuntimeView|
            scan_order(a, b) == Order::Less));
    }
    sort(runtimes)
}

/// A record that was found in the store: where, and where it should be; whether its directory is one of
/// the store's own; and the digest of its entrypoint.
#[derive(Debug)]
pub struct FoundManifest {
    pub path: String,
    pub installation_root: String,
    pub at: Vec<String>,
    pub expected: String,
    pub manifest: RuntimeManifest,
    pub managed: Result<(), RuntimeStoreError>,
    pub entrypoint: Result<String, RuntimeStoreError>,
}

#[verifier::ext_equal]
pub struct FoundView {
    pub path: Seq<char>,
    pub installation_root: Seq<char>,
    pub at: Seq<Seq<char>>,
    pub expected: Seq<char>,
    pub manifest: ManifestView,
    pub managed: Result<(), StoreErrorView>,
    pub entrypoint: Result<Seq<char>, StoreErrorView>,
}

impl View for FoundManifest {
    type V = FoundView;

    open spec fn view(&self) -> FoundView {
        FoundView {
            path: self.path@,
            installation_root: self.installation_root@,
            at: views(self.at@),
            expected: self.expected@,
            manifest: self.manifest@,
            managed: match self.managed {
                Ok(()) => Ok(()),
                Err(error) => Err(error@),
            },
            entrypoint: match self.entrypoint {
                Ok(digest) => Ok(digest@),
                Err(error) => Err(error@),
            },
        }
    }
}

/// What is said of an entrypoint whose digest is not the recorded one.
pub open spec fn mismatch(manifest: ManifestView, observed: Seq<char>, path: Seq<char>) -> StoreErrorView {
    StoreErrorView::InvalidManifest {
        path,
        message: "entrypoint SHA-256 mismatch: expected "@ + manifest.entrypoint_sha256
            + ", observed "@ + observed,
    }
}

impl FoundView {
    /// The runtime that a record stands for, where it is in its place and its entrypoint is whole.
    pub open spec fn runtime(self) -> Result<RuntimeView, StoreErrorView> {
        match (belongs(self.manifest, self.at, self.path, self.expected), self.managed, self.entrypoint) {
            (Err(error), _, _) => Err(error),
            (Ok(()), Err(error), _) => Err(error),
            (Ok(()), Ok(()), Err(error)) => Err(error),
            (Ok(()), Ok(()), Ok(digest)) => if ascii_lower(digest) == ascii_lower(
                self.manifest.entrypoint_sha256,
            ) {
                Ok(
                    RuntimeView {
                        manifest: self.manifest,
                        installation_root: self.installation_root,
                        engine_variant: None,
                    },
                )
            } else {
                Err(mismatch(self.manifest, digest, self.path))
            },
        }
    }
}

impl FoundManifest {
    pub fn into_runtime(self) -> (result: Result<InstalledRuntime, RuntimeStoreError>)
        ensures
            match (result, self@.runtime()) {
                (Ok(runtime), Ok(expected)) => runtime@ == expected,
                (Err(error), Err(expected)) => error@ == expected,
                _ => false,
            },
    {
        match admit_found(&self.manifest, &self.at, self.path.as_str(), self.expected.as_str()) {
            Err(error) => {
                return Err(error);
            },
            Ok(()) => {},
        }
        match self.managed {
            Err(error) => {
                return Err(error);
            },
            Ok(()) => {},
        }
        let digest = match self.entrypoint {
            Err(error) => {
                return Err(error);
            },
            Ok(digest) => digest,
        };
        match check_entrypoint(&self.manifest, digest.as_str(), self.path.as_str()) {
            Err(error) => Err(error),
            Ok(()) => Ok(
                InstalledRuntime {
                    manifest: self.manifest,
                    installation_root: self.installation_root,
                    engine_variant: None,
                },
            ),
        }
    }
}

/// What a walk through the store comes by: a place that cannot be looked at, a record that cannot be
/// read, or a record.
#[derive(Debug)]
pub enum StoreEntry {
    Unseen(String),
    Unread(RuntimeStoreError),
    Found(FoundManifest),
}

#[verifier::ext_equal]
pub enum EntryView {
    Unseen(Seq<char>),
    Unread(StoreErrorView),
    Found(FoundView),
}

impl View for StoreEntry {
    type V = EntryView;

    open spec fn view(&self) -> EntryView {
        match self {
            StoreEntry::Unseen(warning) => EntryView::Unseen(warning@),
            StoreEntry::Unread(error) => EntryView::Unread(error@),
            StoreEntry::Found(found) => EntryView::Found(found@),
        }
    }
}

/// What a scan of the store found, what it could not take, and what it warns of.
#[derive(Debug)]
pub struct StoreScan {
    pub runtimes: Vec<InstalledRuntime>,
    pub issues: Vec<RuntimeStoreError>,
    pub warnings: Vec<String>,
}

#[verifier::ext_equal]
pub struct ScanView {
    pub runtimes: Seq<RuntimeView>,
    pub issues: Seq<StoreErrorView>,
    pub warnings: Seq<Seq<char>>,
}

impl View for StoreScan {
    type V = ScanView;

    open spec fn view(&self) -> ScanView {
        ScanView {
            runtimes: views(self.runtimes@),
            issues: views(self.issues@),
            warnings: views(self.warnings@),
        }
    }
}

impl ScanView {
    pub open spec fn empty() -> ScanView {
        ScanView { runtimes: Seq::empty(), issues: Seq::empty(), warnings: Seq::empty() }
    }

    /// With something that cannot be taken.
    pub open spec fn refusing(self, error: StoreErrorView) -> ScanView {
        ScanView {
            issues: self.issues.push(error),
            warnings: self.warnings.push(error.text()),
            ..self
        }
    }

    pub open spec fn with(self, entry: EntryView) -> ScanView {
        match entry {
            EntryView::Unseen(warning) => ScanView { warnings: self.warnings.push(warning), ..self },
            EntryView::Unread(error) => self.refusing(error),
            EntryView::Found(found) => match found.runtime() {
                Ok(runtime) => ScanView { runtimes: self.runtimes.push(runtime), ..self },
                Err(error) => self.refusing(error),
            },
        }
    }

    /// What some entries amount to, in the order in which they were come by.
    pub open spec fn of(entries: Seq<EntryView>) -> ScanView
        decreases entries.len(),
    {
        if entries.len() == 0 {
            ScanView::empty()
        } else {
            ScanView::of(entries.drop_last()).with(entries.last())
        }
    }

    /// With its runtimes as they are listed.
    pub open spec fn listed(self) -> ScanView {
        ScanView {
            runtimes: sorted(
                self.runtimes,
                |a: RuntimeView, b: RuntimeView| scan_order(a, b) == Order::Less,
            ),
            ..self
        }
    }
}

/// What a walk through the store amounts to.
pub fn scan_entries(entries: Vec<StoreEntry>) -> (result: StoreScan)
    ensures
        result@ == ScanView::of(views(entries@)).listed(),
{
    let ghost all = views(entries@);
    let ghost mut done: int = 0;
    let mut rest = entries;
    let mut runtimes: Vec<InstalledRuntime> = Vec::new();
    let mut issues: Vec<RuntimeStoreError> = Vec::new();
    let mut warnings: Vec<String> = Vec::new();
    proof {
        assert(all.skip(0) =~= all);
        assert(views(runtimes@) =~= Seq::empty());
        assert(views(issues@) =~= Seq::empty());
        assert(views(warnings@) =~= Seq::empty());
    }
    while rest.len() > 0
        invariant
            0 <= done <= all.len(),
            views(rest@) == all.skip(done),
            ScanView::of(all.take(done)) == (ScanView {
                runtimes: views(runtimes@),
                issues: views(issues@),
                warnings: views(warnings@),
            }),
        decreases rest.len(),
    {
        let ghost before = rest@;
        let entry = rest.remove(0);
        proof {
            assert(views(before)[0] == entry@);
            assert(views(before).len() == before.len());
            assert(all.skip(done)[0] == all[done]);
            assert(views(rest@) =~= views(before).skip(1));
            assert(all.skip(done).skip(1) =~= all.skip(done + 1));
            assert(all.take(done + 1).drop_last() =~= all.take(done));
            done = done + 1;
        }
        let refused = match entry {
            StoreEntry::Unseen(warning) => {
                proof {
                    lemma_views_push(warnings@, warning);
                }
                warnings.push(warning);
                None
            },
            StoreEntry::Unread(error) => Some(error),
            StoreEntry::Found(found) => match found.into_runtime() {
                Ok(runtime) => {
                    proof {
                        lemma_views_push(runtimes@, runtime);
                    }
                    runtimes.push(runtime);
                    None
                },
                Err(error) => Some(error),
            },
        };
        match refused {
            Some(error) => {
                let text = error.message();
                proof {
                    lemma_views_push(warnings@, text);
                    lemma_views_push(issues@, error);
                }
                warnings.push(text);
                issues.push(error);
            },
            None => {},
        }
    }
    proof {
        assert(all.take(done) =~= all);
    }
    StoreScan { runtimes: sort_scan(runtimes), issues, warnings }
}

impl ScanView {
    /// With what another scan came by after this one.
    pub open spec fn followed_by(self, next: ScanView) -> ScanView {
        ScanView {
            runtimes: self.runtimes + next.runtimes,
            issues: self.issues + next.issues,
            warnings: self.warnings + next.warnings,
        }
    }
}

proof fn lemma_scan_in_parts(first: Seq<EntryView>, second: Seq<EntryView>)
    ensures
        ScanView::of(first + second) == ScanView::of(first).followed_by(ScanView::of(second)),
    decreases second.len(),
{
    let all = ScanView::of(first + second);
    let parts = ScanView::of(first).followed_by(ScanView::of(second));
    if second.len() == 0 {
        assert(first + second =~= first);
    } else {
        lemma_scan_in_parts(first, second.drop_last());
        assert((first + second).drop_last() =~= first + second.drop_last());
    }
    assert(all.runtimes =~= parts.runtimes);
    assert(all.issues =~= parts.issues);
    assert(all.warnings =~= parts.warnings);
}

proof fn lemma_scan_of_one(entry: EntryView)
    ensures
        ScanView::of(seq![entry]) == ScanView::empty().with(entry),
{
    assert(seq![entry].drop_last() =~= Seq::<EntryView>::empty());
    assert(ScanView::of(seq![entry].drop_last()) == ScanView::empty());
}

/// A runtime whose entrypoint was overwritten is not listed, whatever else the store holds: the others
/// are listed as they were without it, and a warning speaks of its digest. Unless another runtime clashes
/// with it, it can be activated again from a copy with the same record, which replaces it as a repair.
/// Once its entrypoint has the recorded digest it is listed, and nothing warns of it.
pub proof fn law_overwritten_runtime_can_be_repaired(
    entries: Seq<EntryView>,
    i: int,
    found: FoundView,
    repaired: FoundView,
)
    requires
        0 <= i < entries.len(),
        entries[i] == EntryView::Found(found),
        belongs(found.manifest, found.at, found.path, found.expected) is Ok,
        found.managed is Ok,
        found.entrypoint is Ok,
        ascii_lower(found.entrypoint->Ok_0) != ascii_lower(found.manifest.entrypoint_sha256),
        repaired == (FoundView { entrypoint: repaired.entrypoint, ..found }),
        repaired.entrypoint is Ok,
        ascii_lower(repaired.entrypoint->Ok_0) == ascii_lower(found.manifest.entrypoint_sha256),
    ensures
        ({
            let broken = ScanView::of(entries).listed();
            let others = ScanView::of(entries.remove(i)).listed();
            let whole = ScanView::of(entries.update(i, EntryView::Found(repaired))).listed();
            let error = mismatch(found.manifest, found.entrypoint->Ok_0, found.path);
            &&& broken.runtimes == others.runtimes
            &&& broken.issues == others.issues.insert(
                ScanView::of(entries.take(i)).issues.len() as int,
                error,
            )
            &&& broken.warnings == others.warnings.insert(
                ScanView::of(entries.take(i)).warnings.len() as int,
                error.text(),
            )
            &&& holds(error.text(), "SHA-256"@)
            &&& runtime_at(others.runtimes, found.manifest.runtime_id) is None && claimed_at(
                others.runtimes,
                found.manifest,
            ) is None ==> activation(broken.runtimes, found.manifest) == Ok::<
                Option<int>,
                StoreErrorView,
            >(None)
            &&& repairs(found.manifest, found.manifest)
            &&& whole.runtimes.to_multiset() == others.runtimes.to_multiset().insert(
                RuntimeView {
                    manifest: found.manifest,
                    installation_root: found.installation_root,
                    engine_variant: None,
                },
            )
            &&& whole.issues == others.issues
            &&& whole.warnings == others.warnings
        }),
{
    broadcast use vstd::seq_lib::group_to_multiset_ensures;

    let first = entries.take(i);
    let last = entries.skip(i + 1);
    let one = seq![EntryView::Found(found)];
    let two = seq![EntryView::Found(repaired)];
    assert(entries =~= first + one + last);
    assert(entries.remove(i) =~= first + last);
    assert(entries.update(i, EntryView::Found(repaired)) =~= first + two + last);
    lemma_scan_in_parts(first, one);
    lemma_scan_in_parts(first + one, last);
    lemma_scan_in_parts(first, two);
    lemma_scan_in_parts(first + two, last);
    lemma_scan_in_parts(first, last);
    lemma_scan_of_one(EntryView::Found(found));
    lemma_scan_of_one(EntryView::Found(repaired));
    let before = ScanView::of(first);
    let after = ScanView::of(last);
    let broken = ScanView::of(entries);
    let others = ScanView::of(first + last);
    let whole = ScanView::of(first + two + last);
    let error = mismatch(found.manifest, found.entrypoint->Ok_0, found.path);
    let runtime = RuntimeView {
        manifest: found.manifest,
        installation_root: found.installation_root,
        engine_variant: None,
    };
    assert(broken.runtimes =~= others.runtimes);
    assert(broken.issues =~= others.issues.insert(before.issues.len() as int, error));
    assert(broken.warnings =~= others.warnings.insert(before.warnings.len() as int, error.text()));
    assert(whole.issues =~= others.issues);
    assert(whole.warnings =~= others.warnings);
    let order = |a: RuntimeView, b: RuntimeView| scan_order(a, b) == Order::Less;
    law_sorted(whole.runtimes, order);
    law_sorted(others.runtimes, order);
    assert(whole.runtimes.to_multiset() =~= others.runtimes.to_multiset().insert(runtime)) by {
        assert(whole.runtimes =~= others.runtimes.insert(before.runtimes.len() as int, runtime));
    }
    reveal_strlit("entrypoint SHA-256 mismatch: expected ");
    reveal_strlit("SHA-256");
    let head = "runtime manifest at "@ + found.path + " is invalid: "@;
    let at: int = head.len() as int + 11;
    assert(stands_at(error.text(), "SHA-256"@, at)) by {
        assert(error.text().subrange(at, at + 7) =~= "SHA-256"@);
    }
}

/// What stands for a text in the store is the text in small letters, with a dash for each character that
/// cannot stand in a name, without the dots and dashes around it; where nothing is left, it is "unknown".
pub proof fn law_names_are_kept(value: Seq<char>)
    requires
        value.len() > 0,
        forall|i: int| 0 <= i < value.len() ==> is_segment_char(lower(#[trigger] value[i])),
        !is_edge(value[0]),
        !is_edge(value.last()),
    ensures
        segment(value) == ascii_lower(value),
{
    let mapped = value.map_values(|c: char| segment_char(c));
    assert(mapped =~= ascii_lower(value));
    assert(!is_edge(mapped[0]));
    assert(mapped.last() == lower(value[value.len() - 1]));
    lemma_no_edges(mapped);
}

/// A character that cannot stand in a name is replaced by a dash, and only such a one.
pub proof fn law_other_characters_become_dashes(c: char)
    ensures
        is_segment_char(c) <==> ('a' <= c && c <= 'z') || ('0' <= c && c <= '9') || c == '.' || c
            == '_' || c == '-',
        is_segment_char(lower(c)) ==> segment_char(c) == lower(c),
        !is_segment_char(lower(c)) ==> segment_char(c) == '-',
        is_edge(c) <==> c == '.' || c == '-',
        segment(Seq::empty()) == "unknown"@,
{
    let nothing = Seq::<char>::empty().map_values(|c: char| segment_char(c));
    assert(nothing =~= Seq::empty());
}

/// A runtime belongs in the store below its engine, its platform, architecture, accelerator and variant,
/// its version, and its identifier; one that is found elsewhere, or is someone else's binary, does not.
pub proof fn law_runtimes_belong_in_one_place(
    manifest: ManifestView,
    at: Seq<Seq<char>>,
    path: Seq<char>,
    expected: Seq<char>,
)
    ensures
        ({
            let identity = manifest.identity;
            belongs(manifest, at, path, expected) is Ok <==> {
                &&& manifest.acquisition_method != RuntimeAcquisitionMethod::ExternalBinary
                &&& at.len() == 4
                &&& at[0] == segment(identity.engine_id)
                &&& at[1] == segment(
                    identity.platform + "-"@ + identity.architecture + "-"@ + identity.accelerator
                        + "-"@ + identity.variant,
                )
                &&& at[2] == segment(identity.version)
                &&& at[3] == manifest.runtime_id
            }
        }),
{
    let there = home(manifest);
    if at.len() == 4 && at[0] == there[0] && at[1] == there[1] && at[2] == there[2] && at[3]
        == there[3] {
        assert(at =~= there);
    }
}

/// The runtime of an identifier is the first that has it.
pub proof fn law_runtimes_are_found_by_identifier(runtimes: Seq<RuntimeView>, id: Seq<char>)
    ensures
        match runtime_at(runtimes, id) {
            Some(at) => 0 <= at < runtimes.len() && runtimes[at].manifest.runtime_id == id
                && forall|i: int|
                0 <= i < at ==> (#[trigger] runtimes[i]).manifest.runtime_id != id,
            None => forall|i: int|
                0 <= i < runtimes.len() ==> (#[trigger] runtimes[i]).manifest.runtime_id != id,
        },
    decreases runtimes.len(),
{
    if runtimes.len() > 0 {
        let rest = runtimes.drop_last();
        law_runtimes_are_found_by_identifier(rest, id);
        assert forall|i: int| 0 <= i < rest.len() && rest[i].manifest.runtime_id != id implies (
        #[trigger] runtimes[i]).manifest.runtime_id != id by {
            assert(rest[i] == runtimes[i]);
        }
    }
}

proof fn lemma_claimed_at(runtimes: Seq<RuntimeView>, manifest: ManifestView)
    ensures
        match claimed_at(runtimes, manifest) {
            Some(at) => 0 <= at < runtimes.len() && same_claim(runtimes[at].manifest, manifest),
            None => forall|i: int|
                0 <= i < runtimes.len() ==> !same_claim((#[trigger] runtimes[i]).manifest, manifest),
        },
    decreases runtimes.len(),
{
    if runtimes.len() > 0 {
        let rest = runtimes.drop_last();
        lemma_claimed_at(rest, manifest);
        assert forall|i: int|
            0 <= i < rest.len() && !same_claim(rest[i].manifest, manifest) implies !same_claim(
            (#[trigger] runtimes[i]).manifest,
            manifest,
        ) by {
            assert(rest[i] == runtimes[i]);
        }
    }
}

/// A runtime that is there already, with the same record, is kept; one of its identifier with another
/// record, or one that claims to be of the same release, is a conflict; and only where there is neither,
/// it is put in the store.
pub proof fn law_releases_are_stored_once(runtimes: Seq<RuntimeView>, manifest: ManifestView)
    ensures
        match activation(runtimes, manifest) {
            Ok(Some(at)) => 0 <= at < runtimes.len() && runtimes[at].manifest.equals(manifest),
            Ok(None) => forall|i: int|
                0 <= i < runtimes.len() ==> (#[trigger] runtimes[i]).manifest.runtime_id
                    != manifest.runtime_id && !same_claim(runtimes[i].manifest, manifest),
            Err(error) => {
                &&& error is ProvenanceConflict
                &&& exists|i: int|
                    0 <= i < runtimes.len() && !(#[trigger] runtimes[i]).manifest.equals(manifest)
                        && (runtimes[i].manifest.runtime_id == manifest.runtime_id || same_claim(
                        runtimes[i].manifest,
                        manifest,
                    ))
            },
        },
{
    law_runtimes_are_found_by_identifier(runtimes, manifest.runtime_id);
    lemma_claimed_at(runtimes, manifest);
    if runtime_at(runtimes, manifest.runtime_id) is None {
        if let Some(at) = claimed_at(runtimes, manifest) {
            assert(runtimes[at].manifest.runtime_id != manifest.runtime_id);
        }
    }
}

/// Two records claim to be of the same release where engine, family, version, platform, architecture,
/// accelerator, variant, provider, repository, tag and the names of the files agree; the digests do not
/// count.
pub proof fn law_claims_do_not_depend_on_digests(left: ManifestView, right: ManifestView)
    ensures
        same_claim(left, right) <==> {
            let (a, b) = (left.identity, right.identity);
            &&& a.engine_id == b.engine_id && a.package_family == b.package_family
            &&& a.version == b.version && a.platform == b.platform
            &&& a.architecture == b.architecture && a.accelerator == b.accelerator
            &&& a.variant == b.variant
            &&& a.package.provider_id == b.package.provider_id
            &&& a.package.repository == b.package.repository
            &&& a.package.release_tag == b.package.release_tag
            &&& a.package.asset_name == b.package.asset_name
            &&& a.package.additional_assets.len() == b.package.additional_assets.len()
            &&& forall|i: int|
                0 <= i < a.package.additional_assets.len() ==> (
                #[trigger] a.package.additional_assets[i]).asset_name
                    == b.package.additional_assets[i].asset_name
                    && a.package.additional_assets[i].role == b.package.additional_assets[i].role
        },
{
    let x = left.identity.package.additional_assets;
    let y = right.identity.package.additional_assets;
    let (m, n) = (named_roles(x), named_roles(y));
    if m == n {
        assert(x.len() == m.len() && y.len() == n.len());
        assert forall|i: int| 0 <= i < x.len() implies (#[trigger] x[i]).asset_name
            == y[i].asset_name && x[i].role == y[i].role by {
            assert(m[i] == (x[i].asset_name, x[i].role));
            assert(n[i] == (y[i].asset_name, y[i].role));
        }
    }
    if x.len() == y.len() && forall|i: int|
        0 <= i < x.len() ==> (#[trigger] x[i]).asset_name == y[i].asset_name && x[i].role
            == y[i].role {
        assert(m =~= n);
    }
}

/// A found runtime is taken only where it belongs, is managed, and its entrypoint has the recorded digest,
/// however the digits are written; it is taken as it was recorded.
pub proof fn law_only_whole_runtimes_are_found(found: FoundView)
    ensures
        found.runtime() is Ok <==> belongs(found.manifest, found.at, found.path, found.expected) is Ok
            && found.managed is Ok && found.entrypoint is Ok && ascii_lower(found.entrypoint->Ok_0)
            == ascii_lower(found.manifest.entrypoint_sha256),
        found.runtime() matches Ok(runtime) ==> runtime.manifest == found.manifest
            && runtime.installation_root == found.installation_root && runtime.engine_variant is None,
{
}

/// A scan takes of its entries those that are whole runtimes, in the order in which they come, and tells of
/// each other one.
pub proof fn law_scans_take_what_is_whole(entries: Seq<EntryView>, next: EntryView)
    ensures
        ({
            let (before, after) = (ScanView::of(entries), ScanView::of(entries.push(next)));
            match next {
                EntryView::Found(found) if found.runtime() is Ok => {
                    &&& after.runtimes == before.runtimes.push(found.runtime()->Ok_0)
                    &&& after.issues == before.issues
                    &&& after.warnings == before.warnings
                },
                EntryView::Found(found) => {
                    &&& after.runtimes == before.runtimes
                    &&& after.issues == before.issues.push(found.runtime()->Err_0)
                    &&& after.warnings == before.warnings.push(found.runtime()->Err_0.text())
                },
                EntryView::Unread(error) => {
                    &&& after.runtimes == before.runtimes
                    &&& after.issues == before.issues.push(error)
                    &&& after.warnings == before.warnings.push(error.text())
                },
                EntryView::Unseen(warning) => {
                    &&& after.runtimes == before.runtimes
                    &&& after.issues == before.issues
                    &&& after.warnings == before.warnings.push(warning)
                },
            }
        }),
        ScanView::of(Seq::empty()).runtimes.len() == 0,
        ScanView::of(Seq::empty()).issues.len() == 0,
        ScanView::of(Seq::empty()).warnings.len() == 0,
{
    assert(entries.push(next).drop_last() =~= entries);
    assert(entries.push(next).last() == next);
}

proof fn lemma_text_orders(a: Seq<char>, b: Seq<char>, c: Seq<char>)
    ensures
        text_order(b, a) == text_order(a, b).flipped(),
        text_order(a, b) == Order::Equal <==> a == b,
        text_order(a, b) != Order::Less && text_order(b, c) != Order::Less ==> text_order(a, c)
            != Order::Less,
        text_order(a, b) != Order::Less && text_order(b, c) != Order::Less && text_order(a, c)
            == Order::Equal ==> a == b && b == c,
{
    crate::order::lemma_text_order_flips(a, b);
    crate::order::lemma_text_order_flips(b, c);
    crate::order::lemma_text_order_flips(a, c);
    crate::order::lemma_text_order_equal(a, b);
    crate::order::lemma_text_order_equal(b, c);
    crate::order::lemma_text_order_equal(a, c);
    if text_order(a, b) != Order::Less && text_order(b, c) != Order::Less {
        crate::order::lemma_text_order_chains(c, b, a);
    }
}

proof fn lemma_scan_order(a: RuntimeView, b: RuntimeView, c: RuntimeView)
    ensures
        scan_order(b, a) == scan_order(a, b).flipped(),
        scan_order(a, b) != Order::Less && scan_order(b, c) != Order::Less ==> scan_order(a, c)
            != Order::Less,
{
    let (x, y, z) = (a.manifest.identity, b.manifest.identity, c.manifest.identity);
    lemma_text_orders(x.engine_id, y.engine_id, z.engine_id);
    lemma_text_orders(y.engine_id, z.engine_id, x.engine_id);
    lemma_text_orders(x.variant, y.variant, z.variant);
    lemma_text_orders(y.variant, z.variant, x.variant);
    lemma_text_orders(z.version, y.version, x.version);
    lemma_text_orders(y.version, x.version, z.version);
}

/// A scan lists the runtimes that it found by engine, those of one engine by variant, and those of one
/// variant with the later version first, by their names.
pub proof fn law_scans_list_in_order(scan: ScanView, i: int, j: int)
    requires
        0 <= i < j < scan.listed().runtimes.len(),
    ensures
        scan.listed().runtimes.to_multiset() == scan.runtimes.to_multiset(),
        scan.listed().issues == scan.issues && scan.listed().warnings == scan.warnings,
        ({
            let a = scan.listed().runtimes[i].manifest.identity;
            let b = scan.listed().runtimes[j].manifest.identity;
            &&& text_order(a.engine_id, b.engine_id) != Order::Greater
            &&& a.engine_id == b.engine_id ==> text_order(a.variant, b.variant) != Order::Greater
            &&& a.engine_id == b.engine_id && a.variant == b.variant ==> text_order(
                a.version,
                b.version,
            ) != Order::Less
        }),
{
    let before = |a: RuntimeView, b: RuntimeView| scan_order(a, b) == Order::Less;
    assert forall|a: RuntimeView, b: RuntimeView| #[trigger] before(a, b) implies !before(b, a) by {
        lemma_scan_order(a, b, b);
    }
    assert forall|a: RuntimeView, b: RuntimeView, c: RuntimeView|
        !#[trigger] before(a, b) && !#[trigger] before(b, c) implies !before(a, c) by {
        lemma_scan_order(a, b, c);
    }
    law_sorted(scan.runtimes, before);
    let list = scan.listed().runtimes;
    assert(list == sorted(scan.runtimes, before));
    assert(!before(list[j], list[i]));
    let (a, b) = (list[i].manifest.identity, list[j].manifest.identity);
    lemma_text_orders(a.engine_id, b.engine_id, b.engine_id);
    lemma_text_orders(a.variant, b.variant, b.variant);
    lemma_text_orders(a.version, b.version, b.version);
}

/// A removal that fails because the runtime runs or is selected is told so; any other failure is told in
/// its own words.
pub proof fn law_removal_errors_are_told(error: StoreErrorView, runtime_id: Seq<char>)
    ensures
        error is RuntimeInUse <==> error.removal_error(runtime_id) is Active,
        error is RuntimeSelected <==> error.removal_error(runtime_id) is Selected,
        !(error is RuntimeInUse) && !(error is RuntimeSelected) ==> error.removal_error(runtime_id)
            == PackErrorView::Other(error.text()),
        error is RuntimeInUse ==> error.removal_error(runtime_id) == PackErrorView::Active(
            runtime_id,
        ),
{
}

} // verus!
