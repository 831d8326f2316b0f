//! The record of what was acquired, and what of it may be removed again.
use vstd::prelude::*;
use vstd::string::*;

use crate::duplicate::{lemma_views_push, optional, views, Duplicate};
use crate::paths::{is_safe, parts, safe_relative, same_path};
use crate::references::{LibraryErrorView, ModelLibraryError};
use crate::schemas::sorted_unique;
use crate::store::{inside, is_inside};
use crate::table::ordered;
use crate::text::{cat3, join, joined, same, same_list};

verus! {

pub const RECEIPT_SCHEMA_VERSION: u32 = 2;

/// Where an artifact came from.
#[derive(Debug)]
pub struct ModelArtifactProvenance {
    pub acquisition_id: String,
    pub provider: String,
    pub repository: Option<String>,
    pub logical_id: Option<String>,
    pub source: Option<String>,
    pub revision: Option<String>,
    pub remote_filename: Option<String>,
    pub acquired_at_unix: i64,
    pub size_bytes: u64,
    pub digest: Option<String>,
}

#[verifier::ext_equal]
pub struct OriginView {
    pub acquisition_id: Seq<char>,
    pub provider: Seq<char>,
    pub repository: Option<Seq<char>>,
    pub logical_id: Option<Seq<char>>,
    pub source: Option<Seq<char>>,
    pub revision: Option<Seq<char>>,
    pub remote_filename: Option<Seq<char>>,
    pub acquired_at_unix: i64,
    pub size_bytes: u64,
    pub digest: Option<Seq<char>>,
}

impl View for ModelArtifactProvenance {
    type V = OriginView;

    open spec fn view(&self) -> OriginView {
        OriginView {
            acquisition_id: self.acquisition_id@,
            provider: self.provider@,
            repository: optional(self.repository),
            logical_id: optional(self.logical_id),
            source: optional(self.source),
            revision: optional(self.revision),
            remote_filename: optional(self.remote_filename),
            acquired_at_unix: self.acquired_at_unix,
            size_bytes: self.size_bytes,
            digest: optional(self.digest),
        }
    }
}

/// An artifact of an acquisition, by its path below the acquisition's directory.
#[derive(Debug)]
pub struct ModelLibraryReceiptMember {
    pub path: String,
    pub format: String,
    pub provenance: ModelArtifactProvenance,
}

#[verifier::ext_equal]
pub struct MemberView {
    pub path: Seq<char>,
    pub format: Seq<char>,
    pub provenance: OriginView,
}

impl View for ModelLibraryReceiptMember {
    type V = MemberView;

    open spec fn view(&self) -> MemberView {
        MemberView { path: self.path@, format: self.format@, provenance: self.provenance@ }
    }
}

/// What an acquisition is made of.
#[derive(Debug)]
pub struct ModelLibraryReceipt {
    pub schema_version: u32,
    pub acquisition_id: String,
    pub members: Vec<ModelLibraryReceiptMember>,
}

#[verifier::ext_equal]
pub struct ReceiptView {
    pub schema_version: u32,
    pub acquisition_id: Seq<char>,
    pub members: Seq<MemberView>,
}

impl View for ModelLibraryReceipt {
    type V = ReceiptView;

    open spec fn view(&self) -> ReceiptView {
        ReceiptView {
            schema_version: self.schema_version,
            acquisition_id: self.acquisition_id@,
            members: views(self.members@),
        }
    }
}

impl ReceiptView {
    /// Whether a member is safe, unlike those before it, and of this acquisition.
    pub open spec fn sound_at(self, at: int) -> bool {
        let member = self.members[at];
        &&& is_safe(member.path)
        &&& forall|k: int|
            0 <= k < at ==> parts((#[trigger] self.members[k]).path) != parts(member.path)
        &&& member.provenance.acquisition_id == self.acquisition_id
    }

    /// Whether a receipt is one that may be acted upon.
    pub open spec fn sound(self) -> bool {
        &&& self.schema_version == RECEIPT_SCHEMA_VERSION
        &&& self.members.len() > 0
        &&& forall|i: int| 0 <= i < self.members.len() ==> #[trigger] self.sound_at(i)
    }
}

/// The receipt of an acquisition.
pub fn make_receipt(acquisition_id: &str, members: Vec<ModelLibraryReceiptMember>) -> (result:
    ModelLibraryReceipt)
    ensures
        result@ == (ReceiptView {
            schema_version: RECEIPT_SCHEMA_VERSION,
            acquisition_id: acquisition_id@,
            members: views(members@),
        }),
{
    ModelLibraryReceipt {
        schema_version: RECEIPT_SCHEMA_VERSION,
        acquisition_id: acquisition_id.to_owned(),
        members,
    }
}

/// Whether a place is another one, or is inside it, by the parts of their resolved paths.
pub open spec fn within(place: Seq<Seq<char>>, root: Seq<Seq<char>>) -> bool {
    place == root || inside(place, root)
}

fn is_within(place: &Vec<String>, root: &Vec<String>) -> (result: bool)
    ensures
        result == within(views(place@), views(root@)),
{
    same_list(place, root) || is_inside(place, root)
}

/// How many parts lead to the nearest directory above a file, but inside the library, that has a
/// receipt.
pub open spec fn receipt_depth(has_receipt: Seq<bool>, low: int, depth: int) -> Option<int>
    decreases depth,
{
    if depth <= low || depth <= 0 {
        None
    } else if has_receipt[depth] {
        Some(depth)
    } else {
        receipt_depth(has_receipt, low, depth - 1)
    }
}

/// How many parts lead to the directory of the acquisition that a file belongs to, if it is managed:
/// properly inside the library, and not where downloads are staged.
pub open spec fn acquisition_depth(
    place: Seq<Seq<char>>,
    root: Seq<Seq<char>>,
    staging: Seq<Seq<char>>,
    has_receipt: Seq<bool>,
) -> Option<int> {
    if !within(place, root) {
        None
    } else {
        match receipt_depth(has_receipt, root.len() as int, place.len() - 1) {
            None => None,
            Some(depth) => if within(place.take(depth), staging) {
                None
            } else {
                Some(depth)
            },
        }
    }
}

fn first_parts(place: &Vec<String>, count: usize) -> (result: Vec<String>)
    requires
        count <= place@.len(),
    ensures
        views(result@) == views(place@).take(count as int),
{
    let ghost all = views(place@);
    let mut result: Vec<String> = Vec::new();
    let mut i: usize = 0;
    while i < count
        invariant
            i <= count <= place@.len(),
            all == views(place@),
            views(result@) == all.take(i as int),
        decreases count - i,
    {
        let part = place[i].clone();
        proof {
            assert(all[i as int] == part@);
            lemma_views_push(result@, part);
            assert(all.take(i + 1) =~= all.take(i as int).push(all[i as int]));
        }
        result.push(part);
        i += 1;
    }
    result
}

/// The directory of the acquisition that a model belongs to. A model without provenance, or one that
/// is not inside an acquisition of the library, is not managed. Which of the directories on the way to
/// the model have a receipt is told by how many parts lead there.
pub fn find_acquisition(
    model_id: &str,
    has_provenance: bool,
    place: &Vec<String>,
    root: &Vec<String>,
    staging: &Vec<String>,
    has_receipt: &Vec<bool>,
) -> (result: Result<Vec<String>, ModelLibraryError>)
    requires
        has_receipt@.len() == place@.len(),
    ensures
        match (
            result,
            acquisition_depth(views(place@), views(root@), views(staging@), has_receipt@),
        ) {
            (Ok(directory), Some(depth)) => has_provenance && views(directory@) == views(
                place@,
            ).take(depth),
            (Err(error), expected) => (!has_provenance || expected is None) && error@
                == LibraryErrorView::NotManaged(model_id@),
            _ => false,
        },
{
    let ghost here = views(place@);
    proof {
        assert(here.len() == place@.len());
        assert(views(root@).len() == root@.len());
    }
    if !has_provenance || !is_within(place, root) || place.len() == 0 {
        return Err(ModelLibraryError::NotManaged(model_id.to_owned()));
    }
    let mut depth: usize = place.len() - 1;
    while depth > root.len() && !has_receipt[depth]
        invariant
            depth < place@.len(),
            has_receipt@.len() == place@.len(),
            receipt_depth(has_receipt@, root@.len() as int, place@.len() - 1) == receipt_depth(
                has_receipt@,
                root@.len() as int,
                depth as int,
            ),
        decreases depth,
    {
        depth -= 1;
    }
    if depth <= root.len() {
        return Err(ModelLibraryError::NotManaged(model_id.to_owned()));
    }
    let directory = first_parts(place, depth);
    if is_within(&directory, staging) {
        return Err(ModelLibraryError::NotManaged(model_id.to_owned()));
    }
    Ok(directory)
}

/// What is found where a member of a receipt should be.
#[derive(Debug)]
pub struct ObservedMember {
    pub place: Vec<String>,
    pub is_file: bool,
    pub size_bytes: u64,
    pub format: Option<String>,
}

#[verifier::ext_equal]
pub struct ObservedMemberView {
    pub place: Seq<Seq<char>>,
    pub is_file: bool,
    pub size_bytes: u64,
    pub format: Option<Seq<char>>,
}

impl View for ObservedMember {
    type V = ObservedMemberView;

    open spec fn view(&self) -> ObservedMemberView {
        ObservedMemberView {
            place: views(self.place@),
            is_file: self.is_file,
            size_bytes: self.size_bytes,
            format: optional(self.format),
        }
    }
}

/// What came of looking for a member.
#[derive(Debug)]
pub enum MemberLook {
    Seen(ObservedMember),
    Unseen(ModelLibraryError),
}

#[verifier::ext_equal]
pub enum LookView {
    Seen(ObservedMemberView),
    Unseen(LibraryErrorView),
}

impl View for MemberLook {
    type V = LookView;

    open spec fn view(&self) -> LookView {
        match self {
            MemberLook::Seen(member) => LookView::Seen(member@),
            MemberLook::Unseen(error) => LookView::Unseen(error@),
        }
    }
}

impl Duplicate for ModelLibraryError {
    fn duplicate(&self) -> (result: ModelLibraryError) {
        match self {
            ModelLibraryError::Http(text) => ModelLibraryError::Http(text.clone()),
            ModelLibraryError::Io { path, source } => ModelLibraryError::Io {
                path: path.clone(),
                source: source.clone(),
            },
            ModelLibraryError::InvalidReference(text) => ModelLibraryError::InvalidReference(
                text.clone(),
            ),
            ModelLibraryError::InvalidCatalog(text) => ModelLibraryError::InvalidCatalog(
                text.clone(),
            ),
            ModelLibraryError::InvalidArtifact(text) => ModelLibraryError::InvalidArtifact(
                text.clone(),
            ),
            ModelLibraryError::AlreadyInstalled(text) => ModelLibraryError::AlreadyInstalled(
                text.clone(),
            ),
            ModelLibraryError::NotManaged(text) => ModelLibraryError::NotManaged(text.clone()),
            ModelLibraryError::NotFound(text) => ModelLibraryError::NotFound(text.clone()),
            ModelLibraryError::DigestMismatch { filename, expected, observed } => {
                ModelLibraryError::DigestMismatch {
                    filename: filename.clone(),
                    expected: expected.clone(),
                    observed: observed.clone(),
                }
            },
        }
    }
}

/// Whether what is found is what the receipt says: a file inside the acquisition, of the size and the
/// format that it had.
pub open spec fn still_matches(
    member: MemberView,
    observed: ObservedMemberView,
    directory: Seq<Seq<char>>,
) -> bool {
    &&& within(observed.place, directory)
    &&& observed.is_file
    &&& observed.size_bytes == member.provenance.size_bytes
    &&& observed.format == Some(member.format)
}

/// Why a member keeps the acquisition from being removed, if it does.
pub open spec fn member_refusal(
    receipt: ReceiptView,
    at: int,
    look: LookView,
    directory: Seq<Seq<char>>,
) -> Option<LibraryErrorView> {
    if !receipt.sound_at(at) {
        Some(
            LibraryErrorView::InvalidArtifact(
                "managed acquisition receipt contains an unsafe or conflicting member"@,
            ),
        )
    } else {
        match look {
            LookView::Unseen(error) => Some(error),
            LookView::Seen(observed) => if still_matches(
                receipt.members[at],
                observed,
                directory,
            ) {
                None
            } else {
                Some(
                    LibraryErrorView::InvalidArtifact(
                        "managed acquisition member "@ + receipt.members[at].path
                            + " no longer matches its receipt"@,
                    ),
                )
            },
        }
    }
}

/// The first reason of the members from one on.
pub open spec fn refusal_from(
    receipt: ReceiptView,
    looks: Seq<LookView>,
    directory: Seq<Seq<char>>,
    at: int,
) -> Option<LibraryErrorView>
    decreases receipt.members.len() - at,
{
    if at >= receipt.members.len() {
        None
    } else {
        match member_refusal(receipt, at, looks[at], directory) {
            Some(error) => Some(error),
            None => refusal_from(receipt, looks, directory, at + 1),
        }
    }
}

fn is_sound_at(receipt: &ModelLibraryReceipt, at: usize) -> (result: bool)
    requires
        at < receipt.members@.len(),
    ensures
        result == receipt@.sound_at(at as int),
{
    let member = &receipt.members[at];
    let ghost all = receipt@.members;
    proof {
        assert(all[at as int] == member@);
    }
    if !safe_relative(member.path.as_str()) {
        return false;
    }
    let mut k: usize = 0;
    while k < at
        invariant
            k <= at < receipt.members@.len(),
            all == receipt@.members,
            member@ == all[at as int],
            forall|j: int| 0 <= j < k ==> parts((#[trigger] all[j]).path) != parts(
                member@.path,
            ),
        decreases at - k,
    {
        proof {
            assert(all[k as int] == receipt.members@[k as int]@);
        }
        if same_path(receipt.members[k].path.as_str(), member.path.as_str()) {
            return false;
        }
        k += 1;
    }
    same(member.provenance.acquisition_id.as_str(), receipt.acquisition_id.as_str())
}

fn check_member(
    receipt: &ModelLibraryReceipt,
    at: usize,
    look: &MemberLook,
    directory: &Vec<String>,
) -> (result: Result<(), ModelLibraryError>)
    requires
        at < receipt.members@.len(),
    ensures
        match (result, member_refusal(receipt@, at as int, look@, views(directory@))) {
            (Ok(_), None) => true,
            (Err(error), Some(expected)) => error@ == expected,
            _ => false,
        },
{
    proof {
        assert(receipt@.members[at as int] == receipt.members@[at as int]@);
    }
    if !is_sound_at(receipt, at) {
        return Err(
            ModelLibraryError::InvalidArtifact(
                "managed acquisition receipt contains an unsafe or conflicting member".to_owned(),
            ),
        );
    }
    let member = &receipt.members[at];
    match look {
        MemberLook::Unseen(error) => Err(error.duplicate()),
        MemberLook::Seen(observed) => {
            let format_matches = match &observed.format {
                Some(format) => same(format.as_str(), member.format.as_str()),
                None => false,
            };
            if is_within(&observed.place, directory) && observed.is_file && observed.size_bytes
                == member.provenance.size_bytes && format_matches {
                Ok(())
            } else {
                Err(
                    ModelLibraryError::InvalidArtifact(
                        cat3(
                            "managed acquisition member ",
                            member.path.as_str(),
                            " no longer matches its receipt",
                        ),
                    ),
                )
            }
        },
    }
}

/// A model that is discovered in the directory of an acquisition.
#[derive(Debug)]
pub struct DiscoveredModel {
    pub id: String,
    pub place: Vec<String>,
    pub acquisition_id: Option<String>,
}

#[verifier::ext_equal]
pub struct DiscoveredView {
    pub id: Seq<char>,
    pub place: Seq<Seq<char>>,
    pub acquisition_id: Option<Seq<char>>,
}

impl View for DiscoveredModel {
    type V = DiscoveredView;

    open spec fn view(&self) -> DiscoveredView {
        DiscoveredView {
            id: self.id@,
            place: views(self.place@),
            acquisition_id: optional(self.acquisition_id),
        }
    }
}

/// The first model at a place.
pub open spec fn discovered_at(models: Seq<DiscoveredView>, place: Seq<Seq<char>>) -> Option<
    DiscoveredView,
>
    decreases models.len(),
{
    if models.len() == 0 {
        None
    } else if models[0].place == place {
        Some(models[0])
    } else {
        discovered_at(models.skip(1), place)
    }
}

/// The identifier of the model that a member is, or why there is none.
pub open spec fn member_model(
    receipt: ReceiptView,
    at: int,
    look: LookView,
    models: Seq<DiscoveredView>,
    warnings: Seq<Seq<char>>,
) -> Result<Seq<char>, LibraryErrorView> {
    let path = receipt.members[at].path;
    match discovered_at(models, look->Seen_0.place) {
        None => Err(
            LibraryErrorView::InvalidArtifact(
                if warnings.len() == 0 {
                    "managed acquisition member "@ + path + " is no longer discoverable"@
                } else {
                    joined(warnings, "; "@)
                },
            ),
        ),
        Some(model) => if model.acquisition_id == Some(receipt.acquisition_id) {
            Ok(model.id)
        } else {
            Err(
                LibraryErrorView::InvalidArtifact(
                    "managed acquisition member "@ + path + " has invalid provenance"@,
                ),
            )
        },
    }
}

/// The identifiers of the members from one on.
pub open spec fn models_from(
    receipt: ReceiptView,
    looks: Seq<LookView>,
    models: Seq<DiscoveredView>,
    warnings: Seq<Seq<char>>,
    at: int,
) -> Result<Seq<Seq<char>>, LibraryErrorView>
    decreases receipt.members.len() - at,
{
    if at >= receipt.members.len() {
        Ok(Seq::empty())
    } else {
        match member_model(receipt, at, looks[at], models, warnings) {
            Err(error) => Err(error),
            Ok(id) => match models_from(receipt, looks, models, warnings, at + 1) {
                Err(error) => Err(error),
                Ok(rest) => Ok(seq![id] + rest),
            },
        }
    }
}

fn find_discovered<'a>(models: &'a Vec<DiscoveredModel>, place: &Vec<String>) -> (result: Option<
    &'a DiscoveredModel,
>)
    ensures
        crate::updates::referenced(result) == discovered_at(views(models@), views(place@)),
{
    let ghost all = views(models@);
    let ghost wanted = views(place@);
    let mut i: usize = 0;
    proof {
        assert(all.skip(0) =~= all);
    }
    while i < models.len()
        invariant
            i <= models.len(),
            all == views(models@),
            wanted == views(place@),
            discovered_at(all, wanted) == discovered_at(all.skip(i as int), wanted),
        decreases models.len() - i,
    {
        proof {
            assert(all.skip(i as int)[0] == models@[i as int]@);
            assert(all.skip(i as int).skip(1) =~= all.skip(i + 1));
        }
        if same_list(&models[i].place, place) {
            return Some(&models[i]);
        }
        i += 1;
    }
    None
}

/// What is removed with an acquisition.
#[derive(Debug)]
pub struct ModelRemovalPlan {
    pub acquisition_root: Vec<String>,
    pub acquisition_id: String,
    pub affected_model_ids: Vec<String>,
}

#[verifier::ext_equal]
pub struct RemovalView {
    pub acquisition_root: Seq<Seq<char>>,
    pub acquisition_id: Seq<char>,
    pub affected_model_ids: Seq<Seq<char>>,
}

impl View for ModelRemovalPlan {
    type V = RemovalView;

    open spec fn view(&self) -> RemovalView {
        RemovalView {
            acquisition_root: views(self.acquisition_root@),
            acquisition_id: self.acquisition_id@,
            affected_model_ids: views(self.affected_model_ids@),
        }
    }
}

impl ModelRemovalPlan {
    pub fn acquisition_root(&self) -> (result: &Vec<String>)
        ensures
            views(result@) == self@.acquisition_root,
    {
        &self.acquisition_root
    }
}

/// Whether one of the members is at a place.
pub open spec fn is_seen(looks: Seq<LookView>, place: Seq<Seq<char>>) -> bool {
    exists|i: int|
        0 <= i < looks.len() && (#[trigger] looks[i]) is Seen && looks[i]->Seen_0.place == place
}

/// What removing the acquisition of a model takes with it, or why it must stay.
pub open spec fn removal(
    model_id: Seq<char>,
    acquisition_id: Seq<char>,
    place: Seq<Seq<char>>,
    directory: Seq<Seq<char>>,
    receipt: ReceiptView,
    looks: Seq<LookView>,
    models: Seq<DiscoveredView>,
    warnings: Seq<Seq<char>>,
) -> Result<RemovalView, LibraryErrorView> {
    if receipt.schema_version != RECEIPT_SCHEMA_VERSION || receipt.acquisition_id
        != acquisition_id || receipt.members.len() == 0 {
        Err(LibraryErrorView::NotManaged(model_id))
    } else {
        match refusal_from(receipt, looks, directory, 0) {
            Some(error) => Err(error),
            None => if !is_seen(looks, place) {
                Err(LibraryErrorView::NotManaged(model_id))
            } else {
                match models_from(receipt, looks, models, warnings, 0) {
                    Err(error) => Err(error),
                    Ok(ids) => Ok(
                        RemovalView {
                            acquisition_root: directory,
                            acquisition_id: receipt.acquisition_id,
                            affected_model_ids: ordered(ids.to_set()),
                        },
                    ),
                }
            },
        }
    }
}

proof fn lemma_members_are_seen(
    receipt: ReceiptView,
    looks: Seq<LookView>,
    directory: Seq<Seq<char>>,
    at: int,
)
    requires
        0 <= at,
        looks.len() == receipt.members.len(),
        refusal_from(receipt, looks, directory, at) is None,
    ensures
        forall|i: int|
            at <= i < receipt.members.len() ==> #[trigger] receipt.sound_at(i)
                && looks[i] is Seen && still_matches(
                receipt.members[i],
                looks[i]->Seen_0,
                directory,
            ),
    decreases receipt.members.len() - at,
{
    if at < receipt.members.len() {
        lemma_members_are_seen(receipt, looks, directory, at + 1);
    }
}

/// Looks at all members in turn, and says whether one of them is at a place.
fn check_members(
    receipt: &ModelLibraryReceipt,
    looks: &Vec<MemberLook>,
    directory: &Vec<String>,
    place: &Vec<String>,
) -> (result: Result<bool, ModelLibraryError>)
    requires
        looks@.len() == receipt.members@.len(),
    ensures
        match (result, refusal_from(receipt@, views(looks@), views(directory@), 0)) {
            (Ok(selected), None) => selected == is_seen(views(looks@), views(place@)),
            (Err(error), Some(expected)) => error@ == expected,
            _ => false,
        },
{
    let ghost all = views(looks@);
    let ghost here = views(place@);
    let ghost folder = views(directory@);
    let count: usize = receipt.members.len();
    proof {
        assert(receipt@.members.len() == count);
    }
    let mut selected = false;
    let mut i: usize = 0;
    while i < count
        invariant
            i <= count,
            count == receipt.members@.len(),
            count == looks@.len(),
            receipt@.members.len() == count,
            all == views(looks@),
            here == views(place@),
            folder == views(directory@),
            refusal_from(receipt@, all, folder, 0) == refusal_from(
                receipt@,
                all,
                folder,
                i as int,
            ),
            selected == exists|k: int|
                0 <= k < i && (#[trigger] all[k]) is Seen && all[k]->Seen_0.place == here,
        decreases count - i,
    {
        proof {
            assert(all[i as int] == looks@[i as int]@);
        }
        match check_member(receipt, i, &looks[i], directory) {
            Err(error) => {
                return Err(error);
            },
            Ok(_) => {},
        }
        match &looks[i] {
            MemberLook::Seen(observed) => {
                if same_list(&observed.place, place) {
                    selected = true;
                    proof {
                        assert(all[i as int] is Seen && all[i as int]->Seen_0.place == here);
                    }
                }
            },
            MemberLook::Unseen(_) => {},
        }
        i += 1;
    }
    Ok(selected)
}

fn find_models(
    receipt: &ModelLibraryReceipt,
    looks: &Vec<MemberLook>,
    models: &Vec<DiscoveredModel>,
    warnings: &Vec<String>,
) -> (result: Result<Vec<String>, ModelLibraryError>)
    requires
        looks@.len() == receipt.members@.len(),
        forall|k: int| 0 <= k < looks@.len() ==> (#[trigger] views(looks@)[k]) is Seen,
    ensures
        match (
            result,
            models_from(receipt@, views(looks@), views(models@), views(warnings@), 0),
        ) {
            (Ok(ids), Ok(expected)) => views(ids@) == expected,
            (Err(error), Err(expected)) => error@ == expected,
            _ => false,
        },
{
    let ghost all = views(looks@);
    let ghost found = views(models@);
    let ghost said = views(warnings@);
    let count: usize = receipt.members.len();
    let mut ids: Vec<String> = Vec::new();
    let mut j: usize = 0;
    proof {
        let rest = models_from(receipt@, all, found, said, 0);
        assert(receipt@.members.len() == count);
        assert(said.len() == warnings@.len());
        assert(views(ids@) =~= Seq::empty());
        assert(rest is Ok ==> Seq::<Seq<char>>::empty() + rest->Ok_0 =~= rest->Ok_0);
    }
    while j < count
        invariant
            j <= count,
            count == receipt.members@.len(),
            count == looks@.len(),
            receipt@.members.len() == count,
            all == views(looks@),
            found == views(models@),
            said == views(warnings@),
            said.len() == warnings@.len(),
            forall|k: int| 0 <= k < count ==> (#[trigger] all[k]) is Seen,
            models_from(receipt@, all, found, said, 0) == match models_from(
                receipt@,
                all,
                found,
                said,
                j as int,
            ) {
                Ok(rest) => Ok(views(ids@) + rest),
                Err(error) => Err::<Seq<Seq<char>>, LibraryErrorView>(error),
            },
        decreases count - j,
    {
        proof {
            assert(all[j as int] == looks@[j as int]@);
            assert(receipt@.members[j as int] == receipt.members@[j as int]@);
        }
        let member = &receipt.members[j];
        match &looks[j] {
            MemberLook::Unseen(error) => {
                return Err(error.duplicate());
            },
            MemberLook::Seen(observed) => match find_discovered(models, &observed.place) {
                None => {
                    let text = if warnings.len() == 0 {
                        cat3(
                            "managed acquisition member ",
                            member.path.as_str(),
                            " is no longer discoverable",
                        )
                    } else {
                        join(warnings, "; ")
                    };
                    return Err(ModelLibraryError::InvalidArtifact(text));
                },
                Some(model) => {
                    let owned = match &model.acquisition_id {
                        Some(id) => same(id.as_str(), receipt.acquisition_id.as_str()),
                        None => false,
                    };
                    if !owned {
                        return Err(
                            ModelLibraryError::InvalidArtifact(
                                cat3(
                                    "managed acquisition member ",
                                    member.path.as_str(),
                                    " has invalid provenance",
                                ),
                            ),
                        );
                    }
                    let id = model.id.clone();
                    let ghost before = views(ids@);
                    proof {
                        lemma_views_push(ids@, id);
                    }
                    ids.push(id);
                    proof {
                        let rest = models_from(receipt@, all, found, said, j + 1);
                        assert(rest is Ok ==> before + (seq![id@] + rest->Ok_0) =~= views(ids@)
                            + rest->Ok_0);
                    }
                },
            },
        }
        j += 1;
    }
    proof {
        assert(views(ids@) + Seq::<Seq<char>>::empty() =~= views(ids@));
    }
    Ok(ids)
}

pub fn plan_removal(
    model_id: &str,
    acquisition_id: &str,
    place: &Vec<String>,
    directory: &Vec<String>,
    receipt: &ModelLibraryReceipt,
    looks: &Vec<MemberLook>,
    models: &Vec<DiscoveredModel>,
    warnings: &Vec<String>,
) -> (result: Result<ModelRemovalPlan, ModelLibraryError>)
    requires
        looks@.len() == receipt.members@.len(),
    ensures
        match (
            result,
            removal(
                model_id@,
                acquisition_id@,
                views(place@),
                views(directory@),
                receipt@,
                views(looks@),
                views(models@),
                views(warnings@),
            ),
        ) {
            (Ok(plan), Ok(expected)) => plan@ == expected,
            (Err(error), Err(expected)) => error@ == expected,
            _ => false,
        },
{
    proof {
        assert(receipt@.members.len() == receipt.members@.len());
    }
    if receipt.schema_version != RECEIPT_SCHEMA_VERSION || !same(
        receipt.acquisition_id.as_str(),
        acquisition_id,
    ) || receipt.members.len() == 0 {
        return Err(ModelLibraryError::NotManaged(model_id.to_owned()));
    }
    match check_members(receipt, looks, directory, place) {
        Err(error) => {
            return Err(error);
        },
        Ok(selected) => {
            if !selected {
                return Err(ModelLibraryError::NotManaged(model_id.to_owned()));
            }
        },
    }
    proof {
        lemma_members_are_seen(receipt@, views(looks@), views(directory@), 0);
        assert forall|k: int| 0 <= k < looks@.len() implies (#[trigger] views(
            looks@,
        )[k]) is Seen by {
            assert(receipt@.sound_at(k));
        }
    }
    match find_models(receipt, looks, models, warnings) {
        Err(error) => Err(error),
        Ok(ids) => Ok(
            ModelRemovalPlan {
                acquisition_root: duplicate_place(directory),
                acquisition_id: receipt.acquisition_id.clone(),
                affected_model_ids: sorted_unique(&ids),
            },
        ),
    }
}

fn duplicate_place(place: &Vec<String>) -> (result: Vec<String>)
    ensures
        views(result@) == views(place@),
{
    let result = first_parts(place, place.len());
    proof {
        assert(views(place@).take(place@.len() as int) =~= views(place@));
    }
    result
}

/// What is removed lies properly inside the library and not where downloads are staged, and all its
/// members, of which the model is one, lie in it, with safe paths that differ.
pub proof fn law_removal_stays_inside(
    model_id: Seq<char>,
    acquisition_id: Seq<char>,
    place: Seq<Seq<char>>,
    root: Seq<Seq<char>>,
    staging: Seq<Seq<char>>,
    has_receipt: Seq<bool>,
    receipt: ReceiptView,
    looks: Seq<LookView>,
    models: Seq<DiscoveredView>,
    warnings: Seq<Seq<char>>,
)
    requires
        has_receipt.len() == place.len(),
        looks.len() == receipt.members.len(),
        acquisition_depth(place, root, staging, has_receipt) is Some,
    ensures
        ({
            let depth = acquisition_depth(place, root, staging, has_receipt)->0;
            let directory = place.take(depth);
            match removal(
                model_id,
                acquisition_id,
                place,
                directory,
                receipt,
                looks,
                models,
                warnings,
            ) {
                Err(_) => true,
                Ok(plan) => {
                    &&& inside(plan.acquisition_root, root)
                    &&& !within(plan.acquisition_root, staging)
                    &&& receipt.sound()
                    &&& is_seen(looks, place)
                    &&& forall|i: int|
                        0 <= i < looks.len() ==> (#[trigger] looks[i]) is Seen && within(
                            looks[i]->Seen_0.place,
                            plan.acquisition_root,
                        )
                },
            }
        }),
{
    let depth = acquisition_depth(place, root, staging, has_receipt)->0;
    let directory = place.take(depth);
    lemma_depth(has_receipt, root.len() as int, place.len() - 1);
    assert(directory.take(root.len() as int) =~= place.take(root.len() as int));
    if place == root {
        assert(place.take(root.len() as int) =~= root);
    }
    if refusal_from(receipt, looks, directory, 0) is None {
        lemma_members_are_seen(receipt, looks, directory, 0);
        assert forall|i: int| 0 <= i < looks.len() implies (#[trigger] looks[i]) is Seen && within(
            looks[i]->Seen_0.place,
            directory,
        ) by {
            assert(receipt.sound_at(i));
        }
    }
}

proof fn lemma_depth(has_receipt: Seq<bool>, low: int, depth: int)
    ensures
        match receipt_depth(has_receipt, low, depth) {
            Some(found) => low < found <= depth && 0 < found && has_receipt[found],
            None => true,
        },
    decreases depth,
{
    if depth > low && depth > 0 && !has_receipt[depth] {
        lemma_depth(has_receipt, low, depth - 1);
    }
}

/// Whether what was planned may still be removed: it is where it was, properly inside the library, not
/// where downloads are staged, and has its receipt.
pub fn check_removal(
    planned: &Vec<String>,
    observed: &Vec<String>,
    root: &Vec<String>,
    staging: &Vec<String>,
    has_receipt: bool,
) -> (result: Result<(), ModelLibraryError>)
    ensures
        match result {
            Ok(_) => views(observed@) == views(planned@) && inside(views(observed@), views(root@))
                && !within(views(observed@), views(staging@)) && has_receipt,
            Err(error) => !(views(observed@) == views(planned@) && inside(
                views(observed@),
                views(root@),
            ) && !within(views(observed@), views(staging@)) && has_receipt) && error@
                == LibraryErrorView::InvalidArtifact(
                "managed acquisition removal target is no longer safe"@,
            ),
        },
{
    if same_list(observed, planned) && is_inside(observed, root) && !is_within(observed, staging)
        && has_receipt {
        Ok(())
    } else {
        Err(
            ModelLibraryError::InvalidArtifact(
                "managed acquisition removal target is no longer safe".to_owned(),
            ),
        )
    }
}

/// A file belongs to the nearest directory above it that has a receipt and is properly inside the library;
/// it belongs to none where there is no such directory, where it is not in the library, or where that
/// directory is where downloads are staged.
pub proof fn law_files_belong_to_the_nearest_receipt(
    place: Seq<Seq<char>>,
    root: Seq<Seq<char>>,
    staging: Seq<Seq<char>>,
    has_receipt: Seq<bool>,
)
    requires
        has_receipt.len() == place.len(),
    ensures
        match acquisition_depth(place, root, staging, has_receipt) {
            Some(depth) => {
                &&& root.len() < depth < place.len()
                &&& has_receipt[depth]
                &&& forall|k: int| depth < k < place.len() ==> !#[trigger] has_receipt[k]
                &&& within(place, root)
                &&& !within(place.take(depth), staging)
            },
            None => !within(place, root) || (forall|k: int|
                root.len() < k < place.len() ==> !#[trigger] has_receipt[k]) || exists|depth: int|
                root.len() < depth < place.len() && #[trigger] has_receipt[depth] && within(
                    place.take(depth),
                    staging,
                ) && forall|k: int| depth < k < place.len() ==> !#[trigger] has_receipt[k],
        },
{
    lemma_nearest(has_receipt, root.len() as int, place.len() - 1);
}

proof fn lemma_nearest(has_receipt: Seq<bool>, low: int, depth: int)
    requires
        low >= 0,
    ensures
        match receipt_depth(has_receipt, low, depth) {
            Some(found) => low < found <= depth && has_receipt[found] && forall|k: int|
                found < k <= depth ==> !#[trigger] has_receipt[k],
            None => forall|k: int| low < k <= depth ==> !#[trigger] has_receipt[k],
        },
    decreases depth,
{
    if depth > low && depth > 0 && !has_receipt[depth] {
        lemma_nearest(has_receipt, low, depth - 1);
    }
}

/// A place is within another where the parts of the other lead to it.
pub proof fn law_places_are_within_what_leads_to_them(root: Seq<Seq<char>>, below: Seq<Seq<char>>)
    ensures
        within(root + below, root),
        below.len() > 0 ==> inside(root + below, root) && !within(root, root + below),
        !inside(root, root),
{
    assert((root + below).take(root.len() as int) =~= root);
}

/// An acquisition is removed exactly where its receipt is one of this version, of the acquisition that is
/// asked for, with members; where each member is safe, is unlike those before it, belongs to the
/// acquisition, and is found as it was recorded; where the model is one of them; and where each is known
/// as a model of the acquisition. Removed with it are just those models.
pub proof fn law_only_unchanged_acquisitions_are_removed(
    model_id: Seq<char>,
    acquisition_id: Seq<char>,
    place: Seq<Seq<char>>,
    directory: Seq<Seq<char>>,
    receipt: ReceiptView,
    looks: Seq<LookView>,
    models: Seq<DiscoveredView>,
    warnings: Seq<Seq<char>>,
)
    requires
        looks.len() == receipt.members.len(),
    ensures
        match removal(
            model_id,
            acquisition_id,
            place,
            directory,
            receipt,
            looks,
            models,
            warnings,
        ) {
            Ok(plan) => {
                &&& receipt.schema_version == 2
                &&& receipt.acquisition_id == acquisition_id
                &&& plan.acquisition_id == acquisition_id
                &&& plan.acquisition_root == directory
                &&& receipt.members.len() > 0
                &&& forall|i: int|
                    0 <= i < looks.len() ==> #[trigger] unchanged(receipt, looks, directory, i)
                &&& exists|i: int|
                    0 <= i < looks.len() && (#[trigger] looks[i]) is Seen && looks[i]->Seen_0.place
                        == place
                &&& forall|i: int|
                    0 <= i < looks.len() ==> #[trigger] known_model(receipt, looks[i], models) is Some
                        && plan.affected_model_ids.contains(
                        known_model(receipt, looks[i], models)->0,
                    )
                &&& forall|id: Seq<char>| #[trigger]
                    plan.affected_model_ids.contains(id) ==> exists|i: int|
                        0 <= i < looks.len() && #[trigger] known_model(receipt, looks[i], models)
                            == Some(id)
            },
            Err(_) => {
                ||| receipt.schema_version != 2
                ||| receipt.acquisition_id != acquisition_id
                ||| receipt.members.len() == 0
                ||| exists|i: int|
                    0 <= i < looks.len() && !#[trigger] unchanged(receipt, looks, directory, i)
                ||| forall|i: int|
                    0 <= i < looks.len() && (#[trigger] looks[i]) is Seen
                        ==> looks[i]->Seen_0.place != place
                ||| exists|i: int|
                    0 <= i < looks.len() && #[trigger] known_model(receipt, looks[i], models)
                        is None
            },
        },
{
    lemma_refusals(receipt, looks, directory, 0);
    lemma_models(receipt, looks, models, warnings, 0);
    if let Ok(ids) = models_from(receipt, looks, models, warnings, 0) {
        crate::table::lemma_ordered(ids.to_set());
        assert forall|id: Seq<char>| #[trigger]
            ordered(ids.to_set()).contains(id) implies exists|i: int|
            0 <= i < looks.len() && #[trigger] known_model(receipt, looks[i], models) == Some(
                id,
            ) by {
            assert(ids.to_set().contains(id));
            let k = ids.index_of(id);
            assert(known_model(receipt, looks[0 + k], models) == Some(ids[k]));
        }
        assert forall|i: int| 0 <= i < looks.len() implies #[trigger] known_model(
            receipt,
            looks[i],
            models,
        ) is Some && ordered(ids.to_set()).contains(known_model(receipt, looks[i], models)->0) by {
            assert(known_model(receipt, looks[0 + i], models) == Some(ids[i]));
            assert(ids.contains(ids[i]));
            assert(ids.to_set().contains(ids[i]));
        }
    }
}

/// Whether a member of a receipt is in order and is found as it was recorded.
pub open spec fn unchanged(
    receipt: ReceiptView,
    looks: Seq<LookView>,
    directory: Seq<Seq<char>>,
    at: int,
) -> bool {
    let member = receipt.members[at];
    &&& is_safe(member.path)
    &&& forall|k: int|
        0 <= k < at ==> parts((#[trigger] receipt.members[k]).path) != parts(member.path)
    &&& member.provenance.acquisition_id == receipt.acquisition_id
    &&& looks[at] matches LookView::Seen(observed) && {
        &&& observed.place == directory || inside(observed.place, directory)
        &&& observed.is_file
        &&& observed.size_bytes == member.provenance.size_bytes
        &&& observed.format == Some(member.format)
    }
}

/// The model that a member is, where it is known as one of the acquisition: the first at its place.
pub open spec fn known_model(
    receipt: ReceiptView,
    look: LookView,
    models: Seq<DiscoveredView>,
) -> Option<Seq<char>> {
    match discovered_at(models, look->Seen_0.place) {
        Some(model) if model.acquisition_id == Some(receipt.acquisition_id) => Some(model.id),
        _ => None,
    }
}

/// The model of a place is the first that is there.
pub proof fn law_models_are_found_by_place(models: Seq<DiscoveredView>, place: Seq<Seq<char>>)
    ensures
        match discovered_at(models, place) {
            Some(model) => model.place == place && models.contains(model),
            None => forall|i: int|
                0 <= i < models.len() ==> (#[trigger] models[i]).place != place,
        },
        models.len() > 0 && models[0].place == place ==> discovered_at(models, place) == Some(
            models[0],
        ),
    decreases models.len(),
{
    if models.len() > 0 {
        if models[0].place != place {
            let rest = models.skip(1);
            law_models_are_found_by_place(rest, place);
            if let Some(model) = discovered_at(rest, place) {
                assert(models[rest.index_of(model) + 1] == model);
            } else {
                assert forall|i: int| 0 <= i < models.len() implies (#[trigger] models[i]).place
                    != place by {
                    if i > 0 {
                        assert(rest[i - 1] == models[i]);
                    }
                }
            }
        } else {
            assert(models.contains(models[0]));
        }
    }
}

proof fn lemma_refusals(
    receipt: ReceiptView,
    looks: Seq<LookView>,
    directory: Seq<Seq<char>>,
    at: int,
)
    requires
        looks.len() == receipt.members.len(),
        0 <= at <= looks.len(),
    ensures
        refusal_from(receipt, looks, directory, at) is None <==> forall|i: int|
            at <= i < looks.len() ==> #[trigger] unchanged(receipt, looks, directory, i),
    decreases looks.len() - at,
{
    if at < looks.len() {
        lemma_refusals(receipt, looks, directory, at + 1);
        assert(member_refusal(receipt, at, looks[at], directory) is None <==> unchanged(
            receipt,
            looks,
            directory,
            at,
        ));
    }
}

proof fn lemma_models(
    receipt: ReceiptView,
    looks: Seq<LookView>,
    models: Seq<DiscoveredView>,
    warnings: Seq<Seq<char>>,
    at: int,
)
    requires
        looks.len() == receipt.members.len(),
        0 <= at <= looks.len(),
    ensures
        match models_from(receipt, looks, models, warnings, at) {
            Ok(ids) => ids.len() == looks.len() - at && forall|k: int|
                0 <= k < ids.len() ==> known_model(receipt, looks[at + k], models) == Some(
                    #[trigger] ids[k],
                ),
            Err(_) => exists|i: int|
                at <= i < looks.len() && #[trigger] known_model(receipt, looks[i], models) is None,
        },
    decreases looks.len() - at,
{
    if at < looks.len() {
        lemma_models(receipt, looks, models, warnings, at + 1);
        assert(member_model(receipt, at, looks[at], models, warnings) is Err <==> known_model(
            receipt,
            looks[at],
            models,
        ) is None);
        if let Ok(ids) = models_from(receipt, looks, models, warnings, at) {
            let rest = models_from(receipt, looks, models, warnings, at + 1)->Ok_0;
            assert forall|k: int| 0 <= k < ids.len() implies known_model(
                receipt,
                looks[at + k],
                models,
            ) == Some(#[trigger] ids[k]) by {
                if k > 0 {
                    assert(rest[k - 1] == ids[k]);
                    assert(at + 1 + (k - 1) == at + k);
                }
            }
        }
    }
}

} // verus!
