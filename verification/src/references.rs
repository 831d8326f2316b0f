//! References to models that are published, and where what they name is kept.
use vstd::prelude::*;
use vstd::string::*;

use crate::duplicate::{lemma_views_push, optional, views};
use crate::outside::{
    append_query, append_segments, encoded_width, is_countable, pair_texts, segments_width, text_width,
    url_asking, url_with,
};
use crate::paths::{is_plain_name, is_safe, plain_name, safe_relative};
use crate::provenance::{sha256_text, text_digest};
use crate::text::{
    begins, cat2, cat3, cat4, cat6, cat7, chars_of, cut, first_chars, pieces, split_on, split_once,
    starts_with, take_chars, text_between,
};

verus! {

/// Why an operation on the model library failed.
#[derive(Debug)]
pub enum ModelLibraryError {
    Http(String),
    Io { path: String, source: String },
    InvalidReference(String),
    InvalidCatalog(String),
    InvalidArtifact(String),
    AlreadyInstalled(String),
    NotManaged(String),
    NotFound(String),
    DigestMismatch { filename: String, expected: String, observed: String },
}

#[verifier::ext_equal]
pub enum LibraryErrorView {
    Http(Seq<char>),
    Io { path: Seq<char>, source: Seq<char> },
    InvalidReference(Seq<char>),
    InvalidCatalog(Seq<char>),
    InvalidArtifact(Seq<char>),
    AlreadyInstalled(Seq<char>),
    NotManaged(Seq<char>),
    NotFound(Seq<char>),
    DigestMismatch { filename: Seq<char>, expected: Seq<char>, observed: Seq<char> },
}

impl View for ModelLibraryError {
    type V = LibraryErrorView;

    open spec fn view(&self) -> LibraryErrorView {
        match self {
            ModelLibraryError::Http(error) => LibraryErrorView::Http(error@),
            ModelLibraryError::Io { path, source } => LibraryErrorView::Io {
                path: path@,
                source: source@,
            },
            ModelLibraryError::InvalidReference(text) => LibraryErrorView::InvalidReference(text@),
            ModelLibraryError::InvalidCatalog(text) => LibraryErrorView::InvalidCatalog(text@),
            ModelLibraryError::InvalidArtifact(text) => LibraryErrorView::InvalidArtifact(text@),
            ModelLibraryError::AlreadyInstalled(path) => LibraryErrorView::AlreadyInstalled(path@),
            ModelLibraryError::NotManaged(id) => LibraryErrorView::NotManaged(id@),
            ModelLibraryError::NotFound(id) => LibraryErrorView::NotFound(id@),
            ModelLibraryError::DigestMismatch { filename, expected, observed } => {
                LibraryErrorView::DigestMismatch {
                    filename: filename@,
                    expected: expected@,
                    observed: observed@,
                }
            },
        }
    }
}

impl LibraryErrorView {
    pub open spec fn text(self) -> Seq<char> {
        match self {
            LibraryErrorView::Http(error) => "model catalog request failed: "@ + error,
            LibraryErrorView::Io { path, source } => "model library I/O failed for "@ + path
                + ": "@ + source,
            LibraryErrorView::InvalidReference(text) => "invalid model reference: "@ + text,
            LibraryErrorView::InvalidCatalog(text) => "model catalog entry is invalid: "@ + text,
            LibraryErrorView::InvalidArtifact(text) => "model artifact is invalid: "@ + text,
            LibraryErrorView::AlreadyInstalled(path) => {
                "model artifact already exists in the managed library: "@ + path
            },
            LibraryErrorView::NotManaged(id) => "model `"@ + id
                + "` is not a managed library artifact and cannot be removed"@,
            LibraryErrorView::NotFound(id) => "model `"@ + id + "` was not found"@,
            LibraryErrorView::DigestMismatch { filename, expected, observed } => {
                "download checksum mismatch for "@ + filename + ": expected "@ + expected
                    + ", observed "@ + observed
            },
        }
    }
}

impl ModelLibraryError {
    pub fn message(&self) -> (result: String)
        ensures
            result@ == self@.text(),
    {
        match self {
            ModelLibraryError::Http(error) => cat2(
                "model catalog request failed: ",
                error.as_str(),
            ),
            ModelLibraryError::Io { path, source } => cat4(
                "model library I/O failed for ",
                path.as_str(),
                ": ",
                source.as_str(),
            ),
            ModelLibraryError::InvalidReference(text) => cat2(
                "invalid model reference: ",
                text.as_str(),
            ),
            ModelLibraryError::InvalidCatalog(text) => cat2(
                "model catalog entry is invalid: ",
                text.as_str(),
            ),
            ModelLibraryError::InvalidArtifact(text) => cat2(
                "model artifact is invalid: ",
                text.as_str(),
            ),
            ModelLibraryError::AlreadyInstalled(path) => cat2(
                "model artifact already exists in the managed library: ",
                path.as_str(),
            ),
            ModelLibraryError::NotManaged(id) => cat3(
                "model `",
                id.as_str(),
                "` is not a managed library artifact and cannot be removed",
            ),
            ModelLibraryError::NotFound(id) => cat3("model `", id.as_str(), "` was not found"),
            ModelLibraryError::DigestMismatch { filename, expected, observed } => cat6(
                "download checksum mismatch for ",
                filename.as_str(),
                ": expected ",
                expected.as_str(),
                ", observed ",
                observed.as_str(),
            ),
        }
    }
}

/// A reference to a file of a repository at a revision.
#[derive(Debug)]
pub struct HfReference {
    pub repository: String,
    pub revision: String,
    pub filename: String,
}

#[verifier::ext_equal]
pub struct ReferenceView {
    pub repository: Seq<char>,
    pub revision: Seq<char>,
    pub filename: Seq<char>,
}

impl View for HfReference {
    type V = ReferenceView;

    open spec fn view(&self) -> ReferenceView {
        ReferenceView {
            repository: self.repository@,
            revision: self.revision@,
            filename: self.filename@,
        }
    }
}

/// What a reference says: behind the name of the provider a repository, up to the first `@`; a
/// revision, up to the next slash; and a file.
pub open spec fn parsed_reference(value: Seq<char>) -> Result<ReferenceView, LibraryErrorView> {
    if !begins(value, "huggingface:"@) {
        Err(
            LibraryErrorView::InvalidReference(
                "expected huggingface:<publisher>/<repository>@<revision>/<filename>"@,
            ),
        )
    } else {
        match cut(value.skip("huggingface:"@.len() as int), '@') {
            None => Err(
                LibraryErrorView::InvalidReference("Hugging Face reference is missing @revision"@),
            ),
            Some((repository, rest)) => match cut(rest, '/') {
                None => Err(
                    LibraryErrorView::InvalidReference(
                        "Hugging Face reference is missing filename"@,
                    ),
                ),
                Some((revision, filename)) => if pieces(repository, '/').len() != 2
                    || revision.len() == 0 || filename.len() == 0 || !is_safe(filename) {
                    Err(LibraryErrorView::InvalidReference(value))
                } else {
                    Ok(ReferenceView { repository, revision, filename })
                },
            },
        }
    }
}

fn is_empty(text: &str) -> (result: bool)
    ensures
        result == (text@.len() == 0),
{
    chars_of(text).len() == 0
}

pub fn parse_hf_ref(value: &str) -> (result: Result<HfReference, ModelLibraryError>)
    ensures
        match (result, parsed_reference(value@)) {
            (Ok(reference), Ok(expected)) => reference@ == expected,
            (Err(error), Err(expected)) => error@ == expected,
            _ => false,
        },
{
    if !starts_with(value, "huggingface:") {
        return Err(
            ModelLibraryError::InvalidReference(
                "expected huggingface:<publisher>/<repository>@<revision>/<filename>".to_owned(),
            ),
        );
    }
    let chars = chars_of(value);
    let prefix: usize = chars_of("huggingface:").len();
    let rest = text_between(&chars, prefix, chars.len());
    proof {
        assert(rest@ =~= value@.skip("huggingface:"@.len() as int));
    }
    let (repository, rest) = match split_once(rest.as_str(), '@') {
        Some(found) => found,
        None => {
            return Err(
                ModelLibraryError::InvalidReference(
                    "Hugging Face reference is missing @revision".to_owned(),
                ),
            );
        },
    };
    let (revision, filename) = match split_once(rest.as_str(), '/') {
        Some(found) => found,
        None => {
            return Err(
                ModelLibraryError::InvalidReference(
                    "Hugging Face reference is missing filename".to_owned(),
                ),
            );
        },
    };
    let publisher_and_name = split_on(repository.as_str(), '/');
    proof {
        assert(views(publisher_and_name@).len() == publisher_and_name@.len());
    }
    if publisher_and_name.len() != 2 || is_empty(revision.as_str()) || is_empty(filename.as_str())
        || !safe_relative(filename.as_str()) {
        return Err(ModelLibraryError::InvalidReference(value.to_owned()));
    }
    Ok(HfReference { repository, revision, filename })
}

/// A reference as it is written.
pub open spec fn written_reference(
    repository: Seq<char>,
    revision: Seq<char>,
    filename: Seq<char>,
) -> Seq<char> {
    "huggingface:"@ + repository + "@"@ + revision + "/"@ + filename
}

pub fn write_reference(repository: &str, revision: &str, filename: &str) -> (result: String)
    ensures
        result@ == written_reference(repository@, revision@, filename@),
{
    cat6("huggingface:", repository, "@", revision, "/", filename)
}

proof fn lemma_cut_at(before: Seq<char>, c: char, behind: Seq<char>)
    requires
        !before.contains(c),
    ensures
        cut(before + seq![c] + behind, c) == Some((before, behind)),
{
    let text = before + seq![c] + behind;
    text.index_of_first_ensures(c);
    assert(text[before.len() as int] == c);
    assert(text.contains(c));
    let at = text.index_of_first(c)->0;
    if at < before.len() {
        assert(before[at] == c);
        assert(before.contains(c));
    } else if at > before.len() {
        assert(text[before.len() as int] != c);
    }
    assert(text.take(at) =~= before);
    assert(text.skip(at + 1) =~= behind);
}

/// What is written as a reference is read back: of a repository of a publisher without an `@`, a
/// revision without a slash, and a safe file.
pub proof fn law_references_are_read_back(
    repository: Seq<char>,
    revision: Seq<char>,
    filename: Seq<char>,
)
    requires
        !repository.contains('@'),
        pieces(repository, '/').len() == 2,
        revision.len() > 0,
        !revision.contains('/'),
        is_safe(filename),
    ensures
        parsed_reference(written_reference(repository, revision, filename)) == Ok::<
            ReferenceView,
            LibraryErrorView,
        >(ReferenceView { repository, revision, filename }),
{
    reveal_strlit("huggingface:");
    reveal_strlit("@");
    reveal_strlit("/");
    let value = written_reference(repository, revision, filename);
    let prefix = "huggingface:"@;
    let rest = value.skip(prefix.len() as int);
    assert(value.take(prefix.len() as int) =~= prefix);
    assert(rest =~= repository + seq!['@'] + (revision + seq!['/'] + filename));
    lemma_cut_at(repository, '@', revision + seq!['/'] + filename);
    lemma_cut_at(revision, '/', filename);
}

/// Whether the provider of a name is the one that a reference asks for.
pub fn is_provider_of(provider: &str, model_ref: &str) -> (result: bool)
    ensures
        result == begins(model_ref@, provider@ + ":"@),
{
    starts_with(model_ref, cat2(provider, ":").as_str())
}

/// The first provider that a reference asks for, by its place.
pub open spec fn provider_at(providers: Seq<Seq<char>>, model_ref: Seq<char>) -> Option<int>
    decreases providers.len(),
{
    if providers.len() == 0 {
        None
    } else {
        match provider_at(providers.drop_last(), model_ref) {
            Some(at) => Some(at),
            None => if begins(model_ref, providers.last() + ":"@) {
                Some(providers.len() - 1)
            } else {
                None
            },
        }
    }
}

pub fn provider_for(providers: &Vec<String>, model_ref: &str) -> (result: Result<
    usize,
    ModelLibraryError,
>)
    ensures
        match (result, provider_at(views(providers@), model_ref@)) {
            (Ok(i), Some(at)) => i == at && i < providers@.len(),
            (Err(error), None) => error@ == LibraryErrorView::InvalidReference(model_ref@),
            _ => false,
        },
{
    let ghost all = views(providers@);
    let mut found: Option<usize> = None;
    let mut i: usize = 0;
    while i < providers.len()
        invariant
            i <= providers.len(),
            all == views(providers@),
            match (found, provider_at(all.take(i as int), model_ref@)) {
                (Some(b), Some(at)) => b == at && b < i,
                (None, None) => true,
                _ => false,
            },
        decreases providers.len() - i,
    {
        proof {
            assert(all.take(i + 1).drop_last() =~= all.take(i as int));
            assert(all.take(i + 1).last() == providers@[i as int]@);
        }
        if found.is_none() && is_provider_of(providers[i].as_str(), model_ref) {
            found = Some(i);
        }
        i += 1;
    }
    proof {
        assert(all.take(all.len() as int) =~= all);
    }
    match found {
        Some(at) => Ok(at),
        None => Err(ModelLibraryError::InvalidReference(model_ref.to_owned())),
    }
}

/// Where the hub is.
pub open spec fn hub() -> Seq<char> {
    "https://huggingface.co/"@
}

/// What is said where an address cannot be made.
pub open spec fn no_address() -> LibraryErrorView {
    LibraryErrorView::InvalidCatalog("Hugging Face base URL cannot hold path segments"@)
}

/// The address at the hub that segments lead to.
pub open spec fn hub_address(segments: Seq<Seq<char>>) -> Result<Seq<char>, LibraryErrorView> {
    match url_with(hub(), segments) {
        Some(url) => Ok(url),
        None => Err(no_address()),
    }
}

/// Whether the address that segments lead to has no more bytes than can be counted.
pub open spec fn reachable(segments: Seq<Seq<char>>) -> bool {
    is_countable(hub(), segments)
}

fn char_width(c: char) -> (result: u64)
    ensures
        result == encoded_width(c),
{
    if ('a' <= c && c <= 'z') || ('A' <= c && c <= 'Z') || ('0' <= c && c <= '9') || c == '-' || c
        == '.' || c == '_' {
        1
    } else if (c as u32) < 0x80 {
        3
    } else if (c as u32) < 0x800 {
        6
    } else if (c as u32) < 0x1_0000 {
        9
    } else {
        12
    }
}

proof fn lemma_width_grows(text: Seq<char>, count: int)
    requires
        0 <= count <= text.len(),
    ensures
        text_width(text.take(count)) <= text_width(text),
    decreases text.len(),
{
    if count == text.len() {
        assert(text.take(count) =~= text);
    } else {
        lemma_width_grows(text.drop_last(), count);
        assert(text.drop_last().take(count) =~= text.take(count));
    }
}

/// How many bytes a text takes at most in an address, or `None` where they are more than can be counted.
fn width_of(text: &str) -> (result: Option<u64>)
    ensures
        match result {
            Some(width) => width == text_width(text@) && width <= u32::MAX,
            None => text_width(text@) > u32::MAX,
        },
{
    let chars = chars_of(text);
    let mut width: u64 = 0;
    let mut i: usize = 0;
    while i < chars.len()
        invariant
            i <= chars.len(),
            chars@ == text@,
            width == text_width(text@.take(i as int)),
            width <= u32::MAX,
        decreases chars.len() - i,
    {
        proof {
            assert(text@.take(i + 1).drop_last() =~= text@.take(i as int));
            lemma_width_grows(text@, i + 1);
        }
        width = width + char_width(chars[i]);
        if width > 0xffff_ffff {
            return None;
        }
        i += 1;
    }
    proof {
        assert(text@.take(text@.len() as int) =~= text@);
    }
    Some(width)
}

proof fn lemma_segments_grow(segments: Seq<Seq<char>>, count: int)
    requires
        0 <= count <= segments.len(),
    ensures
        segments_width(segments.take(count)) <= segments_width(segments),
    decreases segments.len(),
{
    if count == segments.len() {
        assert(segments.take(count) =~= segments);
    } else {
        lemma_segments_grow(segments.drop_last(), count);
        assert(segments.drop_last().take(count) =~= segments.take(count));
    }
}

/// Whether the address that segments lead to has no more bytes than can be counted.
pub fn is_reachable(segments: &Vec<String>) -> (result: bool)
    ensures
        result == reachable(views(segments@)),
{
    let ghost all = views(segments@);
    let mut width: u64 = 23;
    let mut i: usize = 0;
    proof {
        reveal_strlit("https://huggingface.co/");
    }
    while i < segments.len()
        invariant
            i <= segments.len(),
            all == views(segments@),
            hub().len() == 23,
            width == 23 + segments_width(all.take(i as int)),
            width <= u32::MAX,
        decreases segments.len() - i,
    {
        proof {
            assert(all.take(i + 1).drop_last() =~= all.take(i as int));
            assert(all.take(i + 1).last() == segments@[i as int]@);
            lemma_segments_grow(all, i + 1);
        }
        match width_of(segments[i].as_str()) {
            Some(more) => {
                width = width + more + 1;
            },
            None => {
                return false;
            },
        }
        if width > 0xffff_ffff {
            return false;
        }
        i += 1;
    }
    proof {
        assert(all.take(all.len() as int) =~= all);
    }
    true
}

pub fn address_at_hub(segments: &Vec<String>) -> (result: Result<String, ModelLibraryError>)
    requires
        reachable(views(segments@)),
    ensures
        match (result, hub_address(views(segments@))) {
            (Ok(url), Ok(expected)) => url@ == expected,
            (Err(error), Err(expected)) => error@ == expected,
            _ => false,
        },
{
    match append_segments("https://huggingface.co/", segments) {
        Some(url) => Ok(url),
        None => Err(
            ModelLibraryError::InvalidCatalog(
                "Hugging Face base URL cannot hold path segments".to_owned(),
            ),
        ),
    }
}

/// Adds texts to a list.
pub fn append_texts(list: &mut Vec<String>, more: Vec<String>)
    ensures
        views(final(list)@) == views(old(list)@) + views(more@),
{
    let ghost before = views(list@);
    let ghost all = views(more@);
    let mut i: usize = 0;
    proof {
        assert(before + all.take(0) =~= before);
    }
    while i < more.len()
        invariant
            i <= more.len(),
            all == views(more@),
            views(list@) == before + all.take(i as int),
        decreases more.len() - i,
    {
        let one = more[i].clone();
        proof {
            assert(all[i as int] == one@);
            lemma_views_push(list@, one);
            assert((before + all.take(i as int)).push(one@) =~= before + all.take(i + 1));
        }
        list.push(one);
        i += 1;
    }
    proof {
        assert(all.take(all.len() as int) =~= all);
    }
}

/// The segments that lead to a file of a repository.
pub open spec fn file_segments(
    repository: Seq<char>,
    revision: Seq<char>,
    filename: Seq<char>,
) -> Seq<Seq<char>> {
    pieces(repository, '/') + seq!["resolve"@, revision] + pieces(filename, '/')
}

fn segments_of_file(repository: &str, revision: &str, filename: &str) -> (result: Vec<String>)
    ensures
        views(result@) == file_segments(repository@, revision@, filename@),
{
    let mut segments = split_on(repository, '/');
    let middle = vec!["resolve".to_owned(), revision.to_owned()];
    proof {
        assert(views(middle@) =~= seq!["resolve"@, revision@]);
    }
    append_texts(&mut segments, middle);
    append_texts(&mut segments, split_on(filename, '/'));
    segments
}

/// Whether the address of a file has no more bytes than can be counted.
pub fn file_is_reachable(repository: &str, revision: &str, filename: &str) -> (result: bool)
    ensures
        result == reachable(file_segments(repository@, revision@, filename@)),
{
    is_reachable(&segments_of_file(repository, revision, filename))
}

/// The address of a file of a repository.
pub fn file_address(repository: &str, revision: &str, filename: &str) -> (result: Result<
    String,
    ModelLibraryError,
>)
    requires
        reachable(file_segments(repository@, revision@, filename@)),
    ensures
        match (result, hub_address(file_segments(repository@, revision@, filename@))) {
            (Ok(url), Ok(expected)) => url@ == expected,
            (Err(error), Err(expected)) => error@ == expected,
            _ => false,
        },
{
    address_at_hub(&segments_of_file(repository, revision, filename))
}

/// The segments that lead to what the hub knows of a repository.
pub open spec fn repository_segments(
    repository: Seq<char>,
    revision: Option<Seq<char>>,
) -> Seq<Seq<char>> {
    seq!["api"@, "models"@] + pieces(repository, '/') + match revision {
        Some(revision) => seq!["revision"@, revision],
        None => Seq::empty(),
    }
}

/// The address at the hub that segments and a query lead to.
pub open spec fn asked(segments: Seq<Seq<char>>, pairs: Seq<(Seq<char>, Seq<char>)>) -> Result<
    Seq<char>,
    LibraryErrorView,
> {
    match url_asking(hub(), segments, pairs) {
        Some(url) => Ok(url),
        None => Err(no_address()),
    }
}

fn ask(segments: &Vec<String>, pairs: &Vec<(String, String)>) -> (result: Result<
    String,
    ModelLibraryError,
>)
    requires
        reachable(views(segments@)),
    ensures
        match (result, asked(views(segments@), pair_texts(pairs@))) {
            (Ok(url), Ok(expected)) => url@ == expected,
            (Err(error), Err(expected)) => error@ == expected,
            _ => false,
        },
{
    match append_query("https://huggingface.co/", segments, pairs) {
        Some(url) => Ok(url),
        None => Err(
            ModelLibraryError::InvalidCatalog(
                "Hugging Face base URL cannot hold path segments".to_owned(),
            ),
        ),
    }
}

fn segments_of_repository(repository: &str, revision: &Option<String>) -> (result: Vec<String>)
    ensures
        views(result@) == repository_segments(repository@, optional(*revision)),
{
    let mut segments = vec!["api".to_owned(), "models".to_owned()];
    proof {
        assert(views(segments@) =~= seq!["api"@, "models"@]);
    }
    append_texts(&mut segments, split_on(repository, '/'));
    match revision {
        Some(revision) => {
            let end = vec!["revision".to_owned(), revision.clone()];
            proof {
                assert(views(end@) =~= seq!["revision"@, revision@]);
            }
            append_texts(&mut segments, end);
        },
        None => {
            proof {
                assert(views(segments@) + Seq::<Seq<char>>::empty() =~= views(segments@));
            }
        },
    }
    segments
}

/// Whether the address to ask at for a repository has no more bytes than can be counted.
pub fn repository_is_reachable(repository: &str, revision: &Option<String>) -> (result: bool)
    ensures
        result == reachable(repository_segments(repository@, optional(*revision))),
{
    is_reachable(&segments_of_repository(repository, revision))
}

/// Where to ask for what the hub knows of a repository.
pub fn repository_address(repository: &str, revision: &Option<String>) -> (result: Result<
    String,
    ModelLibraryError,
>)
    requires
        reachable(repository_segments(repository@, optional(*revision))),
    ensures
        match (
            result,
            asked(
                repository_segments(repository@, optional(*revision)),
                seq![("blobs"@, "true"@)],
            ),
        ) {
            (Ok(url), Ok(expected)) => url@ == expected,
            (Err(error), Err(expected)) => error@ == expected,
            _ => false,
        },
{
    let segments = segments_of_repository(repository, revision);
    let pairs = vec![("blobs".to_owned(), "true".to_owned())];
    proof {
        assert(pair_texts(pairs@) =~= seq![("blobs"@, "true"@)]);
    }
    ask(&segments, &pairs)
}

proof fn lemma_text_is_narrow(text: Seq<char>)
    ensures
        text_width(text) <= 12 * text.len(),
    decreases text.len(),
{
    if text.len() > 0 {
        lemma_text_is_narrow(text.drop_last());
    }
}

proof fn lemma_search_is_reachable()
    ensures
        reachable(seq!["api"@, "models"@]),
{
    reveal_strlit("https://huggingface.co/");
    reveal_strlit("api");
    reveal_strlit("models");
    lemma_text_is_narrow("api"@);
    lemma_text_is_narrow("models"@);
    let all = seq!["api"@, "models"@];
    assert(all.drop_last() =~= seq!["api"@]);
    assert(seq!["api"@].drop_last() =~= Seq::<Seq<char>>::empty());
    reveal_with_fuel(segments_width, 3);
}

/// Where to search the hub.
pub fn search_address(query: &str) -> (result: Result<String, ModelLibraryError>)
    ensures
        match (
            result,
            asked(
                seq!["api"@, "models"@],
                seq![
                    ("search"@, query@),
                    ("limit"@, "50"@),
                    ("full"@, "true"@),
                    ("blobs"@, "true"@),
                ],
            ),
        ) {
            (Ok(url), Ok(expected)) => url@ == expected,
            (Err(error), Err(expected)) => error@ == expected,
            _ => false,
        },
{
    let segments = vec!["api".to_owned(), "models".to_owned()];
    proof {
        assert(views(segments@) =~= seq!["api"@, "models"@]);
        lemma_search_is_reachable();
    }
    let pairs = vec![
        ("search".to_owned(), query.to_owned()),
        ("limit".to_owned(), "50".to_owned()),
        ("full".to_owned(), "true".to_owned()),
        ("blobs".to_owned(), "true".to_owned()),
    ];
    proof {
        assert(pair_texts(pairs@) =~= seq![
            ("search"@, query@),
            ("limit"@, "50"@),
            ("full"@, "true"@),
            ("blobs"@, "true"@),
        ]);
    }
    ask(&segments, &pairs)
}

/// What is said of a name that is not plain.
pub open spec fn unsafe_segment(value: Seq<char>) -> LibraryErrorView {
    LibraryErrorView::InvalidCatalog("unsafe path segment `"@ + value + "`"@)
}

pub fn safe_segment(value: &str) -> (result: Result<String, ModelLibraryError>)
    ensures
        match result {
            Ok(name) => is_plain_name(value@) && name@ == value@,
            Err(error) => !is_plain_name(value@) && error@ == unsafe_segment(value@),
        },
{
    if plain_name(value) {
        Ok(value.to_owned())
    } else {
        Err(ModelLibraryError::InvalidCatalog(cat3("unsafe path segment `", value, "`")))
    }
}

/// The name of a remote file as a path, where it is safe.
pub fn safe_remote_path(filename: &str) -> (result: Result<String, ModelLibraryError>)
    ensures
        match result {
            Ok(path) => is_safe(filename@) && path@ == filename@,
            Err(error) => !is_safe(filename@) && error@ == LibraryErrorView::InvalidCatalog(
                "unsafe remote filename `"@ + filename@ + "`"@,
            ),
        },
{
    if safe_relative(filename) {
        Ok(filename.to_owned())
    } else {
        Err(
            ModelLibraryError::InvalidCatalog(
                cat3("unsafe remote filename `", filename, "`"),
            ),
        )
    }
}

/// A piece of a text between slashes, nothing where there are not that many.
pub open spec fn piece_or_empty(text: Seq<char>, at: int) -> Seq<char> {
    if at < pieces(text, '/').len() {
        pieces(text, '/')[at]
    } else {
        ""@
    }
}

/// Where an acquisition is kept, from the root of the library: by publisher, repository and revision,
/// then by what identifies it.
pub open spec fn destination(
    repository: Seq<char>,
    revision: Seq<char>,
    identity: Seq<char>,
) -> Result<Seq<Seq<char>>, LibraryErrorView> {
    let publisher = piece_or_empty(repository, 0);
    let name = piece_or_empty(repository, 1);
    if !is_plain_name(publisher) {
        Err(unsafe_segment(publisher))
    } else if !is_plain_name(name) {
        Err(unsafe_segment(name))
    } else if !is_plain_name(revision) {
        Err(unsafe_segment(revision))
    } else {
        Ok(
            seq![
                "huggingface"@,
                publisher,
                name,
                revision,
                first_chars(text_digest(identity), 16),
            ],
        )
    }
}

fn piece_at(list: &Vec<String>, at: usize) -> (result: String)
    ensures
        result@ == if at < list@.len() {
            list@[at as int]@
        } else {
            ""@
        },
{
    if at < list.len() {
        list[at].clone()
    } else {
        "".to_owned()
    }
}

pub fn managed_destination(repository: &str, revision: &str, identity: &str) -> (result: Result<
    Vec<String>,
    ModelLibraryError,
>)
    ensures
        match (result, destination(repository@, revision@, identity@)) {
            (Ok(path), Ok(expected)) => views(path@) == expected && forall|i: int|
                0 <= i < path@.len() ==> is_plain_name((#[trigger] path@[i])@),
            (Err(error), Err(expected)) => error@ == expected,
            _ => false,
        },
{
    let list = split_on(repository, '/');
    proof {
        assert(views(list@).len() == list@.len());
        if list@.len() > 0 {
            assert(views(list@)[0] == list@[0]@);
        }
        if list@.len() > 1 {
            assert(views(list@)[1] == list@[1]@);
        }
    }
    let publisher = match safe_segment(piece_at(&list, 0).as_str()) {
        Ok(name) => name,
        Err(error) => {
            return Err(error);
        },
    };
    let name = match safe_segment(piece_at(&list, 1).as_str()) {
        Ok(name) => name,
        Err(error) => {
            return Err(error);
        },
    };
    let revision = match safe_segment(revision) {
        Ok(name) => name,
        Err(error) => {
            return Err(error);
        },
    };
    let digest = sha256_text(identity);
    let artifact = take_chars(digest.as_str(), 16);
    proof {
        lemma_digest_is_plain(identity@);
        lemma_provider_is_plain();
    }
    let path = vec!["huggingface".to_owned(), publisher, name, revision, artifact];
    proof {
        assert(views(path@) =~= destination(repository@, revision@, identity@)->Ok_0);
        assert forall|i: int| 0 <= i < path@.len() implies is_plain_name(
            (#[trigger] path@[i])@,
        ) by {
            assert(i == 0 || i == 1 || i == 2 || i == 3 || i == 4);
        }
    }
    Ok(path)
}

proof fn lemma_provider_is_plain()
    ensures
        is_plain_name("huggingface"@),
{
    reveal_strlit("huggingface");
    reveal_strlit(".");
    reveal_strlit("..");
    let name = "huggingface"@;
    assert(name.len() == 11);
    assert forall|i: int| 0 <= i < 11 implies name[i] != '/' && name[i] != '\\' by {
        assert(i == 0 || i == 1 || i == 2 || i == 3 || i == 4 || i == 5 || i == 6 || i == 7 || i
            == 8 || i == 9 || i == 10);
    }
}

proof fn lemma_digest_is_plain(text: Seq<char>)
    requires
        text_digest(text).len() == 64,
    ensures
        is_plain_name(first_chars(text_digest(text), 16)),
{
    reveal_strlit(".");
    reveal_strlit("..");
    let digest = text_digest(text);
    let name = first_chars(digest, 16);
    crate::provenance::law_hex_text(
        crate::outside::sha256(vstd::utf8::encode_utf8(text)),
        Seq::empty(),
    );
    assert forall|i: int| 0 <= i < name.len() implies name[i] != '/' && name[i] != '\\' by {
        assert(name[i] == digest[i]);
        assert(crate::outside::is_hex_digit(digest[i]));
    }
    assert(name.len() == 16);
}

/// Whatever a catalog says, an acquisition is kept below the folder of its provider, in folders with
/// plain names for publisher, repository and revision.
pub proof fn law_destinations_are_inside(
    repository: Seq<char>,
    revision: Seq<char>,
    identity: Seq<char>,
)
    ensures
        match destination(repository, revision, identity) {
            Ok(path) => path.len() == 5 && path[0] == "huggingface"@ && is_plain_name(path[1])
                && is_plain_name(path[2]) && is_plain_name(path[3]),
            Err(_) => true,
        },
{
}

/// The identifier of an acquisition.
pub fn remote_acquisition_id(
    provider: &str,
    repository: &str,
    revision: &str,
    identity: &str,
) -> (result: String)
    ensures
        result@ == provider@ + ":"@ + repository@ + "@"@ + revision@ + ":"@ + identity@,
{
    cat7(provider, ":", repository, "@", revision, ":", identity)
}

/// The name of the file that an unfinished download of an address is kept in.
pub fn download_partial_name(model_ref: &str, url: &str) -> (result: String)
    ensures
        result@ == text_digest(model_ref@ + "\0"@ + url@) + ".part"@,
{
    cat2(sha256_text(cat3(model_ref, "\0", url).as_str()).as_str(), ".part")
}

/// The name of the lock of an acquisition.
pub fn acquisition_lock_name(acquisition_id: &str) -> (result: String)
    ensures
        result@ == text_digest(acquisition_id@) + ".lock"@,
{
    cat2(sha256_text(acquisition_id).as_str(), ".lock")
}

/// The identifier of what is imported, and the names of the directories that it is kept in.
pub fn import_place(identity: &str) -> (result: (String, Vec<String>))
    ensures
        result.0@ == "local-import:"@ + text_digest(identity@),
        views(result.1@) == seq!["imports"@, first_chars(text_digest(identity@), 12)],
{
    let digest = sha256_text(identity);
    let place = vec!["imports".to_owned(), take_chars(digest.as_str(), 12)];
    proof {
        assert(views(place@) =~= seq!["imports"@, first_chars(text_digest(identity@), 12)]);
    }
    (cat2("local-import:", digest.as_str()), place)
}

/// What is read as a reference is one that is written so: with a repository of a publisher, a revision and
/// a safe filename.
pub proof fn law_what_is_read_was_written(value: Seq<char>)
    ensures
        parsed_reference(value) matches Ok(reference) ==> {
            &&& value == "huggingface:"@ + reference.repository + "@"@ + reference.revision + "/"@
                + reference.filename
            &&& pieces(reference.repository, '/').len() == 2
            &&& !reference.repository.contains('@')
            &&& reference.revision.len() > 0
            &&& !reference.revision.contains('/')
            &&& is_safe(reference.filename)
        },
{
    reveal_strlit("huggingface:");
    reveal_strlit("@");
    reveal_strlit("/");
    if let Ok(reference) = parsed_reference(value) {
        let prefix = "huggingface:"@;
        let body = value.skip(prefix.len() as int);
        let rest = cut(body, '@')->0;
        lemma_cut(body, '@');
        lemma_cut(rest.1, '/');
        assert(value =~= prefix + body);
        assert(value =~= "huggingface:"@ + reference.repository + "@"@ + reference.revision + "/"@
            + reference.filename);
    }
}

proof fn lemma_cut(text: Seq<char>, c: char)
    ensures
        cut(text, c) matches Some((before, behind)) ==> text == before + seq![c] + behind
            && !before.contains(c),
        cut(text, c) is None ==> !text.contains(c),
{
    text.index_of_first_ensures(c);
    if let Some((before, behind)) = cut(text, c) {
        let at = text.index_of_first(c)->0;
        assert(text =~= before + seq![c] + behind);
        if before.contains(c) {
            let k = before.index_of(c);
            assert(text[k] == c);
        }
    }
}

/// A reference goes to the first provider whose name and a colon it begins with.
pub proof fn law_references_name_their_provider(providers: Seq<Seq<char>>, model_ref: Seq<char>)
    ensures
        match provider_at(providers, model_ref) {
            Some(at) => 0 <= at < providers.len() && begins(model_ref, providers[at] + ":"@)
                && forall|i: int|
                0 <= i < at ==> !begins(model_ref, #[trigger] providers[i] + ":"@),
            None => forall|i: int|
                0 <= i < providers.len() ==> !begins(model_ref, #[trigger] providers[i] + ":"@),
        },
    decreases providers.len(),
{
    if providers.len() > 0 {
        let rest = providers.drop_last();
        law_references_name_their_provider(rest, model_ref);
        assert forall|i: int|
            0 <= i < rest.len() && !begins(model_ref, rest[i] + ":"@) implies !begins(
            model_ref,
            #[trigger] providers[i] + ":"@,
        ) by {
            assert(rest[i] == providers[i]);
        }
    }
}

/// A file of a repository is at the hub below publisher, repository, "resolve" and its revision; what the
/// hub knows of a repository is below "api" and "models", and of a revision below that.
pub proof fn law_addresses_at_the_hub(
    publisher: Seq<char>,
    name: Seq<char>,
    revision: Seq<char>,
    filename: Seq<char>,
    address: Seq<char>,
)
    requires
        !publisher.contains('/'),
        !name.contains('/'),
        !filename.contains('/'),
    ensures
        file_segments(publisher + "/"@ + name, revision, filename) == seq![
            publisher,
            name,
            "resolve"@,
            revision,
            filename,
        ],
        repository_segments(publisher + "/"@ + name, None) == seq![
            "api"@,
            "models"@,
            publisher,
            name,
        ],
        repository_segments(publisher + "/"@ + name, Some(revision)) == seq![
            "api"@,
            "models"@,
            publisher,
            name,
            "revision"@,
            revision,
        ],
        hub_address(seq![publisher]) == Ok::<Seq<char>, LibraryErrorView>(address) <==> url_with(
            "https://huggingface.co/"@,
            seq![publisher],
        ) == Some(address),
{
    lemma_two_pieces(publisher, name);
    lemma_one_piece(filename, '/');
}

proof fn lemma_two_pieces(publisher: Seq<char>, name: Seq<char>)
    requires
        !publisher.contains('/'),
        !name.contains('/'),
    ensures
        pieces(publisher + "/"@ + name, '/') == seq![publisher, name],
{
    reveal_strlit("/");
    let repository = publisher + "/"@ + name;
    let at = publisher.len() as int;
    assert forall|k: int| 0 <= k < at implies repository[k] != '/' by {
        assert(repository[k] == publisher[k]);
        assert(publisher.contains(publisher[k]));
    }
    assert(crate::text::first_at(repository, '/', at));
    crate::text::lemma_pieces_cut(repository, '/', at);
    assert(repository.take(at) =~= publisher);
    assert(repository.skip(at + 1) =~= name);
    lemma_one_piece(name, '/');
    assert(pieces(repository, '/') =~= seq![publisher, name]);
}

proof fn lemma_one_piece(text: Seq<char>, c: char)
    requires
        !text.contains(c),
    ensures
        pieces(text, c) == seq![text],
{
    if exists|at: int| crate::text::first_at(text, c, at) {
        let at = choose|at: int| crate::text::first_at(text, c, at);
        assert(text.contains(text[at]));
    }
}

/// An acquisition is kept by provider, publisher, repository, revision and the beginning of the digest of
/// what identifies it, wherever each of these names can be that of a directory, and only there.
pub proof fn law_acquisitions_are_kept_apart(
    publisher: Seq<char>,
    name: Seq<char>,
    revision: Seq<char>,
    identity: Seq<char>,
)
    requires
        !publisher.contains('/'),
        !name.contains('/'),
    ensures
        ({
            let kept = destination(publisher + "/"@ + name, revision, identity);
            &&& kept is Ok <==> is_plain_name(publisher) && is_plain_name(name) && is_plain_name(
                revision,
            )
            &&& kept matches Ok(path) ==> path == seq![
                "huggingface"@,
                publisher,
                name,
                revision,
                first_chars(text_digest(identity), 16),
            ]
        }),
{
    lemma_two_pieces(publisher, name);
}

} // verus!
