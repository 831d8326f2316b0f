//! The calls into other crates and into std that the library makes, and what it relies on of them.
use vstd::prelude::*;
use vstd::utf8::{decode_utf8, valid_utf8};

use crate::duplicate::{optional, views};

verus! {

/// The SHA-256 digest of some bytes, as `sha2::Sha256::digest` computes it.
pub uninterp spec fn sha256(data: Seq<u8>) -> Seq<u8>;

/// `sha2::Sha256::digest`: the digest of the given bytes, which depends on them alone and is always
/// thirty-two bytes long.
#[verifier::external_body]
pub(crate) fn sha256_digest(data: &[u8]) -> (result: Vec<u8>)
    ensures
        result@ == sha256(data@),
        result@.len() == 32,
{
    <sha2::Sha256 as sha2::Digest>::digest(data).to_vec()
}

/// A small hexadecimal digit.
pub open spec fn is_hex_digit(c: char) -> bool {
    ('0' <= c && c <= '9') || ('a' <= c && c <= 'f')
}

/// The shape of a hyphenated identifier: groups of eight, four, four, four and twelve small
/// hexadecimal digits with a hyphen between each two of them.
pub open spec fn is_hyphenated(text: Seq<char>) -> bool {
    &&& text.len() == 36
    &&& forall|i: int|
        0 <= i < 36 ==> if i == 8 || i == 13 || i == 18 || i == 23 {
            #[trigger] text[i] == '-'
        } else {
            is_hex_digit(text[i])
        }
}

/// `uuid::Uuid::new_v4` and its text: a random identifier. Which one is chance; only the shape of
/// the text is stated. It panics where the machine has no source of randomness.
#[verifier::external_body]
pub(crate) fn random_identifier() -> (result: String)
    ensures
        is_hyphenated(result@),
{
    uuid::Uuid::new_v4().to_string()
}

/// The text that `String::from_utf8_lossy` reads from some bytes.
pub uninterp spec fn lossy_text(bytes: Seq<u8>) -> Seq<char>;

/// `String::from_utf8_lossy`: bytes that are valid UTF-8 give the characters that they encode; in
/// others, what is invalid is replaced.
#[verifier::external_body]
pub(crate) fn text_from_utf8_lossy(bytes: &[u8]) -> (result: String)
    ensures
        result@ == lossy_text(bytes@),
        valid_utf8(bytes@) ==> result@ == decode_utf8(bytes@),
{
    String::from_utf8_lossy(bytes).into_owned()
}

/// The text that `Debug` of `str` writes: the text in quotes, with escapes.
pub uninterp spec fn quoted(text: Seq<char>) -> Seq<char>;

/// `Debug` of `str`. What is escaped, and how, is not stated.
#[verifier::external_body]
pub(crate) fn quoted_text(text: &str) -> (result: String)
    ensures
        result@ == quoted(text@),
{
    format!("{text:?}")
}

/// The address that `PathSegmentsMut::extend` of the `url` crate makes of another and of segments to
/// append, where the other is an address that can have them.
pub uninterp spec fn url_with(base: Seq<char>, segments: Seq<Seq<char>>) -> Option<Seq<char>>;

/// How many bytes a character takes at most where it is encoded for an address: one where it stands for
/// itself, else three for each byte of its UTF-8 form.
pub open spec fn encoded_width(c: char) -> nat {
    if ('a' <= c && c <= 'z') || ('A' <= c && c <= 'Z') || ('0' <= c && c <= '9') || c == '-' || c
        == '.' || c == '_' {
        1
    } else if (c as u32) < 0x80 {
        3
    } else if (c as u32) < 0x800 {
        6
    } else if (c as u32) < 0x1_0000 {
        9
    } else {
        12
    }
}

/// How many bytes a text takes at most where it is encoded for an address.
pub open spec fn text_width(text: Seq<char>) -> nat
    decreases text.len(),
{
    if text.len() == 0 {
        0
    } else {
        text_width(text.drop_last()) + encoded_width(text.last())
    }
}

/// How many bytes some segments take at most, each with its slash.
pub open spec fn segments_width(segments: Seq<Seq<char>>) -> nat
    decreases segments.len(),
{
    if segments.len() == 0 {
        0
    } else {
        segments_width(segments.drop_last()) + text_width(segments.last()) + 1
    }
}

/// Whether an address with these segments has no more bytes than the `url` crate can count: it keeps
/// places in an address as 32-bit numbers, and panics beyond them.
pub open spec fn is_countable(base: Seq<char>, segments: Seq<Seq<char>>) -> bool {
    base.len() + segments_width(segments) <= u32::MAX
}

/// `Url::parse`, `Url::path_segments_mut` and `PathSegmentsMut::extend`: the address with the segments
/// appended, each encoded. How they are encoded is not stated. Addresses of more bytes than a 32-bit
/// number counts, on which these functions panic, are left out.
#[verifier::external_body]
pub(crate) fn append_segments(base: &str, segments: &Vec<String>) -> (result: Option<String>)
    requires
        base@ == "https://huggingface.co/"@,
        is_countable(base@, views(segments@)),
    ensures
        optional(result) == url_with(base@, views(segments@)),
{
    let mut url = reqwest::Url::parse(base).ok()?;
    url.path_segments_mut().ok()?.extend(segments);
    Some(url.into())
}

/// The pairs of a query as text.
pub open spec fn pair_texts(pairs: Seq<(String, String)>) -> Seq<(Seq<char>, Seq<char>)> {
    pairs.map_values(|pair: (String, String)| (pair.0@, pair.1@))
}

/// The address that `Serializer::extend_pairs` makes of another with segments appended and of pairs to
/// append to its query.
pub uninterp spec fn url_asking(
    base: Seq<char>,
    segments: Seq<Seq<char>>,
    pairs: Seq<(Seq<char>, Seq<char>)>,
) -> Option<Seq<char>>;

/// `Url::query_pairs_mut` and `Serializer::extend_pairs` on the address that `Url::parse` and
/// `PathSegmentsMut::extend` make: the address with the segments appended and the pairs appended to its
/// query, each encoded. How they are encoded is not stated. Addresses of more bytes before the query
/// than a 32-bit number counts, on which these functions panic, are left out.
#[verifier::external_body]
pub(crate) fn append_query(
    base: &str,
    segments: &Vec<String>,
    pairs: &Vec<(String, String)>,
) -> (result: Option<String>)
    requires
        base@ == "https://huggingface.co/"@,
        is_countable(base@, views(segments@)),
    ensures
        optional(result) == url_asking(base@, views(segments@), pair_texts(pairs@)),
{
    let mut url = reqwest::Url::parse(base).ok()?;
    url.path_segments_mut().ok()?.extend(segments);
    url.query_pairs_mut().extend_pairs(pairs);
    Some(url.into())
}

/// What `toml::from_str` finds wrong with a text that should be any TOML document, in its own words.
pub uninterp spec fn toml_fault(text: Seq<char>) -> Option<Seq<char>>;

/// `toml::from_str` for `toml::Value`, with `Display` of its error. Which texts are documents, and the
/// words of the error, are not stated.
#[verifier::external_body]
pub(crate) fn check_toml(text: &str) -> (result: Option<String>)
    ensures
        optional(result) == toml_fault(text@),
{
    toml::from_str::<toml::Value>(text).err().map(|error| error.to_string())
}

} // verus!
