//! Digests of files that are read piece by piece.
use vstd::prelude::*;

use crate::outside::sha256;
use crate::provenance::{hex_digest, hex_text};

verus! {

/// The bytes that a `sha2::Sha256` collected for its digest.
#[verifier::external_body]
pub struct DigestState {
    state: sha2::Sha256,
}

/// What was collected so far.
pub uninterp spec fn collected(state: DigestState) -> Seq<u8>;

/// `Digest::new` of `sha2::Sha256`: nothing is collected.
#[verifier::external_body]
fn begin_digest() -> (result: DigestState)
    ensures
        collected(result) == Seq::<u8>::empty(),
{
    DigestState { state: <sha2::Sha256 as sha2::Digest>::new() }
}

/// `Digest::update` of `sha2::Sha256`: the bytes are collected after those before them.
#[verifier::external_body]
fn update_digest(state: &mut DigestState, data: &[u8])
    ensures
        collected(*final(state)) == collected(*old(state)) + data@,
{
    <sha2::Sha256 as sha2::Digest>::update(&mut state.state, data)
}

/// `Digest::finalize` of `sha2::Sha256`: the digest of all that was collected, the same as that of
/// these bytes at once, and thirty-two bytes long.
#[verifier::external_body]
fn finish_digest(state: DigestState) -> (result: Vec<u8>)
    ensures
        result@ == sha256(collected(state)),
        result@.len() == 32,
{
    <sha2::Sha256 as sha2::Digest>::finalize(state.state).to_vec()
}

/// The digest of a file.
pub struct FileDigest {
    state: DigestState,
}

impl View for FileDigest {
    type V = Seq<u8>;

    closed spec fn view(&self) -> Seq<u8> {
        collected(self.state)
    }
}

impl FileDigest {
    pub fn new() -> (result: FileDigest)
        ensures
            result@ == Seq::<u8>::empty(),
    {
        FileDigest { state: begin_digest() }
    }

    /// Takes the next piece of the file.
    pub fn update(&mut self, data: &[u8])
        ensures
            final(self)@ == old(self)@ + data@,
    {
        update_digest(&mut self.state, data)
    }

    /// The digest in hexadecimal.
    pub fn finish(self) -> (result: String)
        ensures
            result@ == hex_text(sha256(self@)),
    {
        hex_digest(&finish_digest(self.state))
    }
}

} // verus!
