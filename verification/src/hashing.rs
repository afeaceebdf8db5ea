//! Deterministic 64-bit hashes of bytes and text.

use vstd::prelude::*;
use vstd::std_specs::hash::DefaultHasherAdditionalSpecFns;

use std::collections::hash_map::DefaultHasher;
use std::hash::{Hash, Hasher};

verus! {

/// The hash of a byte sequence: what a new hasher gives once the bytes were
/// written to it.
pub open spec fn byte_hash(data: Seq<u8>) -> u64 {
    DefaultHasher::spec_finish(seq![data])
}

/// The hash of a byte sequence.
pub fn hash_bytes(data: &[u8]) -> (r: u64)
    ensures
        r == byte_hash(data@),
{
    let mut hasher = DefaultHasher::new();
    hasher.write(data);
    assert(hasher@ =~= seq![data@]);
    hasher.finish()
}

/// What a text writes to a hasher.
pub uninterp spec fn text_writes(text: Seq<char>) -> Seq<Seq<u8>>;

/// `<str as Hash>::hash`: writes to the hasher, after what it was written
/// before, what the text alone determines.
#[verifier::external_body]
fn feed_text(text: &str, hasher: &mut DefaultHasher)
    ensures
        final(hasher)@ == old(hasher)@ + text_writes(text@),
{
    text.hash(hasher);
}

/// The hash of a text.
pub open spec fn text_hash(text: Seq<char>) -> u64 {
    DefaultHasher::spec_finish(text_writes(text))
}

/// The hash of a text.
pub fn hash_text(text: &str) -> (r: u64)
    ensures
        r == text_hash(text@),
{
    let mut hasher = DefaultHasher::new();
    feed_text(text, &mut hasher);
    assert(hasher@ =~= text_writes(text@));
    hasher.finish()
}

/// What a path writes to a hasher.
pub uninterp spec fn path_writes(path: Seq<char>) -> Seq<Seq<u8>>;

/// `<std::path::Path as Hash>::hash`: writes to the hasher, after what it was
/// written before, what the path alone determines by the path rules of the
/// platform that the library is built for.
#[verifier::external_body]
fn feed_path(path: &str, hasher: &mut DefaultHasher)
    ensures
        final(hasher)@ == old(hasher)@ + path_writes(path@),
{
    std::path::Path::new(path).hash(hasher);
}

/// The hash of a path.
pub open spec fn path_hash(path: Seq<char>) -> u64 {
    DefaultHasher::spec_finish(path_writes(path))
}

/// The hash of a path.
pub fn hash_path(path: &str) -> (r: u64)
    ensures
        r == path_hash(path@),
{
    let mut hasher = DefaultHasher::new();
    feed_path(path, &mut hasher);
    assert(hasher@ =~= path_writes(path@));
    hasher.finish()
}

/// Bytes are hashed as they are: the hash is that of one write of exactly these
/// bytes to a new hasher. Text and paths are hashed by what they write.
pub proof fn law_bytes_are_hashed_as_they_are(data: Seq<u8>, text: Seq<char>)
    ensures
        byte_hash(data) == DefaultHasher::spec_finish(Seq::<Seq<u8>>::empty().push(data)),
        text_hash(text) == DefaultHasher::spec_finish(text_writes(text)),
        path_hash(text) == DefaultHasher::spec_finish(path_writes(text)),
{
    assert(seq![data] =~= Seq::<Seq<u8>>::empty().push(data));
}

} // verus!
