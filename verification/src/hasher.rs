//! The boundary to the `sha2raw` crate.
//!
//! `sha2raw::Sha256` hashes whole 32-byte blocks without padding them. Verus
//! does not look into it: the contracts below are taken on trust from the
//! crate's source. They describe a hasher by the two things it stores, its
//! eight chaining words and the number of message bits taken in so far.

use vstd::prelude::*;

verus! {

/// `sha2raw::Sha256`, opaque to the verifier.
#[verifier::external_type_specification]
#[verifier::external_body]
pub struct ExSha256(sha2raw::Sha256);

/// The eight chaining words that a hasher stores (its field `state`).
pub uninterp spec fn chaining_words(hasher: sha2raw::Sha256) -> Seq<u32>;

/// The number of message bits that a hasher has counted (its field `len`).
pub uninterp spec fn message_bits(hasher: sha2raw::Sha256) -> nat;

/// The chaining words that `Sha256::input` leaves behind when it starts from
/// `words` and compresses `blocks`, two 32-byte blocks at a time.
pub uninterp spec fn compressed(words: Seq<u32>, blocks: Seq<Seq<u8>>) -> Seq<u32>;

/// The digest that `Sha256::finish` returns for a hasher that stores `words`
/// and has counted `bits` message bits.
pub uninterp spec fn finished(words: Seq<u32>, bits: nat) -> Seq<u8>;

/// The digest that `Sha256::finish_with` returns for a hasher that stores
/// `words` and has counted `bits` message bits, when it is given `block` as
/// the last 32 bytes of the message.
pub uninterp spec fn finished_with(words: Seq<u32>, bits: nat, block: Seq<u8>) -> Seq<u8>;

/// The chaining words of a hasher that has taken in nothing: the initial hash
/// value of SHA-256.
pub open spec fn initial_words() -> Seq<u32> {
    seq![
        0x6a09e667u32,
        0xbb67ae85u32,
        0x3c6ef372u32,
        0xa54ff53au32,
        0x510e527fu32,
        0x9b05688cu32,
        0x1f83d9abu32,
        0x5be0cd19u32,
    ]
}

/// The contents of a list of blocks, block by block.
pub open spec fn block_views(blocks: Seq<[u8; 32]>) -> Seq<Seq<u8>> {
    Seq::new(blocks.len(), |i: int| blocks[i]@)
}

/// Calls `sha2raw::Sha256::new`, which stores the initial hash value and a
/// bit count of zero.
#[verifier::external_body]
pub(crate) fn start() -> (hasher: sha2raw::Sha256)
    ensures
        chaining_words(hasher) == initial_words(),
        message_bits(hasher) == 0,
{
    sha2raw::Sha256::new()
}

/// Calls `sha2raw::Sha256::input`. The crate asserts that the number of
/// blocks is even and adds 256 to its bit count for every block, so both are
/// asked of the caller. It claims that the new chaining words depend on the
/// old ones and on the blocks alone.
#[verifier::external_body]
pub(crate) fn absorb(hasher: &mut sha2raw::Sha256, blocks: &Vec<[u8; 32]>)
    requires
        blocks@.len() % 2 == 0,
        message_bits(*old(hasher)) + 256 * blocks@.len() <= u64::MAX,
    ensures
        chaining_words(*final(hasher)) == compressed(
            chaining_words(*old(hasher)),
            block_views(blocks@),
        ),
        message_bits(*final(hasher)) == message_bits(*old(hasher)) + 256 * blocks@.len(),
{
    let mut refs: Vec<&[u8]> = Vec::with_capacity(blocks.len());
    for block in blocks.iter() {
        refs.push(&block[..]);
    }
    hasher.input(&refs);
}

/// Calls `sha2raw::Sha256::finish`, which compresses one padding block that
/// holds the bit count and returns the chaining words as 32 bytes.
#[verifier::external_body]
pub(crate) fn conclude(hasher: sha2raw::Sha256) -> (digest: [u8; 32])
    ensures
        digest@ == finished(chaining_words(hasher), message_bits(hasher)),
{
    hasher.finish()
}

/// Calls `sha2raw::Sha256::finish_with`, which compresses `block` together
/// with 32 bytes of padding that hold the bit count plus 256, and returns the
/// chaining words as 32 bytes.
#[verifier::external_body]
pub(crate) fn conclude_with(hasher: sha2raw::Sha256, block: &[u8; 32]) -> (digest: [u8; 32])
    requires
        message_bits(hasher) + 256 <= u64::MAX,
    ensures
        digest@ == finished_with(chaining_words(hasher), message_bits(hasher), block@),
{
    hasher.finish_with(&block[..])
}

} // verus!
