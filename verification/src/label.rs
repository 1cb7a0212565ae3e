//! The label of one node.
//!
//! A label is the SHA-256 digest of a message made of 32-byte blocks: the
//! replica identifier, a block that holds the position of the node, and the
//! labels of the node's parents, repeated so often that the message ends 32
//! bytes short of a whole number of 64-byte blocks. The two highest bits of
//! the digest's last byte are cleared.

use vstd::prelude::*;
use vstd::arithmetic::power::pow;
use vstd::slice::slice_subrange;
use crate::buffer::{NodesFile, NODE_SIZE};
use crate::error::Error;
use crate::hasher::{
    absorb, block_views, chaining_words, compressed, conclude, conclude_with, finished,
    finished_with, initial_words, message_bits, start,
};

verus! {

/// The number of parents that a node has in its own layer.
pub const BASE_DEGREE: usize = 6;

/// The number of parents that a node has in the previous layer.
pub const EXP_DEGREE: usize = 8;

/// The number of parents of a node in any layer but the first.
pub const DEGREE: usize = 14;

/// The digit of `value` at `place` when `value` is written to the base 256.
pub open spec fn digit(value: int, place: nat) -> u8 {
    ((value / pow(256, place)) % 256) as u8
}

/// The block that tells a label's position: the layer as four bytes and the
/// node as eight bytes, both with the highest digit first, then twenty
/// zero bytes.
pub open spec fn prefix_bytes(layer: u32, node: u64) -> Seq<u8> {
    Seq::new(
        32,
        |i: int|
            if i < 4 {
                digit(layer as int, (3 - i) as nat)
            } else if i < 12 {
                digit(node as int, (11 - i) as nat)
            } else {
                0u8
            },
    )
}

/// The chaining words after the replica identifier and the position block.
pub open spec fn seeded(replica_id: Seq<u8>, layer: u32, node: u64) -> Seq<u32> {
    compressed(initial_words(), seq![replica_id, prefix_bytes(layer, node)])
}

/// The chaining words after `parents` has been compressed `rounds` times.
pub open spec fn repeated(words: Seq<u32>, parents: Seq<Seq<u8>>, rounds: nat) -> Seq<u32>
    decreases rounds,
{
    if rounds == 0 {
        words
    } else {
        compressed(repeated(words, parents, (rounds - 1) as nat), parents)
    }
}

/// A digest of 32 bytes with the two highest bits of its last byte cleared.
pub open spec fn stripped(digest: Seq<u8>) -> Seq<u8> {
    Seq::new(
        32,
        |i: int|
            if i == 31 {
                digest[31] & 0x3f
            } else {
                digest[i]
            },
    )
}

/// The label of the first node of a layer, which has no parents: the digest
/// of the replica identifier and the position block alone.
pub open spec fn first_label(replica_id: Seq<u8>, layer: u32) -> Seq<u8> {
    stripped(finished(seeded(replica_id, layer, 0), 512))
}

/// The label of a node whose parents all lie in its own layer. The six
/// parent labels are hashed six times over; the first of them once more
/// ends the message.
pub open spec fn base_label(
    replica_id: Seq<u8>,
    layer: u32,
    node: u64,
    parents: Seq<Seq<u8>>,
) -> Seq<u8> {
    if node == 0 {
        first_label(replica_id, layer)
    } else {
        stripped(
            finished_with(
                repeated(seeded(replica_id, layer, node), parents, 6),
                9728,
                parents[0],
            ),
        )
    }
}

/// The label of a node with six parents in its own layer and eight in the
/// previous one. The fourteen parent labels are hashed twice over, then the
/// first eight of them; the ninth ends the message.
pub open spec fn exp_label(
    replica_id: Seq<u8>,
    layer: u32,
    node: u64,
    parents: Seq<Seq<u8>>,
) -> Seq<u8> {
    if node == 0 {
        first_label(replica_id, layer)
    } else {
        stripped(
            finished_with(
                compressed(
                    repeated(seeded(replica_id, layer, node), parents, 2),
                    parents.subrange(0, 8),
                ),
                9728,
                parents[8],
            ),
        )
    }
}

/// The parent labels that a caller supplied, or none.
pub open spec fn supplied(parents: Option<&Vec<[u8; 32]>>) -> Seq<Seq<u8>> {
    match parents {
        Some(labels) => block_views(labels@),
        None => Seq::empty(),
    }
}

/// Every label has 32 bytes, and the two highest bits of the last one are
/// clear, whatever the replica identifier, the position and the parents.
pub proof fn lemma_label_fits_field(
    replica_id: Seq<u8>,
    layer: u32,
    node: u64,
    parents: Seq<Seq<u8>>,
)
    ensures
        base_label(replica_id, layer, node, parents).len() == 32,
        base_label(replica_id, layer, node, parents)[31] < 64,
        exp_label(replica_id, layer, node, parents).len() == 32,
        exp_label(replica_id, layer, node, parents)[31] < 64,
{
    assert forall|byte: u8| #[trigger] (byte & 0x3f) < 64 by {
        assert(byte & 0x3f < 64) by (bit_vector);
    }
}

/// The label that is appended depends on the replica identifier, the layer,
/// the node and the labels of the parents alone: two appends of the label
/// for the same values, to whichever buffers, leave the same label as the
/// last one, and it has its two highest bits clear.
pub proof fn lemma_label_is_determined(
    replica_id: Seq<u8>,
    layer: u32,
    node: u64,
    parents: Seq<Seq<u8>>,
    first: NodesFile,
    first_after: NodesFile,
    first_block: Option<Vec<u8>>,
    second: NodesFile,
    second_after: NodesFile,
    second_block: Option<Vec<u8>>,
    expander: bool,
)
    requires
        first.appended(
            first_after,
            if expander {
                exp_label(replica_id, layer, node, parents)
            } else {
                base_label(replica_id, layer, node, parents)
            },
            first_block,
        ),
        second.appended(
            second_after,
            if expander {
                exp_label(replica_id, layer, node, parents)
            } else {
                base_label(replica_id, layer, node, parents)
            },
            second_block,
        ),
    ensures
        first_after@.last() == second_after@.last(),
        first_after@.last().len() == 32,
        first_after@.last()[31] < 64,
{
    lemma_label_fits_field(replica_id, layer, node, parents);
}

/// The first node of a layer has no parents in either derivation: whatever
/// is passed for them, its label is the digest of the replica identifier and
/// the position block alone, and both derivations agree on it.
pub proof fn lemma_first_node_has_no_parents(
    replica_id: Seq<u8>,
    layer: u32,
    base_parents: Seq<Seq<u8>>,
    all_parents: Seq<Seq<u8>>,
)
    ensures
        base_label(replica_id, layer, 0, base_parents) == first_label(replica_id, layer),
        exp_label(replica_id, layer, 0, all_parents) == first_label(replica_id, layer),
        first_label(replica_id, layer) == stripped(
            finished(
                compressed(initial_words(), seq![replica_id, prefix_bytes(layer, 0)]),
                512,
            ),
        ),
{
}

/// The first powers of 256.
proof fn lemma_places()
    ensures
        pow(256, 0) == 1,
        pow(256, 1) == 0x100,
        pow(256, 2) == 0x1_0000,
        pow(256, 3) == 0x100_0000,
        pow(256, 4) == 0x1_0000_0000,
        pow(256, 5) == 0x100_0000_0000,
        pow(256, 6) == 0x1_0000_0000_0000,
        pow(256, 7) == 0x100_0000_0000_0000,
{
    reveal_with_fuel(pow, 9);
}

/// Builds the block that tells a label's position.
pub fn prefix_block(layer: u32, node: u64) -> (block: [u8; 32])
    ensures
        block@ == prefix_bytes(layer, node),
{
    let mut block = [0u8; 32];
    block[0] = ((layer / 0x100_0000) % 256) as u8;
    block[1] = ((layer / 0x1_0000) % 256) as u8;
    block[2] = ((layer / 0x100) % 256) as u8;
    block[3] = (layer % 256) as u8;
    block[4] = ((node / 0x100_0000_0000_0000) % 256) as u8;
    block[5] = ((node / 0x1_0000_0000_0000) % 256) as u8;
    block[6] = ((node / 0x100_0000_0000) % 256) as u8;
    block[7] = ((node / 0x1_0000_0000) % 256) as u8;
    block[8] = ((node / 0x100_0000) % 256) as u8;
    block[9] = ((node / 0x1_0000) % 256) as u8;
    block[10] = ((node / 0x100) % 256) as u8;
    block[11] = (node % 256) as u8;
    proof {
        lemma_places();
        assert(block@ =~= prefix_bytes(layer, node));
    }
    block
}

/// Starts the message of a label: the replica identifier and the position
/// block.
fn seed(replica_id: &[u8; 32], layer: u32, node: u64) -> (hasher: sha2raw::Sha256)
    ensures
        chaining_words(hasher) == seeded(replica_id@, layer, node),
        message_bits(hasher) == 512,
{
    let mut hasher = start();
    let mut blocks: Vec<[u8; 32]> = Vec::new();
    blocks.push(*replica_id);
    blocks.push(prefix_block(layer, node));
    assert(block_views(blocks@) =~= seq![replica_id@, prefix_bytes(layer, node)]);
    absorb(&mut hasher, &blocks);
    hasher
}

/// Clears the two highest bits of a digest's last byte, which puts the value
/// below the modulus of the proving field.
pub fn strip(digest: [u8; 32]) -> (key: [u8; 32])
    ensures
        key@ == stripped(digest@),
        key@[31] < 64,
{
    let mut key = digest;
    let last: u8 = key[31];
    key[31] = last & 0x3f;
    assert(last & 0x3f < 64) by (bit_vector);
    assert(key@ =~= stripped(digest@));
    key
}

/// The label of `node` in the first layer, or in any pass that reads only
/// the node's own layer, appended to `layer_labels`.
///
/// `parents` holds the labels of the node's six parents in the order of the
/// parent list. The first node has no parents: for it `parents` is not
/// looked at. The result is the block, if any, that the append has made due
/// for the backing file.
pub fn create_label(
    parents: Option<&Vec<[u8; 32]>>,
    replica_id: &[u8; 32],
    layer_labels: &mut NodesFile,
    layer_index: usize,
    node: usize,
) -> (result: Result<Option<Vec<u8>>, Error>)
    requires
        old(layer_labels).wf(),
        old(layer_labels).bytes().len() + 32 <= usize::MAX,
    ensures
        result is Ok <==> node == 0 || supplied(parents).len() == 6,
        result matches Ok(block) ==> old(layer_labels).appended(
            *final(layer_labels),
            base_label(replica_id@, layer_index as u32, node as u64, supplied(parents)),
            block,
        ),
        result matches Err(e) ==> {
            &&& *final(layer_labels) == *old(layer_labels)
            &&& e == if parents is None {
                Error::MissingParents
            } else {
                Error::ParentCount
            }
        },
{
    let layer: u32 = #[verifier::truncate]
    (layer_index as u32);
    let hasher = seed(replica_id, layer, node as u64);
    let hash = if node > 0 {
        let labels = match parents {
            Some(labels) => labels,
            None => {
                return Err(Error::MissingParents);
            },
        };
        if labels.len() != BASE_DEGREE {
            return Err(Error::ParentCount);
        }
        let mut hasher = hasher;
        let mut round: usize = 0;
        while round < 6
            invariant
                round <= 6,
                labels@.len() == 6,
                chaining_words(hasher) == repeated(
                    seeded(replica_id@, layer, node as u64),
                    block_views(labels@),
                    round as nat,
                ),
                message_bits(hasher) == 512 + 1536 * round,
            decreases 6 - round,
        {
            absorb(&mut hasher, labels);
            round += 1;
        }
        conclude_with(hasher, &labels[0])
    } else {
        conclude(hasher)
    };
    let key = strip(hash);
    Ok(layer_labels.append(&key))
}

/// The label of `node` in a layer that has a previous layer, appended to
/// `layer_labels`.
///
/// `parents` holds the labels of the node's fourteen parents in the order of
/// the parent list: six of the node's own layer, then eight of the previous
/// one. The first node has no parents: for it `parents` is not looked at. The
/// result is the block, if any, that the append has made due for the backing
/// file.
pub fn create_label_exp(
    parents: Option<&Vec<[u8; 32]>>,
    replica_id: &[u8; 32],
    layer_labels: &mut NodesFile,
    layer_index: usize,
    node: usize,
) -> (result: Result<Option<Vec<u8>>, Error>)
    requires
        old(layer_labels).wf(),
        old(layer_labels).bytes().len() + 32 <= usize::MAX,
    ensures
        result is Ok <==> node == 0 || supplied(parents).len() == 14,
        result matches Ok(block) ==> old(layer_labels).appended(
            *final(layer_labels),
            exp_label(replica_id@, layer_index as u32, node as u64, supplied(parents)),
            block,
        ),
        result matches Err(e) ==> {
            &&& *final(layer_labels) == *old(layer_labels)
            &&& e == if parents is None {
                Error::MissingParents
            } else {
                Error::ParentCount
            }
        },
{
    let layer: u32 = #[verifier::truncate]
    (layer_index as u32);
    let hasher = seed(replica_id, layer, node as u64);
    let hash = if node > 0 {
        let labels = match parents {
            Some(labels) => labels,
            None => {
                return Err(Error::MissingParents);
            },
        };
        if labels.len() != DEGREE {
            return Err(Error::ParentCount);
        }
        let mut hasher = hasher;
        absorb(&mut hasher, labels);
        absorb(&mut hasher, labels);
        assert(chaining_words(hasher) == repeated(
            seeded(replica_id@, layer, node as u64),
            block_views(labels@),
            2,
        )) by {
            reveal_with_fuel(repeated, 3);
        }
        let mut head: Vec<[u8; 32]> = Vec::new();
        let mut i: usize = 0;
        while i < 8
            invariant
                i <= 8,
                labels@.len() == 14,
                head@ == labels@.subrange(0, i as int),
            decreases 8 - i,
        {
            head.push(labels[i]);
            i += 1;
            assert(head@ =~= labels@.subrange(0, i as int));
        }
        assert(block_views(head@) =~= block_views(labels@).subrange(0, 8));
        absorb(&mut hasher, &head);
        conclude_with(hasher, &labels[8])
    } else {
        conclude(hasher)
    };
    let key = strip(hash);
    Ok(layer_labels.append(&key))
}

/// Walks over the labels that `parents` point at in `data`, as a hint that
/// they are about to be read. It hands nothing back and changes nothing.
pub fn prefetch(parents: &[u32], data: &[u8])
    requires
        forall|i: int| 0 <= i < parents@.len() ==> 32 * parents@[i] + 32 <= data@.len(),
{
    let len: usize = data.len();
    let mut i: usize = 0;
    while i < parents.len()
        invariant
            i <= parents@.len(),
            len == data@.len(),
            forall|k: int| 0 <= k < parents@.len() ==> 32 * parents@[k] + 32 <= data@.len(),
        decreases parents@.len() - i,
    {
        let start = parents[i] as usize * NODE_SIZE;
        let end = start + NODE_SIZE;
        let _ = slice_subrange(data, start, end);
        i += 1;
    }
}

/// The label in `data` of the `i`-th of `parents`.
pub fn read_node<'a>(i: usize, parents: &[u32], data: &'a [u8]) -> (label: &'a [u8])
    requires
        i < parents@.len(),
        32 * parents@[i as int] + 32 <= data@.len(),
    ensures
        label@ == data@.subrange(32 * parents@[i as int], 32 * parents@[i as int] + 32),
{
    let len: usize = data.len();
    let start = parents[i] as usize * NODE_SIZE;
    let end = start + NODE_SIZE;
    slice_subrange(data, start, end)
}

} // verus!
