//! The Merkle root of a byte string over a tree padded with zero chunks.
//!
//! The bytes are cut into chunks of 32 bytes, the last one filled up with
//! zeros, and as many zero chunks follow as make the number of leaves a power
//! of two that is no less than the wanted minimum. A node above the leaves is
//! the hash of its two children. Subtrees that hold no byte of the input are
//! never walked: the hash of a tree of zeros depends on its height alone.

use vstd::prelude::*;
use vstd::slice::slice_subrange;
use ring::digest::{Context, SHA256};
use crate::encoding::zero_bytes;

verus! {

/// The number of bytes of a chunk.
pub const BYTES_PER_CHUNK: usize = 32;

/// The largest height for which the hash of a tree of zeros is handed out.
pub const MAX_TREE_DEPTH: usize = 48;

/// The largest number of leaves of a tree that is merkleized: two to the power
/// of `MAX_TREE_DEPTH + 1`.
pub const MAX_LEAVES: u64 = 0x2_0000_0000_0000;

/// The largest number of bytes that can be hashed at once.
pub const MAX_HASH_INPUT: u64 = 0x1fff_ffff_ffff_ffff;

/// The SHA-256 digest of a byte string.
pub uninterp spec fn sha256(preimage: Seq<u8>) -> Seq<u8>;

/// The digest of `h1` followed by `h2`.
///
/// Calls `ring::digest::Context` with the algorithm `SHA256`: `new`, `update`
/// with `h1`, `update` with `h2`, and `finish`. The contract claims that the
/// result is the SHA-256 digest of the two inputs taken as one byte string,
/// which depends on nothing else, and that it has 32 bytes. `finish` fails on
/// an input of more than `MAX_HASH_INPUT` bytes, whose length in bits no longer
/// fits the 64 bits that the padding has for it.
#[verifier::external_body]
pub fn hash_concat(h1: &[u8], h2: &[u8]) -> (r: Vec<u8>)
    requires
        h1@.len() + h2@.len() <= MAX_HASH_INPUT,
    ensures
        r@ == sha256(h1@ + h2@),
        r@.len() == 32,
{
    let mut ctx = Context::new(&SHA256);
    ctx.update(h1);
    ctx.update(h2);
    ctx.finish().as_ref().to_vec()
}

/// The digest of `preimage`.
pub fn hash(preimage: &[u8]) -> (r: Vec<u8>)
    requires
        preimage@.len() <= MAX_HASH_INPUT,
    ensures
        r@ == sha256(preimage@),
        r@.len() == 32,
{
    let nothing: Vec<u8> = Vec::new();
    assert(preimage@ + nothing@ =~= preimage@);
    hash_concat(preimage, nothing.as_slice())
}

/// The chunk of zeros.
pub open spec fn zero_chunk() -> Seq<u8> {
    Seq::new(32, |k: int| 0u8)
}

/// The number of chunks that `len` bytes fill, the last one perhaps in part.
pub open spec fn leaf_count(len: nat) -> nat {
    (len + 31) / 32
}

/// The `i`-th chunk of `bytes`; zeros stand where the bytes have ended.
pub open spec fn chunk(bytes: Seq<u8>, i: nat) -> Seq<u8> {
    Seq::new(
        32,
        |k: int|
            if 32 * i + k < bytes.len() {
                bytes[32 * i + k]
            } else {
                0u8
            },
    )
}

/// The `i`-th node at `height` of the tree over the chunks of `bytes`: a chunk
/// at height zero, and above that the hash of its two children.
pub open spec fn node(bytes: Seq<u8>, height: nat, i: nat) -> Seq<u8>
    decreases height,
{
    if height == 0 {
        chunk(bytes, i)
    } else {
        sha256(
            node(bytes, (height - 1) as nat, 2 * i) + node(bytes, (height - 1) as nat, 2 * i + 1),
        )
    }
}

/// The root of a tree of the given height over zero chunks.
pub open spec fn zero_hash(height: nat) -> Seq<u8>
    decreases height,
{
    if height == 0 {
        zero_chunk()
    } else {
        sha256(zero_hash((height - 1) as nat) + zero_hash((height - 1) as nat))
    }
}

/// The number of nodes at `height` that have a leaf with bytes of the input
/// below them, where `leaves` leaves have such bytes.
pub open spec fn nodes_at(leaves: nat, height: nat) -> nat
    decreases height,
{
    if height == 0 {
        leaves
    } else {
        (nodes_at(leaves, (height - 1) as nat) + 1) / 2
    }
}

/// The height of the smallest tree with at least `leaves` leaves, a single leaf
/// having height zero.
pub open spec fn depth_for(leaves: nat) -> nat
    decreases leaves,
{
    if leaves <= 1 {
        0
    } else {
        1 + depth_for((leaves + 1) / 2)
    }
}

/// The larger of two numbers.
pub open spec fn larger(a: nat, b: nat) -> nat {
    if a >= b {
        a
    } else {
        b
    }
}

/// The Merkle root of `bytes` over a tree of at least `min_leaves` leaves.
pub open spec fn merkle_root(bytes: Seq<u8>, min_leaves: nat) -> Seq<u8> {
    node(bytes, depth_for(larger(leaf_count(bytes.len()), min_leaves)), 0)
}

/// The next even number from `n` on.
pub open spec fn spec_next_even_number(n: nat) -> nat {
    n + n % 2
}

/// A node with no bytes of the input below it is the root of a tree of zeros.
pub proof fn lemma_node_without_bytes(bytes: Seq<u8>, height: nat, i: nat)
    requires
        i >= nodes_at(leaf_count(bytes.len()), height),
    ensures
        node(bytes, height, i) == zero_hash(height),
    decreases height,
{
    if height == 0 {
        assert(chunk(bytes, i) =~= zero_chunk());
    } else {
        lemma_node_without_bytes(bytes, (height - 1) as nat, 2 * i);
        lemma_node_without_bytes(bytes, (height - 1) as nat, 2 * i + 1);
    }
}

/// Halving the leaves first or the nodes last comes to the same.
pub proof fn lemma_nodes_at_halved(leaves: nat, height: nat)
    ensures
        nodes_at(leaves, height + 1) == nodes_at((leaves + 1) / 2, height),
    decreases height,
{
    if height > 0 {
        lemma_nodes_at_halved(leaves, (height - 1) as nat);
        assert(nodes_at(leaves, height + 1) == (nodes_at(leaves, height) + 1) / 2);
        assert(nodes_at((leaves + 1) / 2, height) == (nodes_at(
            (leaves + 1) / 2,
            (height - 1) as nat,
        ) + 1) / 2);
    } else {
        assert(nodes_at(leaves, 1) == (nodes_at(leaves, 0) + 1) / 2);
    }
}

/// More leaves give no fewer nodes.
pub proof fn lemma_nodes_at_monotone(fewer: nat, more: nat, height: nat)
    requires
        fewer <= more,
    ensures
        nodes_at(fewer, height) <= nodes_at(more, height),
    decreases height,
{
    if height > 0 {
        lemma_nodes_at_monotone(fewer, more, (height - 1) as nat);
    }
}

/// At the height of the smallest tree that holds the leaves, one node is left.
pub proof fn lemma_single_root(leaves: nat)
    ensures
        nodes_at(leaves, depth_for(leaves)) <= 1,
    decreases leaves,
{
    if leaves > 1 {
        lemma_single_root((leaves + 1) / 2);
        lemma_nodes_at_halved(leaves, depth_for((leaves + 1) / 2));
    }
}

/// A tree with at most two to the power of `height` leaves is no higher than
/// `height`.
pub proof fn lemma_depth_bound(leaves: nat, height: nat)
    requires
        leaves <= vstd::arithmetic::power2::pow2(height),
    ensures
        depth_for(leaves) <= height,
    decreases height,
{
    if leaves > 1 {
        if height == 0 {
            vstd::arithmetic::power2::lemma2_to64();
        } else {
            vstd::arithmetic::power2::lemma_pow2_unfold(height);
            lemma_depth_bound((leaves + 1) / 2, (height - 1) as nat);
        }
    }
}

/// The buffer of the nodes of one height, each of 32 bytes.
#[derive(Debug)]
struct ChunkStore(Vec<Vec<u8>>);

impl ChunkStore {
    /// The nodes as byte strings.
    spec fn nodes(&self) -> Seq<Seq<u8>> {
        Seq::new(self.0@.len(), |i: int| self.0@[i]@)
    }

    /// A buffer of `chunks` nodes, each the digest of nothing.
    fn with_capacity(chunks: usize) -> (r: Self)
        ensures
            r.nodes().len() == chunks,
            forall|i: int| 0 <= i < chunks ==> (#[trigger] r.nodes()[i]).len() == 32,
    {
        let nothing: Vec<u8> = Vec::new();
        let mut store: Vec<Vec<u8>> = Vec::new();
        let mut i: usize = 0;
        while i < chunks
            invariant
                i <= chunks,
                store@.len() == i,
                nothing@.len() == 0,
                forall|j: int| 0 <= j < i ==> (#[trigger] store@[j])@.len() == 32,
            decreases chunks - i,
        {
            store.push(hash(nothing.as_slice()));
            i += 1;
        }
        ChunkStore(store)
    }

    /// Sets the `i`-th node to `value`; an error where there is no such node.
    fn set(&mut self, i: usize, value: Vec<u8>) -> (r: Result<(), ()>)
        ensures
            r is Ok <==> i < old(self).nodes().len(),
            r is Ok ==> final(self).nodes() == old(self).nodes().update(i as int, value@),
            r is Err ==> final(self).nodes() == old(self).nodes(),
    {
        if i < self.len() {
            self.0[i] = value;
            assert(self.nodes() =~= old(self).nodes().update(i as int, value@));
            Ok(())
        } else {
            Err(())
        }
    }

    /// The `i`-th node; an error where there is no such node.
    fn get_slice(&self, i: usize) -> (r: Result<&[u8], ()>)
        ensures
            r is Ok <==> i < self.nodes().len(),
            r is Ok ==> r->Ok_0@ == self.nodes()[i as int],
    {
        if i < self.len() {
            Ok(self.0[i].as_slice())
        } else {
            Err(())
        }
    }

    /// The number of nodes.
    fn len(&self) -> (r: usize)
        ensures
            r == self.nodes().len(),
    {
        self.0.len()
    }

    /// Keeps the first `num_chunks` nodes.
    fn truncate(&mut self, num_chunks: usize)
        ensures
            final(self).nodes() == if num_chunks <= old(self).nodes().len() {
                old(self).nodes().take(num_chunks as int)
            } else {
                old(self).nodes()
            },
    {
        self.0.truncate(num_chunks);
        assert(self.nodes() =~= if num_chunks <= old(self).nodes().len() {
            old(self).nodes().take(num_chunks as int)
        } else {
            old(self).nodes()
        });
    }

    /// The bytes of the only node of the buffer.
    fn into_vec(self) -> (r: Vec<u8>)
        requires
            self.nodes().len() == 1,
        ensures
            r@ == self.nodes()[0],
    {
        let mut vec: Vec<u8> = Vec::new();
        crate::encoding::append_bytes(&mut vec, self.0[0].as_slice());
        assert(vec@ =~= self.nodes()[0]);
        vec
    }
}

/// The root of a tree of the given height over zero chunks.
pub fn get_zero_hash(height: usize) -> (r: Vec<u8>)
    requires
        height <= MAX_TREE_DEPTH,
    ensures
        r@ == zero_hash(height as nat),
        r@.len() == 32,
{
    let mut current: Vec<u8> = zero_bytes(BYTES_PER_CHUNK);
    assert(current@ =~= zero_chunk());
    let mut i: usize = 0;
    while i < height
        invariant
            i <= height,
            current@ == zero_hash(i as nat),
            current@.len() == 32,
        decreases height - i,
    {
        current = hash_concat(current.as_slice(), current.as_slice());
        i += 1;
    }
    current
}

/// One byte string after the other.
pub fn concat(vec1: Vec<u8>, vec2: Vec<u8>) -> (r: Vec<u8>)
    ensures
        r@ == vec1@ + vec2@,
{
    let mut vec1 = vec1;
    let mut vec2 = vec2;
    vec1.append(&mut vec2);
    vec1
}

/// The next even number from `n` on: `n` itself where it is even.
pub fn next_even_number(n: usize) -> (r: usize)
    requires
        n < usize::MAX,
    ensures
        r == spec_next_even_number(n as nat),
{
    n + n % 2
}

/// The height of the smallest tree with at least `leaves` leaves.
fn tree_depth(leaves: usize) -> (r: usize)
    ensures
        r == depth_for(leaves as nat),
{
    let mut depth: usize = 0;
    let mut rest: usize = leaves;
    while rest > 1
        invariant
            rest <= leaves,
            depth + depth_for(rest as nat) == depth_for(leaves as nat),
            depth + rest <= leaves + 1,
        decreases rest,
    {
        rest = rest / 2 + rest % 2;
        depth += 1;
    }
    depth
}

/// The parent of the `i`-th pair of chunks of `bytes`, where that pair holds a
/// byte of the input or is the first.
fn first_parent(bytes: &[u8], i: usize) -> (r: Vec<u8>)
    requires
        bytes@.len() <= MAX_LEAVES * 32,
        64 * i <= bytes@.len(),
    ensures
        r@ == node(bytes@, 1, i as nat),
        r@.len() == 32,
{
    let len: usize = bytes.len();
    let start: usize = i * 64;
    assert(node(bytes@, 1, i as nat) == sha256(
        node(bytes@, 0, (2 * i) as nat) + node(bytes@, 0, (2 * i + 1) as nat),
    ));
    let ghost both = chunk(bytes@, (2 * i) as nat) + chunk(bytes@, (2 * i + 1) as nat);
    if bytes.len() - start >= BYTES_PER_CHUNK * 2 {
        let slice = slice_subrange(bytes, start, start + BYTES_PER_CHUNK * 2);
        assert(slice@ =~= both);
        hash(slice)
    } else {
        let value = slice_subrange(bytes, start, bytes.len());
        let padding = zero_bytes(BYTES_PER_CHUNK * 2 - value.len());
        assert(value@ + padding@ =~= both);
        hash_concat(value, padding.as_slice())
    }
}

/// The Merkle root of `bytes` over a tree of at least `min_leaves` leaves.
///
/// The bytes are cut into chunks, and zero chunks are added until the leaves
/// are a power of two and at least `min_leaves`. Where that makes a single
/// leaf, the root is that chunk and nothing is hashed. A tree higher than
/// `MAX_TREE_DEPTH + 1` is not merkleized.
pub fn merkleize_padded(bytes: &[u8], min_leaves: usize) -> (r: Vec<u8>)
    requires
        bytes@.len() <= MAX_LEAVES * 32,
        min_leaves <= MAX_LEAVES,
    ensures
        r@ == merkle_root(bytes@, min_leaves as nat),
        r@.len() == BYTES_PER_CHUNK,
{
    let ghost leaves = leaf_count(bytes@.len());
    if bytes.len() <= BYTES_PER_CHUNK && min_leaves <= 1 {
        let mut o: Vec<u8> = Vec::new();
        crate::encoding::append_bytes(&mut o, bytes);
        let padding = zero_bytes(BYTES_PER_CHUNK - bytes.len());
        crate::encoding::append_bytes(&mut o, padding.as_slice());
        assert(o@ =~= chunk(bytes@, 0));
        return o;
    }
    let leaves_with_values: usize = bytes.len() / BYTES_PER_CHUNK + if bytes.len()
        % BYTES_PER_CHUNK == 0 {
        0
    } else {
        1
    };
    let initial_parents_with_values: usize = {
        let half: usize = next_even_number(leaves_with_values) / 2;
        if half >= 1 {
            half
        } else {
            1
        }
    };
    let most: usize = if leaves_with_values >= min_leaves {
        leaves_with_values
    } else {
        min_leaves
    };
    let depth: usize = tree_depth(most);
    proof {
        assert(leaves_with_values == leaves);
        assert(nodes_at(leaves, 1) == (nodes_at(leaves, 0) + 1) / 2);
        assert(most == larger(leaves, min_leaves as nat));
        assert(most >= 2);
        assert(MAX_LEAVES == vstd::arithmetic::power2::pow2(49)) by {
            vstd::arithmetic::power2::lemma2_to64_rest();
        }
        lemma_depth_bound(most as nat, 49);
        lemma_single_root(most as nat);
        lemma_nodes_at_monotone(leaves, most as nat, depth as nat);
    }
    let mut chunks = ChunkStore::with_capacity(initial_parents_with_values);
    let mut i: usize = 0;
    while i < initial_parents_with_values
        invariant
            i <= initial_parents_with_values,
            bytes@.len() <= MAX_LEAVES * 32,
            leaves_with_values == leaves,
            leaves == leaf_count(bytes@.len()),
            initial_parents_with_values == larger(1, nodes_at(leaves, 1)),
            chunks.nodes().len() == initial_parents_with_values,
            forall|j: int| 0 <= j < i ==> #[trigger] chunks.nodes()[j] == node(bytes@, 1, j as nat),
            forall|j: int|
                0 <= j < initial_parents_with_values ==> (#[trigger] chunks.nodes()[j]).len() == 32,
        decreases initial_parents_with_values - i,
    {
        assert(nodes_at(leaves, 1) == (nodes_at(leaves, 0) + 1) / 2);
        assert(64 * i <= bytes@.len());
        let parent = first_parent(bytes, i);
        let stored = chunks.set(i, parent);
        i += 1;
    }
    let mut zero: Vec<u8> = get_zero_hash(1);
    let mut height: usize = 1;
    while height < depth
        invariant
            1 <= height <= depth,
            depth <= 49,
            leaves == leaf_count(bytes@.len()),
            zero@ == zero_hash(height as nat),
            zero@.len() == 32,
            chunks.nodes().len() < usize::MAX,
            chunks.nodes().len() == larger(1, nodes_at(leaves, height as nat)),
            forall|j: int|
                0 <= j < chunks.nodes().len() ==> #[trigger] chunks.nodes()[j] == node(
                    bytes@,
                    height as nat,
                    j as nat,
                ),
            forall|j: int| 0 <= j < chunks.nodes().len() ==> (#[trigger] chunks.nodes()[j]).len() == 32,
        decreases depth - height,
    {
        let child_nodes: usize = chunks.len();
        let parent_nodes: usize = next_even_number(child_nodes) / 2;
        let ghost children = chunks.nodes();
        let mut k: usize = 0;
        while k < parent_nodes
            invariant
                k <= parent_nodes,
                parent_nodes == (child_nodes + 1) / 2,
                child_nodes >= 1,
                child_nodes == larger(1, nodes_at(leaves, height as nat)),
                leaves == leaf_count(bytes@.len()),
                children.len() == child_nodes,
                chunks.nodes().len() == child_nodes,
                zero@ == zero_hash(height as nat),
                zero@.len() == 32,
                forall|j: int|
                    0 <= j < child_nodes ==> #[trigger] children[j] == node(
                        bytes@,
                        height as nat,
                        j as nat,
                    ),
                forall|j: int| 0 <= j < child_nodes ==> (#[trigger] children[j]).len() == 32,
                forall|j: int|
                    0 <= j < k ==> #[trigger] chunks.nodes()[j] == node(
                        bytes@,
                        (height + 1) as nat,
                        j as nat,
                    ),
                forall|j: int| 2 * k <= j < child_nodes ==> #[trigger] chunks.nodes()[j] == children[j],
                forall|j: int| 0 <= j < child_nodes ==> (#[trigger] chunks.nodes()[j]).len() == 32,
            decreases parent_nodes - k,
        {
            let parent = match (chunks.get_slice(k * 2), chunks.get_slice(k * 2 + 1)) {
                (Ok(left), Ok(right)) => hash_concat(left, right),
                (Ok(left), Err(_)) => {
                    proof {
                        lemma_node_without_bytes(bytes@, height as nat, (2 * k + 1) as nat);
                    }
                    hash_concat(left, zero.as_slice())
                },
                (Err(_), _) => {
                    proof {
                        assert(false);
                    }
                    zero_bytes(BYTES_PER_CHUNK)
                },
            };
            assert(parent@ == node(bytes@, (height + 1) as nat, k as nat));
            let stored = chunks.set(k, parent);
            k += 1;
        }
        chunks.truncate(parent_nodes);
        zero = hash_concat(zero.as_slice(), zero.as_slice());
        height += 1;
    }
    chunks.into_vec()
}

} // verus!
