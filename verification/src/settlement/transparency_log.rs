//! Tamper-evident transparency log for settlement audit entries.
//!
//! Each settlement history entry becomes a leaf of a Merkle tree, in the style
//! of Certificate Transparency:
//!
//! - **Append-only**: modifying any historical entry changes every later root
//!   hash.
//! - **Inclusion proofs**: a compact proof that an entry is part of the log,
//!   checkable by anyone who knows the root hash.
//! - **Consistency proofs**: proof that a log at size T2 extends the log at
//!   size T1, by the subtree decomposition of RFC 6962.
//! - **Tamper detection**: edits made outside the log's own append API show on
//!   the next `verify_root` / `verify_integrity` call.
//!
//! The tree is modelled as a binary tree over the leaves continued to the right
//! with [`empty_hash`]: `subtree(leaves, level, pos)` is the hash of the node
//! number `pos` on `level`, and the root is the leftmost node of the lowest
//! level on which one node covers all leaves.
use crate::bytes::{bytes32_eq, copy_prefix32, list32_eq};
use crate::hashing::{sha256, sha256_digest};
use vstd::arithmetic::power2::{lemma_pow2_pos, lemma_pow2_unfold, pow2};
use vstd::bytes::{spec_u64_to_le_bytes, u64_to_le_bytes};
use vstd::prelude::*;
use vstd::utf8::{
    encode_utf8, encode_utf8_decode_utf8, encode_utf8_valid_utf8, is_char_boundary,
    is_char_boundary_iff_is_leading_byte, is_char_boundary_iff_not_is_continuation_byte,
};

verus! {

/// All-zeroes hash used as padding for incomplete subtrees.
#[verifier::allow_in_spec]
pub fn empty_hash() -> (h: [u8; 32])
    returns
        ([
            0u8, 0u8, 0u8, 0u8, 0u8, 0u8, 0u8, 0u8, 0u8, 0u8, 0u8, 0u8, 0u8, 0u8, 0u8, 0u8,
            0u8, 0u8, 0u8, 0u8, 0u8, 0u8, 0u8, 0u8, 0u8, 0u8, 0u8, 0u8, 0u8, 0u8, 0u8, 0u8,
        ]),
{
    [
        0u8, 0u8, 0u8, 0u8, 0u8, 0u8, 0u8, 0u8, 0u8, 0u8, 0u8, 0u8, 0u8, 0u8, 0u8, 0u8,
        0u8, 0u8, 0u8, 0u8, 0u8, 0u8, 0u8, 0u8, 0u8, 0u8, 0u8, 0u8, 0u8, 0u8, 0u8, 0u8,
    ]
}

/// A single entry in the transparency log, corresponding to one settlement
/// history row.
#[derive(Debug, Clone, PartialEq, Eq)]
pub struct LogEntry {
    /// Sequential index in the log (0-based).
    pub index: u64,
    /// The settlement history row's `message_id`.
    pub message_id: [u8; 32],
    /// Previous settlement status (empty string for the first transition).
    pub from_status: String,
    /// New settlement status.
    pub to_status: String,
    /// Unix timestamp of the transition.
    pub timestamp: u64,
}

/// The byte between the two statuses where an entry is hashed. No text contains it: it
/// occurs nowhere in UTF-8.
pub const STATUS_SEPARATOR: u8 = 0xff;

impl LogEntry {
    /// The bytes an entry is hashed over: index, message id, both statuses with a
    /// separator between them, and the timestamp, integers in little-endian order.
    pub open spec fn hash_bytes(self) -> Seq<u8> {
        spec_u64_to_le_bytes(self.index) + self.message_id@ + encode_utf8(self.from_status@)
            + seq![STATUS_SEPARATOR] + encode_utf8(self.to_status@) + spec_u64_to_le_bytes(
            self.timestamp,
        )
    }

    /// Whether two entries say the same.
    pub open spec fn same_as(self, other: LogEntry) -> bool {
        &&& self.index == other.index
        &&& self.message_id == other.message_id
        &&& self.from_status@ == other.from_status@
        &&& self.to_status@ == other.to_status@
        &&& self.timestamp == other.timestamp
    }

    /// Deterministic byte representation for hashing. Includes the index so
    /// that swapping two entries with identical data is detectable.
    pub fn to_hash_bytes(&self) -> (buf: Vec<u8>)
        ensures
            buf@ == self.hash_bytes(),
    {
        let mut buf: Vec<u8> = u64_to_le_bytes(self.index);
        buf.extend_from_slice(self.message_id.as_slice());
        buf.extend_from_slice(self.from_status.as_str().as_bytes());
        buf.push(STATUS_SEPARATOR);
        buf.extend_from_slice(self.to_status.as_str().as_bytes());
        let stamp = u64_to_le_bytes(self.timestamp);
        buf.extend_from_slice(stamp.as_slice());
        assert(buf@ =~= self.hash_bytes());
        buf
    }
}

proof fn lemma_text_has_no_separator(text: Seq<char>, i: int)
    requires
        0 <= i < encode_utf8(text).len(),
    ensures
        encode_utf8(text)[i] != STATUS_SEPARATOR,
{
    let bytes = encode_utf8(text);
    encode_utf8_valid_utf8(text);
    is_char_boundary_iff_not_is_continuation_byte(bytes, i);
    is_char_boundary_iff_is_leading_byte(bytes, i);
    assert(is_char_boundary(bytes, i) || bytes[i] <= 0xbf);
}

/// Different entries are hashed over different bytes.
pub proof fn hash_bytes_tell_entries_apart(a: LogEntry, b: LogEntry)
    ensures
        a.hash_bytes() == b.hash_bytes() <==> a.same_as(b),
{
    if a.hash_bytes() == b.hash_bytes() {
        let bytes = a.hash_bytes();
        let fa = encode_utf8(a.from_status@);
        let fb = encode_utf8(b.from_status@);
        let ta = encode_utf8(a.to_status@);
        let tb = encode_utf8(b.to_status@);
        let n = bytes.len() as int;
        vstd::bytes::lemma_auto_spec_u64_to_from_le_bytes();
        assert(bytes.subrange(0, 8) =~= spec_u64_to_le_bytes(a.index));
        assert(bytes.subrange(0, 8) =~= spec_u64_to_le_bytes(b.index));
        assert(bytes.subrange(8, 40) =~= a.message_id@);
        assert(bytes.subrange(8, 40) =~= b.message_id@);
        assert(a.message_id =~= b.message_id);
        assert(bytes.subrange(n - 8, n) =~= spec_u64_to_le_bytes(a.timestamp));
        assert(bytes.subrange(n - 8, n) =~= spec_u64_to_le_bytes(b.timestamp));
        assert(bytes[40int + fa.len()] == STATUS_SEPARATOR);
        assert(bytes[40int + fb.len()] == STATUS_SEPARATOR);
        if fa.len() < fb.len() {
            assert(bytes[40int + fa.len()] == fb[fa.len() as int]);
            lemma_text_has_no_separator(b.from_status@, fa.len() as int);
        } else if fb.len() < fa.len() {
            assert(bytes[40int + fb.len()] == fa[fb.len() as int]);
            lemma_text_has_no_separator(a.from_status@, fb.len() as int);
        }
        let cut = 40int + fa.len();
        assert(bytes.subrange(40, cut) =~= fa);
        assert(bytes.subrange(40, cut) =~= fb);
        assert(bytes.subrange(cut + 1, n - 8) =~= ta);
        assert(bytes.subrange(cut + 1, n - 8) =~= tb);
        encode_utf8_decode_utf8(a.from_status@);
        encode_utf8_decode_utf8(b.from_status@);
        encode_utf8_decode_utf8(a.to_status@);
        encode_utf8_decode_utf8(b.to_status@);
    }
}

/// Domain separator of leaf hashes.
pub const LEAF_DOMAIN: &'static str = "stellarconduit_transparency_log_leaf_v1";

/// Domain separator of internal node hashes.
pub const NODE_DOMAIN: &'static str = "stellarconduit_transparency_log_node_v1";

/// What a leaf entry is hashed over.
pub open spec fn leaf_input(entry: LogEntry) -> Seq<u8> {
    encode_utf8(LEAF_DOMAIN@) + entry.hash_bytes()
}

/// What an internal node with the given children is hashed over.
pub open spec fn node_input(left: [u8; 32], right: [u8; 32]) -> Seq<u8> {
    encode_utf8(NODE_DOMAIN@) + left@ + right@
}

/// The hash of a leaf entry.
pub open spec fn leaf_digest(entry: LogEntry) -> [u8; 32] {
    sha256_digest(leaf_input(entry))
}

/// The hash of an internal node with the given children.
pub open spec fn node_digest(left: [u8; 32], right: [u8; 32]) -> [u8; 32] {
    sha256_digest(node_input(left, right))
}

/// Two different inputs with the same hash.
pub open spec fn inputs_collide(x: Seq<u8>, y: Seq<u8>) -> bool {
    x != y && sha256_digest(x) == sha256_digest(y)
}

/// Domain-separated SHA-256 hash of a leaf entry.
pub fn leaf_hash(entry: &LogEntry) -> (h: [u8; 32])
    ensures
        h == leaf_digest(*entry),
{
    let mut buf: Vec<u8> = Vec::new();
    buf.extend_from_slice(LEAF_DOMAIN.as_bytes());
    let body = entry.to_hash_bytes();
    buf.extend_from_slice(body.as_slice());
    assert(buf@ =~= encode_utf8(LEAF_DOMAIN@) + entry.hash_bytes());
    sha256(buf.as_slice())
}

/// Domain-separated SHA-256 hash of an internal node.
pub fn node_hash(left: &[u8; 32], right: &[u8; 32]) -> (h: [u8; 32])
    ensures
        h == node_digest(*left, *right),
{
    let mut buf: Vec<u8> = Vec::new();
    buf.extend_from_slice(NODE_DOMAIN.as_bytes());
    buf.extend_from_slice(left.as_slice());
    buf.extend_from_slice(right.as_slice());
    assert(buf@ =~= encode_utf8(NODE_DOMAIN@) + left@ + right@);
    sha256(buf.as_slice())
}

// ---------------------------------------------------------------------------
// The Merkle tree
// ---------------------------------------------------------------------------

/// The hash of node `pos` on `level` of the tree over `leaves`, continued to the
/// right with [`empty_hash`].
pub open spec fn subtree(leaves: Seq<[u8; 32]>, level: nat, pos: nat) -> [u8; 32]
    decreases level,
{
    if level == 0 {
        if pos < leaves.len() {
            leaves[pos as int]
        } else {
            empty_hash()
        }
    } else {
        node_digest(
            subtree(leaves, (level - 1) as nat, 2 * pos),
            subtree(leaves, (level - 1) as nat, 2 * pos + 1),
        )
    }
}

/// The hash of a subtree of height `level` that holds padding only.
pub open spec fn padding(level: nat) -> [u8; 32]
    decreases level,
{
    if level == 0 {
        empty_hash()
    } else {
        node_digest(padding((level - 1) as nat), padding((level - 1) as nat))
    }
}

/// The lowest level on which a single node covers `n` leaves.
pub open spec fn tree_height(n: nat) -> nat
    decreases n,
{
    if n <= 1 {
        0
    } else {
        tree_height((n + 1) / 2) + 1
    }
}

/// The root hash of the tree over `leaves`; [`empty_hash`] where there are none.
pub open spec fn merkle_root(leaves: Seq<[u8; 32]>) -> [u8; 32] {
    subtree(leaves, tree_height(leaves.len()), 0)
}

proof fn lemma_subtree_padding(leaves: Seq<[u8; 32]>, level: nat, pos: nat)
    requires
        pos * pow2(level) >= leaves.len(),
    ensures
        subtree(leaves, level, pos) == padding(level),
    decreases level,
{
    if level > 0 {
        let below = (level - 1) as nat;
        lemma_pow2_unfold(level);
        lemma_pow2_pos(below);
        assert((2 * pos) * pow2(below) == pos * pow2(level)) by (nonlinear_arith)
            requires
                pow2(level) == 2 * pow2(below),
        ;
        assert((2 * pos + 1) * pow2(below) >= pos * pow2(level)) by (nonlinear_arith)
            requires
                pow2(level) == 2 * pow2(below),
                pow2(below) > 0,
        ;
        lemma_subtree_padding(leaves, below, 2 * pos);
        lemma_subtree_padding(leaves, below, 2 * pos + 1);
    } else {
        vstd::arithmetic::power2::lemma2_to64();
    }
}

/// `2^tree_height(n)` is at least `n`, and the height is the least such.
pub proof fn tree_height_is_least(n: nat)
    ensures
        n <= pow2(tree_height(n)),
        tree_height(n) > 0 ==> pow2((tree_height(n) - 1) as nat) < n,
    decreases n,
{
    vstd::arithmetic::power2::lemma2_to64();
    if n > 1 {
        let half = ((n + 1) / 2) as nat;
        tree_height_is_least(half);
        lemma_pow2_unfold(tree_height(n));
        if tree_height(half) > 0 {
            lemma_pow2_unfold(tree_height(half));
        }
    }
}

/// The levels of a Merkle tree, from the leaves up to the root. Level `k` holds
/// the nodes that cover at least one leaf; every node to their right has the
/// hash `pads[k]`.
pub struct TreeLevels {
    pub levels: Vec<Vec<[u8; 32]>>,
    pub pads: Vec<[u8; 32]>,
}

impl TreeLevels {
    /// Whether these are the levels of the tree over `leaves`.
    pub open spec fn of(self, leaves: Seq<[u8; 32]>) -> bool {
        &&& self.levels.len() == tree_height(leaves.len()) + 1
        &&& self.pads.len() == self.levels.len()
        &&& forall|k: int|
            0 <= k < self.levels.len() ==> level_holds(leaves, k as nat, #[trigger] self.levels[k]@)
        &&& forall|k: int| 0 <= k < self.pads.len() ==> #[trigger] self.pads[k] == padding(k as nat)
        &&& leaves.len() > 0 ==> self.levels[self.levels.len() - 1].len() == 1
    }
}

/// Whether `level` holds the nodes of level `k` that cover a leaf.
pub open spec fn level_holds(leaves: Seq<[u8; 32]>, k: nat, level: Seq<[u8; 32]>) -> bool {
    &&& level.len() * pow2(k) >= leaves.len()
    &&& forall|i: int| 0 <= i < level.len() ==> #[trigger] level[i] == subtree(leaves, k, i as nat)
}

/// Build all levels of the Merkle tree from the given leaf hashes.
fn build_tree_levels(leaves: &[[u8; 32]]) -> (tree: TreeLevels)
    ensures
        tree.of(leaves@),
{
    let mut levels: Vec<Vec<[u8; 32]>> = Vec::new();
    let mut pads: Vec<[u8; 32]> = Vec::new();
    let mut level: Vec<[u8; 32]> = copy_prefix32(leaves, leaves.len());
    let mut pad: [u8; 32] = empty_hash();
    assert(level@ =~= leaves@);
    proof {
        vstd::arithmetic::power2::lemma2_to64();
    }
    while level.len() > 1
        invariant
            levels.len() == pads.len(),
            levels.len() + tree_height(level.len() as nat) == tree_height(leaves.len() as nat),
            level_holds(leaves@, levels.len() as nat, level@),
            pad == padding(levels.len() as nat),
            leaves.len() > 0 <==> level.len() > 0,
            forall|k: int|
                0 <= k < levels.len() ==> level_holds(leaves@, k as nat, #[trigger] levels[k]@),
            forall|k: int| 0 <= k < pads.len() ==> #[trigger] pads[k] == padding(k as nat),
        decreases level.len(),
    {
        let ghost k = levels.len() as nat;
        let next = parent_level(&level, &pad, Ghost(leaves@), Ghost(k));
        let next_pad = node_hash(&pad, &pad);
        levels.push(level);
        pads.push(pad);
        level = next;
        pad = next_pad;
    }
    levels.push(level);
    pads.push(pad);
    TreeLevels { levels, pads }
}

/// The level above `level`.
fn parent_level(
    level: &Vec<[u8; 32]>,
    pad: &[u8; 32],
    Ghost(leaves): Ghost<Seq<[u8; 32]>>,
    Ghost(k): Ghost<nat>,
) -> (next: Vec<[u8; 32]>)
    requires
        level_holds(leaves, k, level@),
        *pad == padding(k),
    ensures
        next.len() == (level.len() + 1) / 2,
        level_holds(leaves, k + 1, next@),
{
    let mut next: Vec<[u8; 32]> = Vec::new();
    let mut i: usize = 0;
    while i < level.len()
        invariant
            level_holds(leaves, k, level@),
            *pad == padding(k),
            i == 2 * next.len() || (i == level.len() && i + 1 == 2 * next.len()),
            i <= level.len(),
            forall|j: int|
                0 <= j < next.len() ==> #[trigger] next[j] == subtree(leaves, k + 1, j as nat),
        decreases level.len() - i,
    {
        let ghost j = next.len() as nat;
        assert(i == 2 * j);
        assert(level[i as int] == subtree(leaves, k, 2 * j));
        if i + 1 < level.len() {
            assert(level[i + 1] == subtree(leaves, k, 2 * j + 1));
            next.push(node_hash(&level[i], &level[i + 1]));
            i += 2;
        } else {
            assert((2 * j + 1) * pow2(k) >= leaves.len());
            proof {
                lemma_subtree_padding(leaves, k, 2 * j + 1);
            }
            next.push(node_hash(&level[i], pad));
            i += 1;
        }
    }
    proof {
        lemma_pow2_unfold(k + 1);
        assert(next.len() * pow2(k + 1) >= level.len() * pow2(k)) by (nonlinear_arith)
            requires
                pow2(k + 1) == 2 * pow2(k),
                2 * next.len() >= level.len(),
        ;
    }
    next
}

/// Return the root hash of a pre-built tree.
fn root_from_levels(tree: &TreeLevels, leaves: &[[u8; 32]]) -> (root: [u8; 32])
    requires
        tree.of(leaves@),
    ensures
        root == merkle_root(leaves@),
{
    let top: usize = tree.levels.len() - 1;
    assert(level_holds(leaves@, top as nat, tree.levels[top as int]@));
    if leaves.len() == 0 {
        empty_hash()
    } else {
        tree.levels[top][0]
    }
}

// ---------------------------------------------------------------------------
// Inclusion proofs
// ---------------------------------------------------------------------------

/// A compact proof that a specific leaf is included in the Merkle tree at a
/// given root hash. Sufficient for independent verification by a third party
/// that only knows the root.
#[derive(Debug, Clone, PartialEq, Eq)]
pub struct InclusionProof {
    /// Index of the proved leaf in the log.
    pub leaf_index: usize,
    /// Hash of the proved leaf.
    pub leaf_hash: [u8; 32],
    /// Sibling hashes on the path from leaf to root, bottom-up. Each entry is
    /// `(sibling_hash, sibling_is_right)`.
    pub path: Vec<([u8; 32], bool)>,
    /// The root hash this proof is valid against.
    pub root_hash: [u8; 32],
}

/// The position of the other child of the same parent.
pub open spec fn sibling(pos: nat) -> nat {
    if pos % 2 == 0 {
        pos + 1
    } else {
        (pos - 1) as nat
    }
}

/// The ancestor on `level` of leaf number `index`.
pub open spec fn ancestor(index: nat, level: nat) -> nat
    decreases level,
{
    if level == 0 {
        index
    } else {
        ancestor(index, (level - 1) as nat) / 2
    }
}

/// The path from leaf `index` up through `height` levels: on each level the
/// sibling of the ancestor, and whether that sibling is the right child.
pub open spec fn audit_path(leaves: Seq<[u8; 32]>, index: nat, height: nat) -> Seq<([u8; 32], bool)> {
    Seq::new(
        height,
        |k: int|
            (
                subtree(leaves, k as nat, sibling(ancestor(index, k as nat))),
                ancestor(index, k as nat) % 2 == 0,
            ),
    )
}

/// The hash that a leaf hash and a path lead up to.
pub open spec fn path_root(leaf: [u8; 32], path: Seq<([u8; 32], bool)>) -> [u8; 32]
    decreases path.len(),
{
    if path.len() == 0 {
        leaf
    } else {
        let below = path_root(leaf, path.drop_last());
        if path.last().1 {
            node_digest(below, path.last().0)
        } else {
            node_digest(path.last().0, below)
        }
    }
}

/// Generate an inclusion proof for the leaf at `index`.
fn inclusion_proof_from_levels(tree: &TreeLevels, leaves: &[[u8; 32]], index: usize) -> (r: Option<
    InclusionProof,
>)
    requires
        tree.of(leaves@),
    ensures
        r is Some <==> index < leaves.len(),
        r matches Some(proof) ==> {
            &&& proof.leaf_index == index
            &&& proof.leaf_hash == leaves@[index as int]
            &&& proof.path@ == audit_path(leaves@, index as nat, tree_height(leaves@.len()))
            &&& proof.root_hash == merkle_root(leaves@)
        },
{
    if index >= leaves.len() {
        return None;
    }
    let root = root_from_levels(tree, leaves);
    let mut path: Vec<([u8; 32], bool)> = Vec::new();
    let mut idx: usize = index;
    let mut k: usize = 0;
    // Walk from the leaf level up to the root, which has no sibling.
    while k < tree.levels.len() - 1
        invariant
            tree.of(leaves@),
            k < tree.levels.len(),
            idx == ancestor(index as nat, k as nat),
            path@ == audit_path(leaves@, index as nat, k as nat),
        decreases tree.levels.len() - k,
    {
        let ghost pos = idx as nat;
        let level = &tree.levels[k];
        assert(level_holds(leaves@, k as nat, level@));
        let is_right = idx % 2 == 0;
        let sibling_hash: [u8; 32] = if is_right {
            if idx < level.len() && idx + 1 < level.len() {
                level[idx + 1]
            } else {
                proof {
                    let w = level.len() as nat;
                    let p2 = pow2(k as nat);
                    assert((pos + 1) * p2 >= w * p2) by (nonlinear_arith)
                        requires
                            pos + 1 >= w,
                    ;
                    lemma_subtree_padding(leaves@, k as nat, pos + 1);
                }
                tree.pads[k]
            }
        } else {
            if idx - 1 < level.len() {
                level[idx - 1]
            } else {
                proof {
                    let w = level.len() as nat;
                    let p2 = pow2(k as nat);
                    assert((pos - 1) * p2 >= w * p2) by (nonlinear_arith)
                        requires
                            pos - 1 >= w,
                    ;
                    lemma_subtree_padding(leaves@, k as nat, (pos - 1) as nat);
                }
                tree.pads[k]
            }
        };
        path.push((sibling_hash, is_right));
        assert(path@ =~= audit_path(leaves@, index as nat, (k + 1) as nat));
        idx = idx / 2;
        k += 1;
    }
    Some(InclusionProof { leaf_index: index, leaf_hash: leaves[index], path, root_hash: root })
}

/// Verify an inclusion proof. Returns `true` if the proof is valid, i.e. the
/// leaf hash, combined with the path, reproduces the claimed root hash.
pub fn verify_inclusion_proof(proof: &InclusionProof) -> (valid: bool)
    ensures
        valid == (path_root(proof.leaf_hash, proof.path@) == proof.root_hash),
{
    let mut current: [u8; 32] = proof.leaf_hash;
    let mut i: usize = 0;
    while i < proof.path.len()
        invariant
            i <= proof.path.len(),
            current == path_root(proof.leaf_hash, proof.path@.subrange(0, i as int)),
        decreases proof.path.len() - i,
    {
        let step = proof.path[i];
        assert(proof.path@.subrange(0, i + 1).drop_last() =~= proof.path@.subrange(0, i as int));
        current = if step.1 {
            node_hash(&current, &step.0)
        } else {
            node_hash(&step.0, &current)
        };
        i += 1;
    }
    assert(proof.path@.subrange(0, i as int) =~= proof.path@);
    bytes32_eq(&current, &proof.root_hash)
}

proof fn lemma_audit_path_leads_up(leaves: Seq<[u8; 32]>, index: nat, height: nat)
    requires
        index < leaves.len(),
    ensures
        path_root(leaves[index as int], audit_path(leaves, index, height)) == subtree(
            leaves,
            height,
            ancestor(index, height),
        ),
    decreases height,
{
    if height > 0 {
        let below = (height - 1) as nat;
        lemma_audit_path_leads_up(leaves, index, below);
        assert(audit_path(leaves, index, height).drop_last() =~= audit_path(leaves, index, below));
    }
}

proof fn lemma_ancestor_at_top(index: nat, n: nat)
    requires
        index < n,
    ensures
        ancestor(index, tree_height(n)) == 0,
    decreases n,
{
    if n > 1 {
        let half = ((n + 1) / 2) as nat;
        lemma_ancestor_at_top(index / 2, half);
        lemma_ancestor_shift(index, tree_height(half));
    }
}

proof fn lemma_ancestor_shift(index: nat, level: nat)
    ensures
        ancestor(index, level + 1) == ancestor(index / 2, level),
    decreases level,
{
    reveal_with_fuel(ancestor, 2);
    if level > 0 {
        lemma_ancestor_shift(index, (level - 1) as nat);
    }
}

/// The inclusion proof the log hands out for any of its entries verifies, and
/// leads to the root of the log.
pub proof fn inclusion_proofs_verify(leaves: Seq<[u8; 32]>, index: nat)
    requires
        index < leaves.len(),
    ensures
        path_root(
            leaves[index as int],
            audit_path(leaves, index, tree_height(leaves.len())),
        ) == merkle_root(leaves),
{
    lemma_audit_path_leads_up(leaves, index, tree_height(leaves.len()));
    lemma_ancestor_at_top(index, leaves.len());
}

// ---------------------------------------------------------------------------
// Consistency proofs
// ---------------------------------------------------------------------------

/// A proof that a log of size `new_size` is a valid append-only extension of a
/// log of size `old_size`, by the subtree decomposition of RFC 6962 §2.1.2.
#[derive(Debug, Clone, PartialEq, Eq)]
pub struct ConsistencyProof {
    pub old_size: usize,
    pub new_size: usize,
    pub old_root: [u8; 32],
    pub new_root: [u8; 32],
    /// The hashes of the largest complete subtrees that the first `old_size`
    /// leaves of the new tree fall into, from left to right. The old root is
    /// rebuilt from them.
    pub proof_hashes: Vec<[u8; 32]>,
}

/// The complete subtrees on `level` and above that `n` nodes of `level` fall
/// into, from left to right.
pub open spec fn peaks(leaves: Seq<[u8; 32]>, level: nat, n: nat) -> Seq<[u8; 32]>
    decreases n,
{
    if n == 0 {
        Seq::empty()
    } else {
        let above = peaks(leaves, level + 1, n / 2);
        if n % 2 == 1 {
            above.push(subtree(leaves, level, (n - 1) as nat))
        } else {
            above
        }
    }
}

/// The subtree decomposition of the first `size` leaves.
pub open spec fn prefix_subtrees(leaves: Seq<[u8; 32]>, size: nat) -> Seq<[u8; 32]> {
    peaks(leaves, 0, size)
}

/// Compute the hash of node `pos` on `level`.
fn subtree_hash(leaves: &[[u8; 32]], level: usize, pos: usize) -> (h: [u8; 32])
    requires
        (pos + 1) * pow2(level as nat) <= usize::MAX,
    ensures
        h == subtree(leaves@, level as nat, pos as nat),
    decreases level,
{
    if level == 0 {
        if pos < leaves.len() {
            leaves[pos]
        } else {
            empty_hash()
        }
    } else {
        proof {
            let below = pow2((level - 1) as nat);
            lemma_pow2_unfold(level as nat);
            lemma_pow2_pos((level - 1) as nat);
            assert(2 * pos + 2 <= (2 * pos + 2) * below && (2 * pos + 2) * below == (pos + 1) * (2
                * below) && (2 * pos + 1) * below <= (2 * pos + 2) * below) by (nonlinear_arith)
                requires
                    below > 0,
            ;
        }
        let left = subtree_hash(leaves, level - 1, 2 * pos);
        let right = subtree_hash(leaves, level - 1, 2 * pos + 1);
        node_hash(&left, &right)
    }
}

/// Collect the subtree decomposition of `n` nodes of `level`: the largest
/// power-of-two subtree at each step, from left to right.
fn collect_subtree_hashes(leaves: &[[u8; 32]], level: usize, n: usize) -> (hashes: Vec<[u8; 32]>)
    requires
        n * pow2(level as nat) <= usize::MAX,
        level + n <= usize::MAX,
    ensures
        hashes@ == peaks(leaves@, level as nat, n as nat),
    decreases n,
{
    if n == 0 {
        return Vec::new();
    }
    proof {
        let p2 = pow2(level as nat);
        lemma_pow2_unfold((level + 1) as nat);
        assert((n / 2) * (2 * p2) <= n * p2) by (nonlinear_arith)
            requires
                2 * (n / 2) <= n,
        ;
    }
    let mut hashes = collect_subtree_hashes(leaves, level + 1, n / 2);
    if n % 2 == 1 {
        hashes.push(subtree_hash(leaves, level, n - 1));
    }
    hashes
}

/// Generate a consistency proof from `old_size` to `new_size`.
///
/// Returns `None` if `old_size > new_size` or `old_size` is zero.
pub fn consistency_proof(
    old_leaves: &[[u8; 32]],
    new_leaves: &[[u8; 32]],
    old_size: usize,
    new_size: usize,
) -> (r: Option<ConsistencyProof>)
    ensures
        r is Some <==> 0 < old_size <= new_size,
        r matches Some(proof) ==> {
            &&& proof.old_size == old_size
            &&& proof.new_size == new_size
            &&& proof.old_root == merkle_root(old_leaves@)
            &&& proof.new_root == merkle_root(new_leaves@)
            &&& proof.proof_hashes@ == if old_size == new_size {
                Seq::empty()
            } else {
                prefix_subtrees(new_leaves@, old_size as nat)
            }
        },
{
    if old_size == 0 || old_size > new_size {
        return None;
    }
    let old_root = root_from_levels(&build_tree_levels(old_leaves), old_leaves);
    let new_root = root_from_levels(&build_tree_levels(new_leaves), new_leaves);
    let proof_hashes = if old_size == new_size {
        // Trivial: same log, nothing to decompose.
        Vec::new()
    } else {
        proof {
            vstd::arithmetic::power2::lemma2_to64();
        }
        collect_subtree_hashes(new_leaves, 0, old_size)
    };
    Some(ConsistencyProof { old_size, new_size, old_root, new_root, proof_hashes })
}

/// Whether `proof` shows that the log over `new_leaves` extends the log it had
/// at `proof.old_size`.
pub open spec fn consistency_shown(proof: ConsistencyProof, new_leaves: Seq<[u8; 32]>) -> bool {
    &&& 0 < proof.old_size <= proof.new_size
    &&& proof.new_root == merkle_root(new_leaves)
    &&& if proof.old_size == proof.new_size {
        proof.old_root == proof.new_root
    } else {
        &&& proof.old_size <= new_leaves.len()
        &&& proof.proof_hashes@ == prefix_subtrees(new_leaves, proof.old_size as nat)
        &&& proof.old_root == merkle_root(new_leaves.subrange(0, proof.old_size as int))
    }
}

/// Rebuild the old root from the new tree's leaves and the proof hashes, then
/// verify it matches the claimed old root. Also verifies the new root matches.
pub fn verify_consistency_proof(proof: &ConsistencyProof, new_leaves: &[[u8; 32]]) -> (valid: bool)
    ensures
        valid == consistency_shown(*proof, new_leaves@),
{
    if proof.old_size == 0 || proof.old_size > proof.new_size {
        return false;
    }
    let expected = root_from_levels(&build_tree_levels(new_leaves), new_leaves);
    if !bytes32_eq(&proof.new_root, &expected) {
        return false;
    }
    if proof.old_size == proof.new_size {
        // Trivial: both roots must be equal.
        return bytes32_eq(&proof.old_root, &proof.new_root);
    }
    if proof.old_size > new_leaves.len() {
        return false;
    }
    proof {
        vstd::arithmetic::power2::lemma2_to64();
    }
    let hashes = collect_subtree_hashes(new_leaves, 0, proof.old_size);
    if !list32_eq(proof.proof_hashes.as_slice(), hashes.as_slice()) {
        return false;
    }
    let reconstructed = root_from_subtrees(
        proof.proof_hashes.as_slice(),
        proof.old_size,
        Ghost(new_leaves@),
    );
    bytes32_eq(&reconstructed, &proof.old_root)
}

proof fn lemma_subtree_of_prefix(leaves: Seq<[u8; 32]>, size: nat, level: nat, pos: nat)
    requires
        size <= leaves.len(),
        (pos + 1) * pow2(level) <= size,
    ensures
        subtree(leaves.subrange(0, size as int), level, pos) == subtree(leaves, level, pos),
    decreases level,
{
    if level == 0 {
        vstd::arithmetic::power2::lemma2_to64();
    } else {
        let below = (level - 1) as nat;
        let p2 = pow2(below);
        lemma_pow2_unfold(level);
        assert((2 * pos + 1 + 1) * p2 == (pos + 1) * (2 * p2) && (2 * pos + 1) * p2 <= (pos + 1)
            * (2 * p2)) by (nonlinear_arith);
        lemma_subtree_of_prefix(leaves, size, below, 2 * pos);
        lemma_subtree_of_prefix(leaves, size, below, 2 * pos + 1);
    }
}

proof fn lemma_tree_height_is(n: nat, h: nat)
    requires
        n <= pow2(h),
        h > 0 ==> pow2((h - 1) as nat) < n,
        n > 0,
    ensures
        tree_height(n) == h,
{
    tree_height_is_least(n);
    let t = tree_height(n);
    if t < h {
        if t < h - 1 {
            vstd::arithmetic::power2::lemma_pow2_strictly_increases(t, (h - 1) as nat);
        }
    } else if h < t {
        if h < t - 1 {
            vstd::arithmetic::power2::lemma_pow2_strictly_increases(h, (t - 1) as nat);
        }
    }
}

/// Rebuild the root over the first `size` leaves from their subtree
/// decomposition, padding on the right.
fn root_from_subtrees(
    hashes: &[[u8; 32]],
    size: usize,
    Ghost(leaves): Ghost<Seq<[u8; 32]>>,
) -> (root: [u8; 32])
    requires
        0 < size <= leaves.len(),
        hashes@ == prefix_subtrees(leaves, size as nat),
    ensures
        root == merkle_root(leaves.subrange(0, size as int)),
{
    let ghost prefix = leaves.subrange(0, size as int);
    let ghost mut level: nat = 0;
    let ghost mut width: nat = 1;
    let mut n: usize = size;
    let mut left: usize = hashes.len();
    let mut acc: [u8; 32] = empty_hash();
    let mut pad: [u8; 32] = empty_hash();
    let mut complete = true;
    proof {
        vstd::arithmetic::power2::lemma2_to64();
    }
    assert(hashes@.subrange(0, left as int) =~= hashes@);
    while n > 1
        invariant
            0 < n,
            0 < size <= leaves.len(),
            prefix == leaves.subrange(0, size as int),
            left <= hashes.len(),
            hashes@.subrange(0, left as int) == peaks(leaves, level, n as nat),
            width == pow2(level),
            acc == subtree(prefix, level, n as nat),
            pad == padding(level),
            complete ==> n * width == size,
            !complete ==> n * width < size < (n + 1) * width,
        decreases n,
    {
        proof {
            lemma_pow2_unfold(level + 1);
            lemma_pow2_pos(level);
            let half = (n / 2) as int;
            assert((n + 1) * width == n * width + width) by (nonlinear_arith);
            assert((half + 1) * (2 * width) == half * (2 * width) + 2 * width) by (nonlinear_arith);
            if n % 2 == 1 {
                assert(half * (2 * width) == n * width - width) by (nonlinear_arith)
                    requires
                        n == 2 * half + 1,
                ;
            } else {
                assert(half * (2 * width) == n * width) by (nonlinear_arith)
                    requires
                        n == 2 * half,
                ;
            }
        }
        if n % 2 == 1 {
            proof {
                assert((n - 1 + 1) * pow2(level) <= size);
                lemma_subtree_of_prefix(leaves, size as nat, level, (n - 1) as nat);
                assert(peaks(leaves, level, n as nat).last() == subtree(
                    leaves,
                    level,
                    (n - 1) as nat,
                ));
                assert(hashes@.subrange(0, left as int).drop_last() =~= hashes@.subrange(
                    0,
                    left - 1,
                ));
                assert(peaks(leaves, level, n as nat).drop_last() =~= peaks(
                    leaves,
                    level + 1,
                    (n / 2) as nat,
                ));
            }
            left -= 1;
            acc = node_hash(&hashes[left], &acc);
            complete = false;
        } else {
            proof {
                lemma_subtree_padding(prefix, level, (n + 1) as nat);
            }
            acc = node_hash(&acc, &pad);
        }
        pad = node_hash(&pad, &pad);
        n = n / 2;
        proof {
            level = level + 1;
            width = 2 * width;
        }
    }
    proof {
        reveal_with_fuel(peaks, 2);
        assert(hashes@.subrange(0, left as int) =~= seq![subtree(leaves, level, 0)]);
        assert(hashes[0] == hashes@.subrange(0, left as int)[0]);
        assert(1 * width == width && 2 * width == width + width);
        lemma_subtree_of_prefix(leaves, size as nat, level, 0);
        lemma_pow2_unfold(level + 1);
    }
    if complete {
        proof {
            if level > 0 {
                lemma_pow2_unfold(level);
                lemma_pow2_pos((level - 1) as nat);
            }
            lemma_tree_height_is(size as nat, level);
        }
        hashes[0]
    } else {
        proof {
            lemma_tree_height_is(size as nat, level + 1);
        }
        node_hash(&hashes[0], &acc)
    }
}

/// A consistency proof made for a prefix of the log verifies, whatever the two
/// sizes.
pub proof fn consistency_proofs_verify(proof: ConsistencyProof, leaves: Seq<[u8; 32]>)
    requires
        0 < proof.old_size <= leaves.len() == proof.new_size,
        proof.old_root == merkle_root(leaves.subrange(0, proof.old_size as int)),
        proof.new_root == merkle_root(leaves),
        proof.proof_hashes@ == if proof.old_size == proof.new_size {
            Seq::empty()
        } else {
            prefix_subtrees(leaves, proof.old_size as nat)
        },
    ensures
        consistency_shown(proof, leaves),
{
    if proof.old_size == proof.new_size {
        assert(leaves.subrange(0, proof.old_size as int) =~= leaves);
    }
}

/// An accepted consistency proof between two sizes pins the old log down: its
/// root is the root of the first `old_size` leaves of the new log.
pub proof fn accepted_consistency_fixes_the_prefix(proof: ConsistencyProof, leaves: Seq<[u8; 32]>)
    requires
        consistency_shown(proof, leaves),
        proof.new_size == leaves.len(),
    ensures
        proof.old_root == merkle_root(leaves.subrange(0, proof.old_size as int)),
{
    if proof.old_size == proof.new_size {
        assert(leaves.subrange(0, proof.old_size as int) =~= leaves);
    }
}

/// Whether the nodes above `level` at `pos` of two trees are hashed over different
/// children, to the same hash.
pub open spec fn nodes_collide(
    a: Seq<[u8; 32]>,
    b: Seq<[u8; 32]>,
    level: nat,
    pos: nat,
) -> bool {
    inputs_collide(
        node_input(subtree(a, level, 2 * pos), subtree(a, level, 2 * pos + 1)),
        node_input(subtree(b, level, 2 * pos), subtree(b, level, 2 * pos + 1)),
    )
}

proof fn lemma_node_input_holds_children(
    a: [u8; 32],
    b: [u8; 32],
    c: [u8; 32],
    d: [u8; 32],
)
    requires
        node_input(a, b) == node_input(c, d),
    ensures
        a == c,
        b == d,
{
    let n = encode_utf8(NODE_DOMAIN@).len() as int;
    let bytes = node_input(a, b);
    assert(bytes.subrange(n, n + 32) =~= a@);
    assert(bytes.subrange(n, n + 32) =~= c@);
    assert(bytes.subrange(n + 32, n + 64) =~= b@);
    assert(bytes.subrange(n + 32, n + 64) =~= d@);
    assert(a =~= c);
    assert(b =~= d);
}

proof fn lemma_equal_subtrees(a: Seq<[u8; 32]>, b: Seq<[u8; 32]>, level: nat, pos: nat, i: nat)
    requires
        a.len() == b.len(),
        i < a.len(),
        subtree(a, level, pos) == subtree(b, level, pos),
        ancestor(i, level) == pos,
    ensures
        a[i as int] == b[i as int] || exists|k: nat, q: nat|
            k < level && #[trigger] nodes_collide(a, b, k, q),
    decreases level,
{
    if level > 0 {
        let below = (level - 1) as nat;
        let l = 2 * pos;
        let r = 2 * pos + 1;
        if !nodes_collide(a, b, below, pos) {
            lemma_node_input_holds_children(
                subtree(a, below, l),
                subtree(a, below, r),
                subtree(b, below, l),
                subtree(b, below, r),
            );
            lemma_equal_subtrees(a, b, below, ancestor(i, below), i);
        }
    }
}

/// Modifying any leaf changes the root: two trees of the same size with the same root
/// hold the same leaves, unless the nodes at some place of the two are hashed over
/// different children to the same hash.
pub proof fn root_binds_every_leaf(a: Seq<[u8; 32]>, b: Seq<[u8; 32]>)
    requires
        a.len() == b.len(),
        merkle_root(a) == merkle_root(b),
    ensures
        a == b || exists|k: nat, q: nat|
            k < tree_height(a.len()) && #[trigger] nodes_collide(a, b, k, q),
{
    if !(exists|k: nat, q: nat| k < tree_height(a.len()) && #[trigger] nodes_collide(a, b, k, q)) {
        assert forall|i: int| 0 <= i < a.len() implies a[i] == b[i] by {
            lemma_ancestor_at_top(i as nat, a.len());
            lemma_equal_subtrees(a, b, tree_height(a.len()), 0, i as nat);
        }
        assert(a =~= b);
    }
}

/// The number of the leaf from which a path leads up to the node at `pos`.
pub open spec fn start_of_path(path: Seq<([u8; 32], bool)>, pos: nat) -> nat
    decreases path.len(),
{
    if path.len() == 0 {
        pos
    } else {
        start_of_path(
            path.drop_last(),
            if path.last().1 {
                2 * pos
            } else {
                2 * pos + 1
            },
        )
    }
}

/// What step `k` of a path is hashed over.
pub open spec fn step_input(leaf: [u8; 32], path: Seq<([u8; 32], bool)>, k: int) -> Seq<u8> {
    let below = path_root(leaf, path.subrange(0, k));
    if path[k].1 {
        node_input(below, path[k].0)
    } else {
        node_input(path[k].0, below)
    }
}

/// Whether step `k` of a path, and the node above level `k` at `pos` of the tree, are hashed
/// over different inputs to the same hash.
pub open spec fn step_collides(
    leaf: [u8; 32],
    path: Seq<([u8; 32], bool)>,
    leaves: Seq<[u8; 32]>,
    k: int,
    pos: nat,
) -> bool {
    inputs_collide(
        step_input(leaf, path, k),
        node_input(subtree(leaves, k as nat, 2 * pos), subtree(leaves, k as nat, 2 * pos + 1)),
    )
}

proof fn lemma_path_leads_down(
    leaf: [u8; 32],
    path: Seq<([u8; 32], bool)>,
    leaves: Seq<[u8; 32]>,
    pos: nat,
)
    requires
        path_root(leaf, path) == subtree(leaves, path.len(), pos),
    ensures
        leaf == subtree(leaves, 0, start_of_path(path, pos)) || exists|k: int, q: nat|
            0 <= k < path.len() && #[trigger] step_collides(leaf, path, leaves, k, q),
    decreases path.len(),
{
    if path.len() > 0 {
        let rest = path.drop_last();
        let last = path.len() - 1;
        let below = path_root(leaf, rest);
        let left = subtree(leaves, last as nat, 2 * pos);
        let right = subtree(leaves, last as nat, 2 * pos + 1);
        assert(path.subrange(0, last) =~= rest);
        if !step_collides(leaf, path, leaves, last, pos) {
            let next: nat = if path.last().1 {
                lemma_node_input_holds_children(below, path.last().0, left, right);
                2 * pos
            } else {
                lemma_node_input_holds_children(path.last().0, below, left, right);
                2 * pos + 1
            };
            lemma_path_leads_down(leaf, rest, leaves, next);
            if leaf != subtree(leaves, 0, start_of_path(path, pos)) {
                let (k, q) = choose|k: int, q: nat|
                    0 <= k < rest.len() && #[trigger] step_collides(leaf, rest, leaves, k, q);
                assert(rest.subrange(0, k) =~= path.subrange(0, k));
                assert(step_collides(leaf, path, leaves, k, q));
            }
        }
    }
}

/// An accepted inclusion proof shows the leaf: a path as long as the tree is high that leads
/// from a hash to the root starts from the leaf at that place, or from the padding to the
/// right of the leaves, unless a step of it and a node of the tree are hashed over different
/// inputs to the same hash.
pub proof fn accepted_inclusion_shows_the_leaf(
    leaf: [u8; 32],
    path: Seq<([u8; 32], bool)>,
    leaves: Seq<[u8; 32]>,
)
    requires
        path.len() == tree_height(leaves.len()),
        path_root(leaf, path) == merkle_root(leaves),
    ensures
        ({
            let index = start_of_path(path, 0);
            ||| index < leaves.len() && leaves[index as int] == leaf
            ||| index >= leaves.len() && leaf == empty_hash()
            ||| exists|k: int, q: nat|
                0 <= k < path.len() && #[trigger] step_collides(leaf, path, leaves, k, q)
        }),
{
    lemma_path_leads_down(leaf, path, leaves, 0);
}

// ---------------------------------------------------------------------------
// The log
// ---------------------------------------------------------------------------

/// Append-only Merkle transparency log over settlement history entries.
///
/// All mutations go through [`TransparencyLog::append`], which recomputes the
/// root hash. The log can then produce inclusion/consistency proofs on demand.
/// Any out-of-band modification to the underlying data will cause a root hash
/// mismatch on the next verification, because the tree is always rebuilt from
/// the stored entries.
#[derive(Debug, Clone)]
pub struct TransparencyLog {
    pub entries: Vec<LogEntry>,
    pub leaves: Vec<[u8; 32]>,
    pub root: [u8; 32],
}

/// An entry as the log stores it at `index`.
pub open spec fn stored_at(entry: LogEntry, index: nat) -> LogEntry {
    LogEntry { index: index as u64, ..entry }
}

impl TransparencyLog {
    /// The log is what its own API makes of its entries: they carry their
    /// positions, the leaves are their hashes, and the root is the tree's root.
    pub open spec fn wf(self) -> bool {
        &&& self.leaves.len() == self.entries.len()
        &&& forall|i: int|
            0 <= i < self.entries.len() ==> (#[trigger] self.entries[i]).index == i
                && self.leaves[i] == leaf_digest(self.entries[i])
        &&& self.root == merkle_root(self.leaves@)
    }

    /// Every entry that has a leaf hashes to it.
    pub open spec fn entries_match(self) -> bool {
        forall|i: int|
            0 <= i < self.entries.len() && i < self.leaves.len() ==> leaf_digest(
                #[trigger] self.entries[i],
            ) == self.leaves[i]
    }

    /// Create an empty transparency log.
    pub fn new() -> (log: Self)
        ensures
            log.wf(),
            log.entries@ == Seq::<LogEntry>::empty(),
            log.root == empty_hash(),
    {
        TransparencyLog { entries: Vec::new(), leaves: Vec::new(), root: empty_hash() }
    }

    /// Append a new entry and recompute the root hash.
    ///
    /// The entry's index is set automatically based on the current log length.
    pub fn append(&mut self, entry: LogEntry)
        ensures
            final(self).entries@ == old(self).entries@.push(
                stored_at(entry, old(self).entries@.len()),
            ),
            final(self).leaves@ == old(self).leaves@.push(
                leaf_digest(stored_at(entry, old(self).entries@.len())),
            ),
            final(self).root == merkle_root(final(self).leaves@),
            old(self).wf() ==> final(self).wf(),
    {
        let stored = LogEntry { index: self.entries.len() as u64, ..entry };
        let h = leaf_hash(&stored);
        self.entries.push(stored);
        self.leaves.push(h);
        self.root = root_from_levels(
            &build_tree_levels(self.leaves.as_slice()),
            self.leaves.as_slice(),
        );
    }

    /// The current number of entries in the log.
    pub fn len(&self) -> (n: usize)
        ensures
            n == self.entries.len(),
    {
        self.entries.len()
    }

    /// Whether the log is empty.
    pub fn is_empty(&self) -> (r: bool)
        ensures
            r == (self.entries.len() == 0),
    {
        self.entries.len() == 0
    }

    /// The current root hash summarising the entire log.
    pub fn root_hash(&self) -> (r: [u8; 32])
        ensures
            r == self.root,
    {
        self.root
    }

    /// Borrow an entry by index.
    pub fn get(&self, index: usize) -> (r: Option<&LogEntry>)
        ensures
            r is Some <==> index < self.entries.len(),
            r matches Some(entry) ==> *entry == self.entries[index as int],
    {
        if index < self.entries.len() {
            Some(&self.entries[index])
        } else {
            None
        }
    }

    /// All entries in the log.
    pub fn entries(&self) -> (r: &[LogEntry])
        ensures
            r@ == self.entries@,
    {
        self.entries.as_slice()
    }

    /// Generate an inclusion proof for the entry at `index`.
    pub fn inclusion_proof(&self, index: usize) -> (r: Option<InclusionProof>)
        ensures
            r is Some <==> index < self.leaves.len(),
            r matches Some(proof) ==> {
                &&& proof.leaf_index == index
                &&& proof.leaf_hash == self.leaves[index as int]
                &&& proof.path@ == audit_path(
                    self.leaves@,
                    index as nat,
                    tree_height(self.leaves@.len()),
                )
                &&& proof.root_hash == merkle_root(self.leaves@)
                &&& path_root(proof.leaf_hash, proof.path@) == proof.root_hash
            },
    {
        let tree = build_tree_levels(self.leaves.as_slice());
        proof {
            if index < self.leaves.len() {
                inclusion_proofs_verify(self.leaves@, index as nat);
            }
        }
        inclusion_proof_from_levels(&tree, self.leaves.as_slice(), index)
    }

    /// Generate a consistency proof showing that a log of size `old_size` is a
    /// prefix of the current log. Returns `None` if `old_size` is out of range.
    pub fn consistency_proof_for(&self, old_size: usize) -> (r: Option<ConsistencyProof>)
        requires
            self.entries.len() <= self.leaves.len(),
        ensures
            r is Some <==> 0 < old_size <= self.entries.len(),
            r matches Some(proof) ==> {
                &&& proof.old_size == old_size
                &&& proof.new_size == self.entries.len()
                &&& proof.old_root == merkle_root(self.leaves@.subrange(0, old_size as int))
                &&& proof.new_root == merkle_root(self.leaves@)
                &&& proof.proof_hashes@ == if old_size == self.entries.len() {
                    Seq::empty()
                } else {
                    prefix_subtrees(self.leaves@, old_size as nat)
                }
                &&& self.leaves.len() == self.entries.len() ==> consistency_shown(
                    proof,
                    self.leaves@,
                )
            },
    {
        if old_size == 0 || old_size > self.len() {
            return None;
        }
        let old_leaves = copy_prefix32(self.leaves.as_slice(), old_size);
        let r = consistency_proof(
            old_leaves.as_slice(),
            self.leaves.as_slice(),
            old_size,
            self.len(),
        );
        proof {
            if self.leaves.len() == self.entries.len() {
                consistency_proofs_verify(r->0, self.leaves@);
            }
        }
        r
    }

    /// Rebuild the root from scratch and verify it matches the cached value.
    ///
    /// A `false` return indicates that the underlying data has been modified
    /// outside the log's own API.
    pub fn verify_root(&self) -> (r: bool)
        ensures
            r == (merkle_root(self.leaves@) == self.root),
    {
        let root = root_from_levels(
            &build_tree_levels(self.leaves.as_slice()),
            self.leaves.as_slice(),
        );
        bytes32_eq(&root, &self.root)
    }

    /// Verify that every entry hashes to the stored leaf hash. Useful as a
    /// secondary integrity check beyond root verification.
    pub fn verify_entries(&self) -> (r: bool)
        ensures
            r == self.entries_match(),
    {
        let mut i: usize = 0;
        while i < self.entries.len() && i < self.leaves.len()
            invariant
                i <= self.entries.len(),
                i <= self.leaves.len(),
                forall|j: int|
                    0 <= j < i ==> leaf_digest(#[trigger] self.entries[j]) == self.leaves[j],
            decreases self.entries.len() - i,
        {
            let h = leaf_hash(&self.entries[i]);
            if !bytes32_eq(&h, &self.leaves[i]) {
                assert(leaf_digest(self.entries[i as int]) != self.leaves[i as int]);
                return false;
            }
            i += 1;
        }
        true
    }

    /// Full integrity check: recomputes the root and the leaf hashes and
    /// verifies both.
    pub fn verify_integrity(&self) -> (r: bool)
        ensures
            r == (merkle_root(self.leaves@) == self.root && self.entries_match()),
            self.wf() ==> r,
    {
        self.verify_root() && self.verify_entries()
    }

    /// Rebuild the log from a sequence of entries, recomputing all hashes.
    ///
    /// Used after loading entries from storage to verify they haven't been
    /// tampered with.
    pub fn from_entries(entries: Vec<LogEntry>) -> (log: Self)
        ensures
            log.wf(),
            log.entries@ == Seq::new(entries@.len(), |i: int| stored_at(entries@[i], i as nat)),
    {
        let mut log = Self::new();
        let ghost given = entries@;
        for entry in iter: entries
            invariant
                iter.seq() == given,
                log.wf(),
                log.entries@ == Seq::new(iter.index() as nat, |i: int| stored_at(given[i], i as nat)),
        {
            log.append(entry);
            assert(log.entries@ =~= Seq::new(
                (iter.index() + 1) as nat,
                |i: int| stored_at(given[i], i as nat),
            ));
        }
        log
    }
}

/// Whether two different inputs that were hashed at the same place of two logs, for an
/// entry or for a node, have the same hash.
pub open spec fn logs_collide(a: TransparencyLog, b: TransparencyLog) -> bool {
    ||| exists|i: int|
        0 <= i < a.entries.len() && inputs_collide(
            leaf_input(#[trigger] a.entries[i]),
            leaf_input(b.entries[i]),
        )
    ||| exists|k: nat, q: nat|
        k < tree_height(a.leaves@.len()) && #[trigger] nodes_collide(a.leaves@, b.leaves@, k, q)
}

/// Whether two logs hold entries that say the same, in the same order.
pub open spec fn same_entries(a: TransparencyLog, b: TransparencyLog) -> bool {
    &&& a.entries.len() == b.entries.len()
    &&& forall|i: int| 0 <= i < a.entries.len() ==> (#[trigger] a.entries[i]).same_as(b.entries[i])
}

/// Modifying any historical entry changes every later root: two logs of the same length
/// have the same root exactly where their entries say the same, unless two different
/// inputs that were hashed for them have the same hash.
pub proof fn root_binds_every_entry(a: TransparencyLog, b: TransparencyLog)
    requires
        a.wf(),
        b.wf(),
        a.entries.len() == b.entries.len(),
    ensures
        same_entries(a, b) ==> a.root == b.root,
        a.root == b.root ==> same_entries(a, b) || logs_collide(a, b),
{
    if same_entries(a, b) {
        assert forall|i: int| 0 <= i < a.leaves@.len() implies a.leaves@[i] == b.leaves@[i] by {
            hash_bytes_tell_entries_apart(a.entries[i], b.entries[i]);
            assert(a.leaves[i] == leaf_digest(a.entries[i]));
            assert(b.leaves[i] == leaf_digest(b.entries[i]));
        }
        assert(a.leaves@ =~= b.leaves@);
    }
    if a.root == b.root && !logs_collide(a, b) {
        root_binds_every_leaf(a.leaves@, b.leaves@);
        assert(a.leaves@ == b.leaves@);
        assert forall|i: int| 0 <= i < a.entries.len() implies (#[trigger] a.entries[i]).same_as(
            b.entries[i],
        ) by {
            let x = a.entries[i];
            let y = b.entries[i];
            assert(a.leaves@[i] == b.leaves@[i]);
            assert(leaf_digest(x) == leaf_digest(y));
            assert(leaf_input(x) == leaf_input(y));
            let n = encode_utf8(LEAF_DOMAIN@).len() as int;
            assert(leaf_input(x).skip(n) =~= x.hash_bytes());
            assert(leaf_input(y).skip(n) =~= y.hash_bytes());
            hash_bytes_tell_entries_apart(x, y);
        }
    }
}

impl Default for TransparencyLog {
    fn default() -> (log: Self)
        ensures
            log.wf(),
            log.entries@ == Seq::<LogEntry>::empty(),
    {
        Self::new()
    }
}

/// The tree over the leaves: no leaves give the empty hash, one leaf is its own root, and two
/// are the children of the root, the first on the left. What is missing on the right of an
/// odd number of leaves is the empty hash.
pub proof fn small_trees_are_built_from_the_left(a: [u8; 32], b: [u8; 32], c: [u8; 32])
    ensures
        merkle_root(Seq::empty()) == empty_hash(),
        merkle_root(seq![a]) == a,
        merkle_root(seq![a, b]) == node_digest(a, b),
        merkle_root(seq![a, b, c]) == node_digest(node_digest(a, b), node_digest(c, empty_hash())),
        forall|i: int| 0 <= i < 32 ==> #[trigger] empty_hash()@[i] == 0,
{
    reveal_with_fuel(tree_height, 4);
    reveal_with_fuel(subtree, 4);
}

proof fn lemma_left_part(a: Seq<[u8; 32]>, b: Seq<[u8; 32]>, level: nat, pos: nat)
    requires
        (pos + 1) * pow2(level) <= a.len(),
    ensures
        subtree(a + b, level, pos) == subtree(a, level, pos),
    decreases level,
{
    if level > 0 {
        let below = (level - 1) as nat;
        lemma_pow2_unfold(level);
        lemma_pow2_pos(below);
        assert((2 * pos + 1) * pow2(below) <= a.len() && (2 * pos + 1 + 1) * pow2(below) <= a.len())
            by (nonlinear_arith)
            requires
                (pos + 1) * pow2(level) <= a.len(),
                pow2(level) == 2 * pow2(below),
                pow2(below) > 0,
        ;
        lemma_left_part(a, b, below, 2 * pos);
        lemma_left_part(a, b, below, 2 * pos + 1);
    } else {
        vstd::arithmetic::power2::lemma2_to64();
    }
}

proof fn lemma_right_part(a: Seq<[u8; 32]>, b: Seq<[u8; 32]>, level: nat, shift: nat, pos: nat)
    requires
        a.len() == shift * pow2(level),
    ensures
        subtree(a + b, level, shift + pos) == subtree(b, level, pos),
    decreases level,
{
    if level > 0 {
        let below = (level - 1) as nat;
        lemma_pow2_unfold(level);
        assert(a.len() == (2 * shift) * pow2(below)) by (nonlinear_arith)
            requires
                a.len() == shift * pow2(level),
                pow2(level) == 2 * pow2(below),
        ;
        lemma_right_part(a, b, below, 2 * shift, 2 * pos);
        lemma_right_part(a, b, below, 2 * shift, 2 * pos + 1);
    } else {
        vstd::arithmetic::power2::lemma2_to64();
    }
}

/// A tree is made of two: over a full left half and some more leaves, the root is the node over
/// the root of the left half and the root of a tree of the same height over the rest.
pub proof fn trees_are_made_of_two(
    a: Seq<[u8; 32]>,
    b: Seq<[u8; 32]>,
    height: nat,
)
    requires
        a.len() == pow2(height),
        0 < b.len() <= pow2(height),
    ensures
        merkle_root(a) == subtree(a, height, 0),
        merkle_root(a + b) == node_digest(merkle_root(a), subtree(b, height, 0)),
        b.len() == pow2(height) ==> merkle_root(a + b) == node_digest(
            merkle_root(a),
            merkle_root(b),
        ),
{
    lemma_pow2_unfold(height + 1);
    lemma_pow2_pos(height);
    if height > 0 {
        lemma_pow2_unfold(height);
        lemma_pow2_pos((height - 1) as nat);
    }
    lemma_tree_height_is(a.len(), height);
    lemma_tree_height_is((a + b).len(), height + 1);
    if b.len() == pow2(height) {
        lemma_tree_height_is(b.len(), height);
    }
    assert((0 + 1) * pow2(height) == pow2(height)) by (nonlinear_arith);
    assert(1 * pow2(height) == pow2(height)) by (nonlinear_arith);
    lemma_left_part(a, b, height, 0);
    lemma_right_part(a, b, height, 1, 0);
}

proof fn lemma_full_peak(leaves: Seq<[u8; 32]>, level: nat, n: nat, height: nat)
    requires
        pow2(height) <= n < pow2(height + 1),
    ensures
        peaks(leaves, level, n).len() > 0,
        peaks(leaves, level, n)[0] == subtree(leaves, level + height, 0),
        n == pow2(height) ==> peaks(leaves, level, n).len() == 1,
    decreases height,
{
    vstd::arithmetic::power2::lemma2_to64();
    lemma_pow2_unfold(height + 1);
    if height == 0 {
        assert(n == 1);
        reveal_with_fuel(peaks, 2);
    } else {
        lemma_pow2_unfold(height);
        lemma_full_peak(leaves, level + 1, n / 2, (height - 1) as nat);
    }
}

/// The decomposition of a log into full subtrees starts with the largest one, and is that one
/// alone where the log is full.
pub proof fn decompositions_start_with_the_largest(
    leaves: Seq<[u8; 32]>,
    size: nat,
    height: nat,
)
    requires
        pow2(height) <= size < pow2(height + 1),
    ensures
        prefix_subtrees(leaves, size).len() > 0,
        prefix_subtrees(leaves, size)[0] == subtree(leaves, height, 0),
        size == pow2(height) ==> prefix_subtrees(leaves, size).len() == 1,
        prefix_subtrees(leaves, 0).len() == 0,
{
    lemma_full_peak(leaves, 0, size, height);
}

/// A consistency proof is refused where its sizes are out of order or its new root is not that
/// of the leaves; where the sizes are the same, unless the roots are; and where they differ,
/// unless its old root is that of the leaves up to the old size.
pub proof fn inconsistent_proofs_are_refused(proof: ConsistencyProof, leaves: Seq<[u8; 32]>)
    ensures
        proof.old_size == 0 || proof.old_size > proof.new_size ==> !consistency_shown(proof, leaves),
        proof.new_root != merkle_root(leaves) ==> !consistency_shown(proof, leaves),
        proof.old_size == proof.new_size && proof.old_root != proof.new_root ==> !consistency_shown(
            proof,
            leaves,
        ),
        proof.old_size < proof.new_size && (proof.old_size > leaves.len() || proof.old_root
            != merkle_root(leaves.subrange(0, proof.old_size as int))) ==> !consistency_shown(
            proof,
            leaves,
        ),
        proof.old_size < proof.new_size && proof.proof_hashes@ != prefix_subtrees(
            leaves,
            proof.old_size as nat,
        ) ==> !consistency_shown(proof, leaves),
{
}

/// An entry is stored as it was given, but for its position.
pub proof fn entries_are_stored_as_given(entry: LogEntry, index: nat)
    requires
        index <= u64::MAX,
    ensures
        stored_at(entry, index).index == index,
        stored_at(entry, index).message_id == entry.message_id,
        stored_at(entry, index).from_status == entry.from_status,
        stored_at(entry, index).to_status == entry.to_status,
        stored_at(entry, index).timestamp == entry.timestamp,
{
}

/// Tampering shows: where an entry of a log is replaced by one that says something else and
/// its leaf is left as it was, the entries no longer match, unless the two have the same hash
/// over different bytes.
pub proof fn tampering_shows(log: TransparencyLog, tampered: TransparencyLog, i: int)
    requires
        log.wf(),
        tampered.leaves@ == log.leaves@,
        0 <= i < log.entries.len(),
        i < tampered.entries.len(),
        !tampered.entries[i].same_as(log.entries[i]),
    ensures
        !tampered.entries_match() || inputs_collide(
            leaf_input(tampered.entries[i]),
            leaf_input(log.entries[i]),
        ),
        log.entries_match(),
{
    let x = tampered.entries[i];
    let y = log.entries[i];
    assert(log.leaves[i] == leaf_digest(log.entries[i]));
    assert(tampered.leaves@[i] == log.leaves@[i]);
    if tampered.entries_match() {
        assert(leaf_digest(x) == tampered.leaves[i]);
        if leaf_input(x) == leaf_input(y) {
            let n = encode_utf8(LEAF_DOMAIN@).len() as int;
            assert(leaf_input(x).skip(n) =~= x.hash_bytes());
            assert(leaf_input(y).skip(n) =~= y.hash_bytes());
            hash_bytes_tell_entries_apart(x, y);
        }
    }
}

/// A node is hashed over its domain, its left child and its right child, in this order.
pub proof fn nodes_hold_their_children_in_order(left: [u8; 32], right: [u8; 32])
    ensures
        node_input(left, right).len() == encode_utf8(NODE_DOMAIN@).len() + 64,
        node_input(left, right).skip(encode_utf8(NODE_DOMAIN@).len() as int) == left@ + right@,
        node_digest(left, right) == sha256_digest(node_input(left, right)),
{
    assert(node_input(left, right).skip(encode_utf8(NODE_DOMAIN@).len() as int) =~= left@ + right@);
}

} // verus!
