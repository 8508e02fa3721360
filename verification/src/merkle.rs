//! The Merkle tree over a slot's messages, as the accumulator library builds
//! it: its root and the inclusion path of each message.

use pythnet_sdk::accumulators::merkle::MerkleTree;
use pythnet_sdk::accumulators::Accumulator;
use pythnet_sdk::hashers::keccak256_160::Keccak160;
use crate::bytes::byte_strings;
use vstd::prelude::*;

verus! {

/// A node of the tree: the first twenty bytes of a Keccak-256 digest.
pub type NodeHash = [u8; 20];

/// The byte strings that a list of hashes stands for.
pub open spec fn hash_bytes(hashes: Seq<NodeHash>) -> Seq<Seq<u8>> {
    hashes.map_values(|hash: NodeHash| hash@)
}

/// The sibling hashes that lead from one message up to the root.
#[derive(Debug, PartialEq, Eq)]
pub struct MerklePath {
    pub hashes: Vec<NodeHash>,
}

impl View for MerklePath {
    type V = Seq<Seq<u8>>;

    open spec fn view(&self) -> Seq<Seq<u8>> {
        hash_bytes(self.hashes@)
    }
}

impl MerklePath {
    /// A path of the given sibling hashes, the lowest first.
    pub fn new(hashes: Vec<NodeHash>) -> (path: Self)
        ensures
            path.hashes == hashes,
    {
        MerklePath { hashes }
    }

    /// A copy of this path.
    pub fn duplicate(&self) -> (copy: Self)
        ensures
            copy@ == self@,
            copy.hashes@ == self.hashes@,
    {
        let mut hashes: Vec<NodeHash> = Vec::new();
        let mut i: usize = 0;
        while i < self.hashes.len()
            invariant
                i <= self.hashes@.len(),
                hashes@ == self.hashes@.take(i as int),
            decreases self.hashes@.len() - i,
        {
            hashes.push(self.hashes[i]);
            assert(self.hashes@.take(i + 1) =~= self.hashes@.take(i as int).push(
                self.hashes@[i as int],
            ));
            i += 1;
        }
        assert(self.hashes@.take(self.hashes@.len() as int) =~= self.hashes@);
        MerklePath { hashes }
    }
}

/// The path inside an optional result, as byte strings.
pub open spec fn path_bytes(path: Option<MerklePath>) -> Option<Seq<Seq<u8>>> {
    match path {
        Some(path) => Some(path@),
        None => None,
    }
}

/// A Merkle tree built by the accumulator library over a list of messages.
#[verifier::external_body]
pub struct MerkleAccumulator {
    tree: MerkleTree<Keccak160>,
}

/// The messages a tree was built over, in order.
pub uninterp spec fn accumulated(accumulator: MerkleAccumulator) -> Seq<Seq<u8>>;

/// The root hash of the tree that the accumulator library builds over `messages`.
pub uninterp spec fn merkle_root(messages: Seq<Seq<u8>>) -> Seq<u8>;

/// The inclusion path that the tree over `messages` gives for `item`, if it
/// gives one.
pub uninterp spec fn merkle_path(messages: Seq<Seq<u8>>, item: Seq<u8>) -> Option<Seq<Seq<u8>>>;

/// `MerkleTree::<Keccak160>::from_set` of pythnet-sdk. It builds no tree over
/// an empty list and a tree over any other; the tree is taken to stand for the
/// messages handed in.
#[verifier::external_body]
pub(crate) fn merkle_from_set(messages: &Vec<Vec<u8>>) -> (accumulator: Option<MerkleAccumulator>)
    ensures
        accumulator is Some <==> messages@.len() > 0,
        accumulator matches Some(built) ==> accumulated(built) == byte_strings(messages@),
{
    MerkleTree::<Keccak160>::from_set(messages.iter().map(|message| message.as_slice())).map(
        |tree| MerkleAccumulator { tree },
    )
}

/// `MerkleRoot::as_bytes` on the root of a tree of pythnet-sdk: the root hash,
/// named by `merkle_root` of the messages the tree was built over.
#[verifier::external_body]
pub(crate) fn merkle_root_of(accumulator: &MerkleAccumulator) -> (root: Vec<u8>)
    ensures
        root@ == merkle_root(accumulated(*accumulator)),
{
    accumulator.tree.root.as_bytes().to_vec()
}

/// `MerkleTree::prove` of pythnet-sdk: the path named by `merkle_path`. The
/// tree keeps the leaf hash of every message it was built over among its
/// nodes, and `prove` searches all nodes for the leaf hash of the item, so it
/// finds a path for each of those messages.
#[verifier::external_body]
pub(crate) fn merkle_prove(accumulator: &MerkleAccumulator, item: &Vec<u8>) -> (path: Option<
    MerklePath,
>)
    ensures
        path_bytes(path) == merkle_path(accumulated(*accumulator), item@),
        accumulated(*accumulator).contains(item@) ==> path is Some,
{
    accumulator.tree.prove(item.as_slice()).map(|path| MerklePath { hashes: path.to_vec() })
}

} // verus!
