//! Hash functions that are handed to the garbling schemes.
//!
//! The schemes hash labels with a fixed-key cipher. Every function that does so takes the hash as
//! a closure, and its contract speaks of the mathematical function that the closure computes.

use vstd::prelude::*;

use crate::block::Block;

verus! {

/// The function that a tweakable hash computes: from a tweak and a block to a block.
pub type TweakFn = spec_fn(Block, Block) -> Block;

/// The closure accepts every tweak and block and computes a function of them.
pub open spec fn is_tweak_hash<H: Fn(Block, Block) -> Block>(hash: H) -> bool {
    &&& forall|t: Block, x: Block| #[trigger] hash.requires((t, x))
    &&& forall|t: Block, x: Block, r: Block, s: Block|
        #[trigger] hash.ensures((t, x), r) && #[trigger] hash.ensures((t, x), s) ==> r == s
}

/// The function that the closure computes.
pub open spec fn tweak_fn<H: Fn(Block, Block) -> Block>(hash: H) -> TweakFn {
    |t: Block, x: Block| choose|r: Block| hash.ensures((t, x), r)
}

/// Hashes a block under a tweak.
pub fn tweak_hash<H: Fn(Block, Block) -> Block>(hash: &H, tweak: Block, x: Block) -> (r: Block)
    requires
        is_tweak_hash(*hash),
    ensures
        r == tweak_fn(*hash)(tweak, x),
{
    hash(tweak, x)
}

/// The function that a hash without tweak computes.
pub type BlockFn = spec_fn(Block) -> Block;

/// The closure accepts every block and computes a function of it.
pub open spec fn is_block_hash<H: Fn(Block) -> Block>(hash: H) -> bool {
    &&& forall|x: Block| #[trigger] hash.requires((x,))
    &&& forall|x: Block, r: Block, s: Block|
        #[trigger] hash.ensures((x,), r) && #[trigger] hash.ensures((x,), s) ==> r == s
}

/// The function that the closure computes.
pub open spec fn block_fn<H: Fn(Block) -> Block>(hash: H) -> BlockFn {
    |x: Block| choose|r: Block| hash.ensures((x,), r)
}

/// Hashes a block.
pub fn block_hash<H: Fn(Block) -> Block>(hash: &H, x: Block) -> (r: Block)
    requires
        is_block_hash(*hash),
    ensures
        r == block_fn(*hash)(x),
{
    hash(x)
}

/// The closure makes a tweakable hash of every key, and one key always gives the same function.
pub open spec fn makes_ciphers<H: Fn(Block, Block) -> Block, F: Fn([u8; 16]) -> H>(
    new_cipher: F,
) -> bool {
    &&& forall|key: [u8; 16]| #[trigger] new_cipher.requires((key,))
    &&& forall|key: [u8; 16], c: H|
        #[trigger] new_cipher.ensures((key,), c) ==> is_tweak_hash(c)
    &&& forall|key: [u8; 16], c: H, d: H|
        #[trigger] new_cipher.ensures((key,), c) && #[trigger] new_cipher.ensures((key,), d)
            ==> tweak_fn(c) == tweak_fn(d)
}

/// The function that the ciphers of a key compute.
pub open spec fn cipher_fn<H: Fn(Block, Block) -> Block, F: Fn([u8; 16]) -> H>(
    new_cipher: F,
    key: [u8; 16],
) -> TweakFn {
    tweak_fn(choose|c: H| new_cipher.ensures((key,), c))
}

/// The function that a tweakable hash computes gives, for a tweak and a block, what the closure returns
/// for that tweak and that block.
pub proof fn lemma_tweak_fn<H: Fn(Block, Block) -> Block>(hash: H, t: Block, x: Block, r: Block)
    requires
        is_tweak_hash(hash),
        hash.ensures((t, x), r),
    ensures
        tweak_fn(hash)(t, x) == r,
{
}

/// The function that a hash computes gives for a block what the closure returns for that block.
pub proof fn lemma_block_fn<H: Fn(Block) -> Block>(hash: H, x: Block, r: Block)
    requires
        is_block_hash(hash),
        hash.ensures((x,), r),
    ensures
        block_fn(hash)(x) == r,
{
}

/// The function of a key is that of every cipher that is made of the key.
pub proof fn lemma_cipher_fn<H: Fn(Block, Block) -> Block, F: Fn([u8; 16]) -> H>(
    new_cipher: F,
    key: [u8; 16],
    c: H,
)
    requires
        makes_ciphers::<H, F>(new_cipher),
        new_cipher.ensures((key,), c),
    ensures
        cipher_fn::<H, F>(new_cipher, key) == tweak_fn(c),
{
}

} // verus!
