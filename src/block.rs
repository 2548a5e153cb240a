use vstd::prelude::*;

verus! {

/// Compact tag of a block kind.
pub type BlockId = u8;

/// The kinds of block.
#[derive(Clone, Copy, Debug, PartialEq, Eq, Hash, Structural)]
pub enum BlockType {
    Grass,
    Water,
    Dirt,
    Stone,
    Sand,
    Air,
    Leaf,
    Unknown,
}

/// The id that stands for each kind of block.
pub open spec fn id_of(b: BlockType) -> u8 {
    match b {
        BlockType::Grass => 0,
        BlockType::Water => 1,
        BlockType::Dirt => 2,
        BlockType::Stone => 3,
        BlockType::Sand => 4,
        BlockType::Air => 5,
        BlockType::Leaf => 6,
        BlockType::Unknown => 255,
    }
}

/// The kind that an id stands for; ids without a kind are `Unknown`.
pub open spec fn type_of(id: u8) -> BlockType {
    if id == 0 {
        BlockType::Grass
    } else if id == 1 {
        BlockType::Water
    } else if id == 2 {
        BlockType::Dirt
    } else if id == 3 {
        BlockType::Stone
    } else if id == 4 {
        BlockType::Sand
    } else if id == 5 {
        BlockType::Air
    } else if id == 6 {
        BlockType::Leaf
    } else {
        BlockType::Unknown
    }
}

/// Blocks whose colour is fully opaque: grass, dirt, stone and sand.
pub open spec fn opaque(id: u8) -> bool {
    id == 0 || id == 2 || id == 3 || id == 4
}

/// The kind of block that an id stands for.
pub fn get_blocktype(block_id: BlockId) -> (r: BlockType)
    ensures
        r == type_of(block_id),
{
    match block_id {
        0 => BlockType::Grass,
        1 => BlockType::Water,
        2 => BlockType::Dirt,
        3 => BlockType::Stone,
        4 => BlockType::Sand,
        5 => BlockType::Air,
        6 => BlockType::Leaf,
        _ => BlockType::Unknown,
    }
}

/// The id of a kind of block.
pub fn get_blockid(block: BlockType) -> (r: BlockId)
    ensures
        r == id_of(block),
{
    match block {
        BlockType::Grass => 0,
        BlockType::Water => 1,
        BlockType::Dirt => 2,
        BlockType::Stone => 3,
        BlockType::Sand => 4,
        BlockType::Air => 5,
        BlockType::Leaf => 6,
        BlockType::Unknown => 255,
    }
}

/// Whether a block is fully opaque.
pub fn is_opaque(block_id: BlockId) -> (r: bool)
    ensures
        r == opaque(block_id),
{
    block_id == 0 || block_id == 2 || block_id == 3 || block_id == 4
}

/// Whether the face of `source` that touches `neighbor` is visible: the two
/// differ and the neighbor is not opaque.
pub fn should_render_against(source_block_id: BlockId, neighbor_block_id: BlockId) -> (r: bool)
    ensures
        r == (source_block_id != neighbor_block_id && !opaque(neighbor_block_id)),
{
    if source_block_id == neighbor_block_id {
        return false;
    }
    if is_opaque(neighbor_block_id) {
        return false;
    }
    true
}

/// Every kind of block, `Unknown` included, survives the trip to an id and
/// back.
pub proof fn lemma_blockid_round_trip(b: BlockType)
    ensures
        type_of(id_of(b)) == b,
{
}

} // verus!
