use vstd::prelude::*;
use crate::positions::{chunk_in_meta, lemma_chunk_in_meta, valid_meta, ChunkPos, MetaChunkPos};
use crate::world::{Chunk, MetaChunk};

verus! {

/// Height of the water surface, in blocks.
pub const WATER_LEVEL: i64 = 32;

/// Height of the ground surface at a block column.
pub open spec fn terrain_height(seed: u32, gx: int, gz: int) -> int {
    24 + (seed as int + 3 * gx + 5 * gz) % 16
}

/// The block that the terrain holds at a global block position.
pub open spec fn terrain_block(seed: u32, gx: int, gy: int, gz: int) -> u8 {
    let h = terrain_height(seed, gx, gz);
    if gy < h - 3 {
        3
    } else if gy < h {
        2
    } else if gy == h {
        if h <= WATER_LEVEL {
            4
        } else {
            0
        }
    } else if gy <= WATER_LEVEL {
        1
    } else {
        5
    }
}

/// The block at index `j` of chunk `c`.
pub open spec fn block_in_chunk(seed: u32, c: ChunkPos, j: int) -> u8 {
    terrain_block(seed, 16 * c.x + j / 256, 16 * c.y + (j / 16) % 16, 16 * c.z + j % 16)
}

/// `m` is what the terrain holds for `seed` at `pos`.
pub open spec fn is_generation_of(seed: u32, pos: MetaChunkPos, m: MetaChunk) -> bool {
    &&& m.wf()
    &&& m.pos == pos
    &&& forall|i: int, j: int|
        0 <= i < 64 && 0 <= j < 4096 ==> #[trigger] m.chunks@[i].blocks@[j] == block_in_chunk(
            seed,
            chunk_in_meta(pos, i),
            j,
        )
}

fn terrain_height_at(seed: u32, gx: i64, gz: i64) -> (r: i64)
    requires
        -0x8_0000_0000 <= gx <= 0x8_0000_0000,
        -0x8_0000_0000 <= gz <= 0x8_0000_0000,
    ensures
        r == terrain_height(seed, gx as int, gz as int),
{
    let t: i64 = seed as i64 + 3 * gx + 5 * gz;
    proof {
        vstd::arithmetic::div_mod::lemma_fundamental_div_mod(t as int, 16);
        vstd::arithmetic::div_mod::lemma_fundamental_div_mod_converse(
            t + 0x100_0000_0000,
            16,
            (t as int) / 16 + 0x10_0000_0000,
            (t as int) % 16,
        );
    }
    let shifted: u64 = (t + 0x100_0000_0000i64) as u64;
    24 + (shifted % 16) as i64
}

fn terrain_block_at(seed: u32, gx: i64, gy: i64, gz: i64) -> (r: u8)
    requires
        -0x8_0000_0000 <= gx <= 0x8_0000_0000,
        -0x8_0000_0000 <= gz <= 0x8_0000_0000,
    ensures
        r == terrain_block(seed, gx as int, gy as int, gz as int),
{
    let h = terrain_height_at(seed, gx, gz);
    if gy < h - 3 {
        3
    } else if gy < h {
        2
    } else if gy == h {
        if h <= WATER_LEVEL {
            4
        } else {
            0
        }
    } else if gy <= WATER_LEVEL {
        1
    } else {
        5
    }
}

/// Fills the block grid of one chunk.
fn generate_chunk(seed: u32, c: ChunkPos) -> (r: Chunk)
    requires
        0 <= c.y < 4,
    ensures
        r.pos == c,
        r.blocks@.len() == 4096,
        forall|j: int| 0 <= j < 4096 ==> #[trigger] r.blocks@[j] == block_in_chunk(seed, c, j),
{
    let mut blocks: Vec<u8> = Vec::with_capacity(4096);
    let mut j: usize = 0;
    while j < 4096
        invariant
            0 <= c.y < 4,
            j <= 4096,
            blocks@.len() == j,
            forall|k: int| 0 <= k < j ==> #[trigger] blocks@[k] == block_in_chunk(seed, c, k),
        decreases 4096 - j,
    {
        let gx: i64 = 16 * (c.x as i64) + (j / 256) as i64;
        let gy: i64 = 16 * (c.y as i64) + ((j / 16) % 16) as i64;
        let gz: i64 = 16 * (c.z as i64) + (j % 16) as i64;
        blocks.push(terrain_block_at(seed, gx, gy, gz));
        j = j + 1;
    }
    Chunk { pos: c, blocks }
}

/// Generates the meta-chunk at `pos` for a world seed. The content depends on
/// `seed` and `pos` alone.
pub fn generate_meta_chunk(seed: u32, pos: MetaChunkPos) -> (r: MetaChunk)
    requires
        valid_meta(pos),
    ensures
        is_generation_of(seed, pos, r),
{
    let mut chunks: Vec<Chunk> = Vec::with_capacity(64);
    let mut i: usize = 0;
    while i < 64
        invariant
            valid_meta(pos),
            i <= 64,
            chunks@.len() == i,
            forall|k: int|
                #![trigger chunks@[k]]
                0 <= k < i ==> chunks@[k].pos == chunk_in_meta(pos, k)
                    && chunks@[k].blocks@.len() == 4096,
            forall|k: int, j: int|
                0 <= k < i && 0 <= j < 4096 ==> #[trigger] chunks@[k].blocks@[j]
                    == block_in_chunk(seed, chunk_in_meta(pos, k), j),
        decreases 64 - i,
    {
        let c = pos.chunk_at(i);
        proof {
            lemma_chunk_in_meta(pos, i as int);
        }
        let chunk = generate_chunk(seed, c);
        chunks.push(chunk);
        i = i + 1;
    }
    MetaChunk { pos, chunks }
}

/// Generation is deterministic: two meta-chunks generated from the same seed
/// and position hold the same blocks.
pub proof fn lemma_generation_deterministic(seed: u32, pos: MetaChunkPos, a: MetaChunk, b: MetaChunk)
    requires
        is_generation_of(seed, pos, a),
        is_generation_of(seed, pos, b),
    ensures
        a.pos == b.pos,
        a.content() == b.content(),
{
    assert forall|i: int| 0 <= i < 64 implies a.content()[i] == b.content()[i] by {
        assert(a.content()[i] =~= b.content()[i]);
    }
    assert(a.content() =~= b.content());
}

} // verus!
