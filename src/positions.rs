use vstd::prelude::*;

verus! {

/// Edge length of a chunk, in blocks.
pub const CHUNKSIZE: usize = 16;

/// Edge length of a meta-chunk, in chunks (also its number of vertical layers).
pub const METACHUNKSIZE: usize = 4;

/// Integer coordinates of a chunk.
#[derive(Clone, Copy, Debug, PartialEq, Eq, Hash, Structural)]
pub struct ChunkPos {
    pub x: i32,
    pub y: i32,
    pub z: i32,
}

/// Integer coordinates of a meta-chunk: a column of chunks.
#[derive(Clone, Copy, Debug, PartialEq, Eq, Hash, Structural)]
pub struct MetaChunkPos {
    pub x: i32,
    pub z: i32,
}

/// Floor division of a chunk coordinate by the meta-chunk size.
pub open spec fn meta_coord(c: int) -> int {
    c / (METACHUNKSIZE as int)
}

/// The meta-chunk that holds a chunk.
pub open spec fn meta_of(p: ChunkPos) -> MetaChunkPos {
    MetaChunkPos { x: meta_coord(p.x as int) as i32, z: meta_coord(p.z as int) as i32 }
}

/// A meta-chunk all of whose chunks have coordinates that fit in `i32`.
pub open spec fn valid_meta(m: MetaChunkPos) -> bool {
    -0x2000_0000 <= m.x < 0x2000_0000 && -0x2000_0000 <= m.z < 0x2000_0000
}

/// The chunk stored at index `i` of meta-chunk `m`.
pub open spec fn chunk_in_meta(m: MetaChunkPos, i: int) -> ChunkPos {
    ChunkPos {
        x: (4 * m.x + i / 16) as i32,
        y: ((i / 4) % 4) as i32,
        z: (4 * m.z + i % 4) as i32,
    }
}

/// Index of a chunk inside its meta-chunk.
pub open spec fn local_index(p: ChunkPos) -> int {
    16 * (p.x - 4 * meta_coord(p.x as int)) + 4 * p.y + (p.z - 4 * meta_coord(p.z as int))
}

/// Squared Euclidean distance between two chunks.
pub open spec fn chunk_dist2(a: ChunkPos, b: ChunkPos) -> int {
    (a.x - b.x) * (a.x - b.x) + (a.y - b.y) * (a.y - b.y) + (a.z - b.z) * (a.z - b.z)
}

/// Squared Euclidean distance between two meta-chunks.
pub open spec fn meta_dist2(a: MetaChunkPos, b: MetaChunkPos) -> int {
    (a.x - b.x) * (a.x - b.x) + (a.z - b.z) * (a.z - b.z)
}

/// Squared horizontal distance, in blocks, from the centre of chunk `c` to the
/// centre of meta-chunk `m`.
pub open spec fn centre_dist2(c: ChunkPos, m: MetaChunkPos) -> int {
    ((16 * c.x + 8) - (64 * m.x + 32)) * ((16 * c.x + 8) - (64 * m.x + 32)) + ((16 * c.z + 8) - (64
        * m.z + 32)) * ((16 * c.z + 8) - (64 * m.z + 32))
}

/// Whether `m` lies in the square of half-width `r` around `c`.
pub open spec fn within_square(c: MetaChunkPos, m: MetaChunkPos, r: int) -> bool {
    c.x - r <= m.x <= c.x + r && c.z - r <= m.z <= c.z + r
}

proof fn lemma_floor_shift(c: int)
    ensures
        (c + 0x2_0000_0000) / 4 == c / 4 + 0x8000_0000,
{
    vstd::arithmetic::div_mod::lemma_fundamental_div_mod(c, 4);
    vstd::arithmetic::div_mod::lemma_fundamental_div_mod_converse(
        c + 0x2_0000_0000,
        4,
        c / 4 + 0x8000_0000,
        c % 4,
    );
}

/// Floor division of a chunk coordinate by the meta-chunk size.
pub fn meta_coord_of(c: i32) -> (r: i32)
    ensures
        r == meta_coord(c as int),
        -0x2000_0000 <= r < 0x2000_0000,
{
    proof {
        lemma_floor_shift(c as int);
    }
    let shifted: u64 = (c as i64 + 0x2_0000_0000i64) as u64;
    let q: u64 = shifted / 4;
    (q as i64 - 0x8000_0000i64) as i32
}

/// Proves how a chunk sits inside its meta-chunk.
pub proof fn lemma_local_index(p: ChunkPos)
    requires
        0 <= p.y < 4,
    ensures
        0 <= local_index(p) < 64,
        chunk_in_meta(meta_of(p), local_index(p)) == p,
        valid_meta(meta_of(p)),
{
    let mx = meta_coord(p.x as int);
    let mz = meta_coord(p.z as int);
    let lx = p.x - 4 * mx;
    let lz = p.z - 4 * mz;
    assert(0 <= lx < 4);
    assert(0 <= lz < 4);
    let i = 16 * lx + 4 * p.y + lz;
    assert(i / 16 == lx) by (nonlinear_arith)
        requires i == 16 * lx + 4 * p.y + lz, 0 <= lx < 4, 0 <= p.y < 4, 0 <= lz < 4;
    assert((i / 4) % 4 == p.y) by (nonlinear_arith)
        requires i == 16 * lx + 4 * p.y + lz, 0 <= lx < 4, 0 <= p.y < 4, 0 <= lz < 4;
    assert(i % 4 == lz) by (nonlinear_arith)
        requires i == 16 * lx + 4 * p.y + lz, 0 <= lx < 4, 0 <= p.y < 4, 0 <= lz < 4;
}

/// Proves that the chunks of a meta-chunk belong to it.
pub proof fn lemma_chunk_in_meta(m: MetaChunkPos, i: int)
    requires
        valid_meta(m),
        0 <= i < 64,
    ensures
        meta_of(chunk_in_meta(m, i)) == m,
        local_index(chunk_in_meta(m, i)) == i,
        0 <= chunk_in_meta(m, i).y < 4,
{
    let lx = i / 16;
    let ly = (i / 4) % 4;
    let lz = i % 4;
    assert(16 * lx + 4 * ly + lz == i && 0 <= lx < 4 && 0 <= ly < 4 && 0 <= lz < 4)
        by (nonlinear_arith)
        requires lx == i / 16, ly == (i / 4) % 4, lz == i % 4, 0 <= i < 64;
    vstd::arithmetic::div_mod::lemma_fundamental_div_mod_converse(4 * m.x + lx, 4, m.x as int, lx);
    vstd::arithmetic::div_mod::lemma_fundamental_div_mod_converse(4 * m.z + lz, 4, m.z as int, lz);
    assert((4 * m.x + lx) / 4 == m.x);
    assert((4 * m.z + lz) / 4 == m.z);
}

impl ChunkPos {
    /// The meta-chunk that holds this chunk.
    pub fn get_meta_chunk_pos(&self) -> (r: MetaChunkPos)
        ensures
            r == meta_of(*self),
            valid_meta(r),
    {
        MetaChunkPos { x: meta_coord_of(self.x), z: meta_coord_of(self.z) }
    }

    /// Squared distance to another chunk.
    pub fn get_distance2(&self, other: &ChunkPos) -> (r: i128)
        ensures
            r == chunk_dist2(*self, *other),
            r >= 0,
    {
        let dx: i128 = self.x as i128 - other.x as i128;
        let dy: i128 = self.y as i128 - other.y as i128;
        let dz: i128 = self.z as i128 - other.z as i128;
        assert(0 <= dx * dx <= 0x1_0000_0000_0000_0000) by (nonlinear_arith)
            requires -0x1_0000_0000 <= dx <= 0x1_0000_0000;
        assert(0 <= dy * dy <= 0x1_0000_0000_0000_0000) by (nonlinear_arith)
            requires -0x1_0000_0000 <= dy <= 0x1_0000_0000;
        assert(0 <= dz * dz <= 0x1_0000_0000_0000_0000) by (nonlinear_arith)
            requires -0x1_0000_0000 <= dz <= 0x1_0000_0000;
        dx * dx + dy * dy + dz * dz
    }

    /// The chunk at offset `(dx, dy, dz)` from this one.
    pub fn get_diff(&self, dx: i32, dy: i32, dz: i32) -> (r: ChunkPos)
        requires
            i32::MIN <= self.x + dx <= i32::MAX,
            i32::MIN <= self.y + dy <= i32::MAX,
            i32::MIN <= self.z + dz <= i32::MAX,
        ensures
            r == (ChunkPos { x: (self.x + dx) as i32, y: (self.y + dy) as i32, z: (self.z + dz) as i32 }),
    {
        ChunkPos { x: self.x + dx, y: self.y + dy, z: self.z + dz }
    }
}

impl MetaChunkPos {
    /// Squared distance to another meta-chunk.
    pub fn get_distance2(&self, other: &MetaChunkPos) -> (r: i128)
        ensures
            r == meta_dist2(*self, *other),
            r >= 0,
    {
        let dx: i128 = self.x as i128 - other.x as i128;
        let dz: i128 = self.z as i128 - other.z as i128;
        assert(0 <= dx * dx <= 0x1_0000_0000_0000_0000) by (nonlinear_arith)
            requires -0x1_0000_0000 <= dx <= 0x1_0000_0000;
        assert(0 <= dz * dz <= 0x1_0000_0000_0000_0000) by (nonlinear_arith)
            requires -0x1_0000_0000 <= dz <= 0x1_0000_0000;
        dx * dx + dz * dz
    }

    /// Squared horizontal distance, in blocks, from the centre of chunk `c` to
    /// the centre of this meta-chunk.
    pub fn get_distance2_to_chunk(&self, c: &ChunkPos) -> (r: i128)
        ensures
            r == centre_dist2(*c, *self),
            r >= 0,
    {
        let dx: i128 = (16 * (c.x as i128) + 8) - (64 * (self.x as i128) + 32);
        let dz: i128 = (16 * (c.z as i128) + 8) - (64 * (self.z as i128) + 32);
        assert(0 <= dx * dx <= 0x10_0000_0000_0000_0000_0000) by (nonlinear_arith)
            requires -0x40_0000_0000 <= dx <= 0x40_0000_0000;
        assert(0 <= dz * dz <= 0x10_0000_0000_0000_0000_0000) by (nonlinear_arith)
            requires -0x40_0000_0000 <= dz <= 0x40_0000_0000;
        dx * dx + dz * dz
    }

    /// The chunk at index `i` of this meta-chunk.
    pub fn chunk_at(&self, i: usize) -> (r: ChunkPos)
        requires
            valid_meta(*self),
            i < 64,
        ensures
            r == chunk_in_meta(*self, i as int),
    {
        ChunkPos {
            x: 4 * self.x + (i / 16) as i32,
            y: ((i / 4) % 4) as i32,
            z: 4 * self.z + (i % 4) as i32,
        }
    }
}

} // verus!
