use vstd::prelude::*;
use crate::positions::{
    chunk_in_meta, lemma_local_index, local_index, meta_coord_of, meta_of, valid_meta, within_square,
    ChunkPos, MetaChunkPos,
};

verus! {

pub(crate) proof fn lemma_push_contains<T>(s: Seq<T>, x: T, y: T)
    ensures
        s.push(x).contains(y) == (s.contains(y) || y == x),
{
    if s.contains(y) {
        let k = choose|k: int| 0 <= k < s.len() && s[k] == y;
        assert(s.push(x)[k] == y);
    }
    if y == x {
        assert(s.push(x)[s.len() as int] == y);
    }
    if s.push(x).contains(y) && y != x {
        let k = choose|k: int| 0 <= k < s.len() + 1 && s.push(x)[k] == y;
        assert(s[k] == y);
    }
}

/// The blocks of one chunk, indexed by `256 * x + 16 * y + z` in local block
/// coordinates.
pub struct Chunk {
    pub pos: ChunkPos,
    pub blocks: Vec<u8>,
}

/// A column of chunks produced by one generation job, indexed as
/// `chunk_in_meta` says.
pub struct MetaChunk {
    pub pos: MetaChunkPos,
    pub chunks: Vec<Chunk>,
}

impl MetaChunk {
    /// Every chunk is in place and holds a full block grid.
    pub open spec fn wf(&self) -> bool {
        &&& valid_meta(self.pos)
        &&& self.chunks@.len() == 64
        &&& forall|i: int|
            #![trigger self.chunks@[i]]
            0 <= i < 64 ==> self.chunks@[i].pos == chunk_in_meta(self.pos, i)
                && self.chunks@[i].blocks@.len() == 4096
    }

    /// The block grids, chunk by chunk.
    pub open spec fn content(&self) -> Seq<Seq<u8>> {
        self.chunks@.map_values(|c: Chunk| c.blocks@)
    }

    /// Tests `wf`.
    pub fn check_wf(&self) -> (r: bool)
        ensures
            r == self.wf(),
    {
        let p = self.pos;
        if !(-0x2000_0000 <= p.x && p.x < 0x2000_0000 && -0x2000_0000 <= p.z && p.z < 0x2000_0000) {
            return false;
        }
        if self.chunks.len() != 64 {
            return false;
        }
        let mut i: usize = 0;
        while i < 64
            invariant
                valid_meta(p),
                p == self.pos,
                self.chunks@.len() == 64,
                i <= 64,
                forall|k: int|
                    #![trigger self.chunks@[k]]
                    0 <= k < i ==> self.chunks@[k].pos == chunk_in_meta(p, k)
                        && self.chunks@[k].blocks@.len() == 4096,
            decreases 64 - i,
        {
            let expected = p.chunk_at(i);
            let c = &self.chunks[i];
            if c.pos != expected || c.blocks.len() != 4096 {
                return false;
            }
            i = i + 1;
        }
        true
    }
}

/// The loaded world: a seed, a clock, and the resident meta-chunks.
pub struct World {
    pub world_seed: u32,
    pub time: u64,
    pub meta_chunks: Vec<MetaChunk>,
}

impl World {
    /// Every meta-chunk is well formed and no position is held twice.
    pub open spec fn wf(&self) -> bool {
        &&& forall|i: int| 0 <= i < self.meta_chunks@.len() ==> #[trigger] self.meta_chunks@[i].wf()
        &&& forall|i: int, j: int|
            0 <= i < j < self.meta_chunks@.len() ==> #[trigger] self.meta_chunks@[i].pos
                != #[trigger] self.meta_chunks@[j].pos
    }

    /// Whether the meta-chunk at `m` is loaded.
    pub open spec fn resident(&self, m: MetaChunkPos) -> bool {
        exists|i: int| 0 <= i < self.meta_chunks@.len() && #[trigger] self.meta_chunks@[i].pos == m
    }

    /// Whether the chunk at `p` is loaded.
    pub open spec fn has_chunk(&self, p: ChunkPos) -> bool {
        self.resident(meta_of(p)) && 0 <= p.y < 4
    }

    /// Two worlds that hold the same meta-chunks have the same residents.
    pub proof fn lemma_same_resident(a: World, b: World)
        requires
            a.meta_chunks == b.meta_chunks,
        ensures
            forall|m: MetaChunkPos| #[trigger] a.resident(m) == b.resident(m),
    {
    }

    /// An empty world with the given seed.
    pub fn new(world_seed: u32) -> (r: World)
        ensures
            r.wf(),
            r.world_seed == world_seed,
            r.time == 0,
            r.meta_chunks@.len() == 0,
    {
        World { world_seed, time: 0, meta_chunks: Vec::new() }
    }

    /// Advances the world clock by one tick (it stops at its largest value).
    pub fn update(&mut self)
        ensures
            final(self).time == if old(self).time < u64::MAX {
                old(self).time + 1
            } else {
                old(self).time as int
            },
            final(self).world_seed == old(self).world_seed,
            final(self).meta_chunks == old(self).meta_chunks,
    {
        if self.time < u64::MAX {
            self.time = self.time + 1;
        }
    }

    /// Where the meta-chunk at `m` is held, if it is loaded.
    pub fn find_meta(&self, m: &MetaChunkPos) -> (r: Option<usize>)
        ensures
            match r {
                Some(i) => i < self.meta_chunks@.len() && self.meta_chunks@[i as int].pos == *m,
                None => !self.resident(*m),
            },
    {
        let mut i: usize = 0;
        while i < self.meta_chunks.len()
            invariant
                i <= self.meta_chunks@.len(),
                forall|k: int| 0 <= k < i ==> #[trigger] self.meta_chunks@[k].pos != *m,
            decreases self.meta_chunks@.len() - i,
        {
            if self.meta_chunks[i].pos == *m {
                return Some(i);
            }
            i = i + 1;
        }
        None
    }

    /// Whether the meta-chunk at `pos` is loaded.
    pub fn chunk_exists_or_generating(&self, pos: &MetaChunkPos) -> (r: bool)
        ensures
            r == self.resident(*pos),
    {
        self.find_meta(pos).is_some()
    }

    /// The loaded chunk at `pos`, if any.
    pub fn get_chunk(&self, pos: &ChunkPos) -> (r: Option<&Chunk>)
        requires
            self.wf(),
        ensures
            r.is_some() == self.has_chunk(*pos),
            match r {
                Some(c) => c.pos == *pos && c.blocks@.len() == 4096 && exists|i: int|
                    0 <= i < self.meta_chunks@.len() && #[trigger] self.meta_chunks@[i].pos == meta_of(*pos)
                        && *c == self.meta_chunks@[i].chunks@[local_index(*pos)],
                None => true,
            },
    {
        if pos.y < 0 || pos.y >= 4 {
            return None;
        }
        let m = pos.get_meta_chunk_pos();
        match self.find_meta(&m) {
            None => None,
            Some(i) => {
                proof {
                    lemma_local_index(*pos);
                }
                let lx: i32 = pos.x - 4 * m.x;
                let lz: i32 = pos.z - 4 * m.z;
                let idx: usize = (16 * lx + 4 * pos.y + lz) as usize;
                assert(idx == local_index(*pos));
                assert(self.meta_chunks@[i as int].wf());
                let c = &self.meta_chunks[i].chunks[idx];
                assert(*c == self.meta_chunks@[i as int].chunks@[local_index(*pos)]);
                Some(c)
            },
        }
    }

    /// The loaded chunk at offset `(dx, dy, dz)` from `pos`, if any.
    pub fn get_neighbor(&self, pos: &ChunkPos, dx: i32, dy: i32, dz: i32) -> (r: Option<&Chunk>)
        requires
            self.wf(),
            i32::MIN <= pos.x + dx <= i32::MAX,
            i32::MIN <= pos.y + dy <= i32::MAX,
            i32::MIN <= pos.z + dz <= i32::MAX,
        ensures
            r.is_some() == self.has_chunk(
                ChunkPos { x: (pos.x + dx) as i32, y: (pos.y + dy) as i32, z: (pos.z + dz) as i32 },
            ),
    {
        let n = pos.get_diff(dx, dy, dz);
        self.get_chunk(&n)
    }

    /// Stores a generated meta-chunk, replacing the one at the same position.
    pub fn add_chunk(&mut self, meta: MetaChunk)
        requires
            old(self).wf(),
            meta.wf(),
        ensures
            final(self).wf(),
            final(self).world_seed == old(self).world_seed,
            final(self).time == old(self).time,
            forall|m: MetaChunkPos| #[trigger]
                final(self).resident(m) == (old(self).resident(m) || m == meta.pos),
            final(self).meta_chunks@.contains(meta),
            forall|i: int|
                0 <= i < old(self).meta_chunks@.len() && old(self).meta_chunks@[i].pos != meta.pos
                    ==> final(self).meta_chunks@.contains(#[trigger] old(self).meta_chunks@[i]),
    {
        let p = meta.pos;
        match self.find_meta(&p) {
            Some(i) => {
                self.meta_chunks.set(i, meta);
                assert(self.meta_chunks@[i as int] == meta);
                assert forall|k: int|
                    0 <= k < old(self).meta_chunks@.len() && old(self).meta_chunks@[k].pos != p
                        implies self.meta_chunks@.contains(#[trigger] old(self).meta_chunks@[k]) by {
                    assert(self.meta_chunks@[k] == old(self).meta_chunks@[k]);
                }
                assert forall|m: MetaChunkPos| #[trigger]
                    self.resident(m) == (old(self).resident(m) || m == p) by {
                    if old(self).resident(m) {
                        let k = choose|k: int|
                            0 <= k < old(self).meta_chunks@.len()
                                && #[trigger] old(self).meta_chunks@[k].pos == m;
                        assert(self.meta_chunks@[k].pos == m);
                    }
                    if self.resident(m) {
                        let k = choose|k: int|
                            0 <= k < self.meta_chunks@.len() && #[trigger] self.meta_chunks@[k].pos == m;
                        assert(old(self).meta_chunks@[k].pos == m);
                    }
                }
            },
            None => {
                self.meta_chunks.push(meta);
                let ghost n = self.meta_chunks@.len() - 1;
                assert(self.meta_chunks@[n] == meta);
                assert forall|k: int|
                    0 <= k < old(self).meta_chunks@.len() && old(self).meta_chunks@[k].pos != p
                        implies self.meta_chunks@.contains(#[trigger] old(self).meta_chunks@[k]) by {
                    assert(self.meta_chunks@[k] == old(self).meta_chunks@[k]);
                }
                assert forall|m: MetaChunkPos| #[trigger]
                    self.resident(m) == (old(self).resident(m) || m == p) by {
                    if old(self).resident(m) {
                        let k = choose|k: int|
                            0 <= k < old(self).meta_chunks@.len()
                                && #[trigger] old(self).meta_chunks@[k].pos == m;
                        assert(self.meta_chunks@[k].pos == m);
                    }
                    if self.resident(m) && m != p {
                        let k = choose|k: int|
                            0 <= k < self.meta_chunks@.len() && #[trigger] self.meta_chunks@[k].pos == m;
                        assert(old(self).meta_chunks@[k].pos == m);
                    }
                }
            },
        }
    }

    /// Keeps the meta-chunks within the square of half-width `radius` around
    /// `center` and drops the others.
    pub fn filter_chunks(&mut self, center: MetaChunkPos, radius: u32)
        requires
            old(self).wf(),
        ensures
            final(self).wf(),
            final(self).world_seed == old(self).world_seed,
            final(self).time == old(self).time,
            forall|m: MetaChunkPos| #[trigger]
                final(self).resident(m) == (old(self).resident(m) && within_square(
                    center,
                    m,
                    radius as int,
                )),
            forall|i: int|
                0 <= i < old(self).meta_chunks@.len() && within_square(
                    center,
                    old(self).meta_chunks@[i].pos,
                    radius as int,
                ) ==> final(self).meta_chunks@.contains(#[trigger] old(self).meta_chunks@[i]),
    {
        let mut rest: Vec<MetaChunk> = Vec::new();
        std::mem::swap(&mut rest, &mut self.meta_chunks);
        let ghost orig = rest@;
        let r: i64 = radius as i64;
        while rest.len() > 0
            invariant
                rest@ == orig.subrange(0, rest@.len() as int),
                rest@.len() <= orig.len(),
                orig == old(self).meta_chunks@,
                old(self).wf(),
                self.world_seed == old(self).world_seed,
                self.time == old(self).time,
                r == radius,
                self.wf(),
                forall|k: int, t: int|
                    0 <= k < self.meta_chunks@.len() && 0 <= t < rest@.len() ==> #[trigger] self.meta_chunks@[k].pos
                        != #[trigger] orig[t].pos,
                forall|t: int|
                    rest@.len() <= t < orig.len() && within_square(center, orig[t].pos, radius as int)
                        ==> self.meta_chunks@.contains(#[trigger] orig[t]),
                forall|m: MetaChunkPos| #[trigger]
                    self.resident(m) == (exists|t: int|
                        rest@.len() <= t < orig.len() && #[trigger] orig[t].pos == m && within_square(
                            center,
                            m,
                            radius as int,
                        )),
            decreases rest@.len(),
        {
            let ghost before = self.meta_chunks@;
            let ghost bw = *self;
            let ghost n = rest@.len() - 1;
            let e = match rest.pop() {
                Some(e) => e,
                None => { return; },
            };
            assert(e == orig[n]);
            let keep = center.x as i64 - r <= e.pos.x as i64 && e.pos.x as i64 <= center.x as i64 + r
                && center.z as i64 - r <= e.pos.z as i64 && e.pos.z as i64 <= center.z as i64 + r;
            if keep {
                self.meta_chunks.push(e);
            }
            assert forall|t: int|
                rest@.len() <= t < orig.len() && within_square(center, orig[t].pos, radius as int)
                    implies self.meta_chunks@.contains(#[trigger] orig[t]) by {
                if keep {
                    lemma_push_contains(before, e, orig[t]);
                }
            }
            assert forall|m: MetaChunkPos| #[trigger]
                self.resident(m) == (exists|t: int|
                    rest@.len() <= t < orig.len() && #[trigger] orig[t].pos == m && within_square(
                        center,
                        m,
                        radius as int,
                    )) by {
                if self.resident(m) {
                    let k = choose|k: int|
                        0 <= k < self.meta_chunks@.len() && #[trigger] self.meta_chunks@[k].pos == m;
                    if k < before.len() {
                        assert(before[k].pos == m);
                        assert(bw.resident(m));
                        let t = choose|t: int|
                            rest@.len() + 1 <= t < orig.len() && #[trigger] orig[t].pos == m
                                && within_square(center, m, radius as int);
                        assert(rest@.len() <= t < orig.len() && orig[t].pos == m);
                    } else {
                        assert(orig[n].pos == m && within_square(center, m, radius as int));
                    }
                }
                if exists|t: int|
                    rest@.len() <= t < orig.len() && #[trigger] orig[t].pos == m && within_square(
                        center,
                        m,
                        radius as int,
                    ) {
                    let t = choose|t: int|
                        rest@.len() <= t < orig.len() && #[trigger] orig[t].pos == m && within_square(
                            center,
                            m,
                            radius as int,
                        );
                    if t == n {
                        assert(self.meta_chunks@[self.meta_chunks@.len() - 1].pos == m);
                    } else {
                        assert(exists|t2: int|
                            rest@.len() + 1 <= t2 < orig.len() && #[trigger] orig[t2].pos == m
                                && within_square(center, m, radius as int));
                        assert(bw.resident(m));
                        let k = choose|k: int|
                            0 <= k < bw.meta_chunks@.len() && #[trigger] bw.meta_chunks@[k].pos == m;
                        assert(before[k].pos == m);
                        assert(self.meta_chunks@[k].pos == m);
                    }
                }
            }
        }
        assert forall|m: MetaChunkPos| #[trigger]
            self.resident(m) == (old(self).resident(m) && within_square(center, m, radius as int)) by {
            if old(self).resident(m) && within_square(center, m, radius as int) {
                let t = choose|t: int|
                    0 <= t < orig.len() && #[trigger] orig[t].pos == m;
                assert(orig[t].pos == m);
            }
        }
    }
}

} // verus!
