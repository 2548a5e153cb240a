use vstd::prelude::*;
use rayon::slice::ParallelSliceMut;
use crate::positions::{
    centre_dist2, chunk_dist2, chunk_in_meta, lemma_chunk_in_meta, lemma_local_index, local_index,
    meta_of, valid_meta, within_square, ChunkPos, MetaChunkPos,
};
use crate::world::{lemma_push_contains, MetaChunk, World};

verus! {

broadcast use vstd::seq_lib::group_to_multiset_ensures;

/// Largest magnitude of a component of a view direction.
pub const VIEW_SCALE: i32 = 1024;

/// A view direction, as integers: a unit vector scaled by `VIEW_SCALE`.
#[derive(Clone, Copy, Debug, PartialEq, Eq, Structural)]
pub struct ViewDir {
    pub x: i32,
    pub y: i32,
    pub z: i32,
}

/// What the streaming core knows of the observer.
#[derive(Clone, Copy, Debug, PartialEq, Eq, Structural)]
pub struct Observer {
    /// The chunk that holds the observer.
    pub chunk: ChunkPos,
    /// Where the observer looks.
    pub view: ViewDir,
    /// Largest chunk distance that gets geometry.
    pub render_distance: u32,
}

/// Tunable parameters of streaming.
#[derive(Clone, Copy, Debug, PartialEq, Eq, Structural)]
pub struct StreamConfig {
    /// Meta-chunks up to this distance (plus one ring) are requested.
    pub gen_radius: u16,
    /// Meta-chunks further than this are dropped; at least `gen_radius`.
    pub unload_radius: u16,
    /// A chunk counts as ahead of the observer when the cosine between the
    /// view and the chunk's direction exceeds this many hundredths.
    pub facing_threshold_pct: u8,
    /// Amount taken off the mesh score of a chunk ahead of the observer.
    pub facing_bonus: u32,
}

/// Every component of the view direction is within `VIEW_SCALE`.
pub open spec fn view_ok(v: ViewDir) -> bool {
    -VIEW_SCALE <= v.x <= VIEW_SCALE && -VIEW_SCALE <= v.y <= VIEW_SCALE && -VIEW_SCALE <= v.z
        <= VIEW_SCALE
}

/// The unload radius is at least the generation radius, and the threshold is
/// a cosine.
pub open spec fn config_ok(c: StreamConfig) -> bool {
    c.gen_radius <= c.unload_radius && c.facing_threshold_pct <= 100
}

/// The keys of a list are non-decreasing.
pub open spec fn sorted_by_key<T>(s: Seq<(i128, T)>) -> bool {
    forall|i: int, j: int| 0 <= i < j < s.len() ==> #[trigger] s[i].0 <= #[trigger] s[j].0
}

/// Whether a meta-chunk is inside the unload radius around the observer.
pub open spec fn within_unload(player: Observer, config: StreamConfig, m: MetaChunkPos) -> bool {
    within_square(meta_of(player.chunk), m, config.unload_radius as int)
}

/// Whether a reconciliation pass requests the meta-chunk `m`: it lies in the
/// generation square (with one ring of margin) and the unload radius, and is
/// neither loaded nor being loaded.
pub open spec fn request_candidate(
    world: World,
    loading: Seq<MetaChunkPos>,
    player: Observer,
    config: StreamConfig,
    m: MetaChunkPos,
) -> bool {
    &&& valid_meta(m)
    &&& within_square(meta_of(player.chunk), m, config.gen_radius as int + 1)
    &&& within_unload(player, config, m)
    &&& !world.resident(m)
    &&& !loading.contains(m)
}

/// Whether the chunks that a mesh of `p` needs are loaded: the four lateral
/// neighbours always, the vertical ones unless `p` is at the top or bottom layer.
pub open spec fn neighbors_present(world: World, p: ChunkPos) -> bool {
    &&& i32::MIN < p.x < i32::MAX
    &&& i32::MIN < p.z < i32::MAX
    &&& 0 <= p.y < 4
    &&& world.has_chunk(ChunkPos { x: (p.x + 1) as i32, ..p })
    &&& world.has_chunk(ChunkPos { x: (p.x - 1) as i32, ..p })
    &&& world.has_chunk(ChunkPos { z: (p.z + 1) as i32, ..p })
    &&& world.has_chunk(ChunkPos { z: (p.z - 1) as i32, ..p })
    &&& (p.y + 1 == 4 || world.has_chunk(ChunkPos { y: (p.y + 1) as i32, ..p }))
    &&& (p.y == 0 || world.has_chunk(ChunkPos { y: (p.y - 1) as i32, ..p }))
}

/// Dot product of the view with the vector from the chunk to the observer.
pub open spec fn view_dot(player: Observer, p: ChunkPos) -> int {
    player.view.x * (player.chunk.x - p.x) + player.view.y * (player.chunk.y - p.y) + player.view.z
        * (player.chunk.z - p.z)
}

/// Squared length of a view direction.
pub open spec fn view_len2(v: ViewDir) -> int {
    v.x * v.x + v.y * v.y + v.z * v.z
}

/// Whether chunk `p` lies ahead of the observer: the vector from the chunk to
/// the observer points against the view by more than the threshold.
pub open spec fn facing(player: Observer, config: StreamConfig, p: ChunkPos) -> bool {
    let dot = view_dot(player, p);
    let t = config.facing_threshold_pct as int;
    dot < 0 && 10000 * (dot * dot) > (t * t) * (view_len2(player.view) * chunk_dist2(
        player.chunk,
        p,
    ))
}

/// The mesh score of a chunk: its squared distance, less the bonus when it
/// lies ahead. Lower scores are built first.
pub open spec fn mesh_score(player: Observer, config: StreamConfig, p: ChunkPos) -> int {
    chunk_dist2(p, player.chunk) - if facing(player, config, p) {
        config.facing_bonus as int
    } else {
        0
    }
}

/// Relies on rayon's `par_sort_by_key` (stable parallel merge sort): the
/// vector is reordered so that the keys are non-decreasing.
#[verifier::external_body]
fn sort_by_score<T: Send>(v: &mut Vec<(i128, T)>)
    ensures
        final(v)@.to_multiset() == old(v)@.to_multiset(),
        sorted_by_key(final(v)@),
{
    v.par_sort_by_key(|e| e.0);
}

/// The streaming core: the loaded world, the meta-chunks being generated, the
/// built geometry, and the queue of chunks waiting for geometry.
pub struct PersonalWorld<R> {
    pub world: World,
    /// Built geometry, keyed by chunk.
    pub chunk_render_data: Vec<(ChunkPos, R)>,
    pub player: Observer,
    /// The chunk for which the last reconciliation ran.
    pub generated_chunks_for: Option<ChunkPos>,
    /// Meta-chunks requested and not yet returned.
    pub loading_chunks: Vec<MetaChunkPos>,
    /// Set when the world changed, so that the next tick reconciles.
    pub reload_vertex_load_order: bool,
    /// Chunks waiting for geometry, lowest score first.
    pub to_generate: Vec<(i128, ChunkPos)>,
    pub config: StreamConfig,
}

impl<R> PersonalWorld<R> {
    /// Whether the meta-chunk at `m` has been requested and not yet returned.
    pub open spec fn loading(&self, m: MetaChunkPos) -> bool {
        self.loading_chunks@.contains(m)
    }

    /// Whether geometry is held for the chunk at `p`.
    pub open spec fn rendered(&self, p: ChunkPos) -> bool {
        exists|i: int|
            0 <= i < self.chunk_render_data@.len() && #[trigger] self.chunk_render_data@[i].0 == p
    }

    /// The world is well formed, no meta-chunk is both loading and loaded,
    /// each position is held once in the loading set and in the geometry, and
    /// the mesh queue is sorted.
    pub open spec fn wf(&self) -> bool {
        &&& self.world.wf()
        &&& config_ok(self.config)
        &&& view_ok(self.player.view)
        &&& self.loading_chunks@.no_duplicates()
        &&& forall|m: MetaChunkPos| #[trigger] self.loading(m) ==> !self.world.resident(m)
        &&& forall|i: int, j: int|
            0 <= i < j < self.chunk_render_data@.len() ==> #[trigger] self.chunk_render_data@[i].0
                != #[trigger] self.chunk_render_data@[j].0
        &&& sorted_by_key(self.to_generate@)
    }

    /// Whether chunk `p` may get geometry now: it is loaded, within render
    /// distance, its neighbours are loaded, and it has no geometry yet.
    pub open spec fn mesh_eligible(&self, p: ChunkPos) -> bool {
        &&& self.world.has_chunk(p)
        &&& chunk_dist2(p, self.player.chunk) <= self.player.render_distance
            * self.player.render_distance
        &&& neighbors_present(self.world, p)
        &&& !self.rendered(p)
    }

    /// `q` is the mesh queue of this state: every eligible chunk once with
    /// its score, nothing else, lowest score first.
    pub open spec fn is_mesh_queue_of(&self, q: Seq<(i128, ChunkPos)>) -> bool {
        &&& sorted_by_key(q)
        &&& forall|a: int, b: int| 0 <= a < b < q.len() ==> #[trigger] q[a].1 != #[trigger] q[b].1
        &&& forall|k: int|
            0 <= k < q.len() ==> (#[trigger] q[k]).0 == mesh_score(self.player, self.config, q[k].1)
                && self.mesh_eligible(q[k].1)
        &&& forall|p: ChunkPos|
            #![trigger self.mesh_eligible(p)]
            self.mesh_eligible(p) ==> q.contains((mesh_score(self.player, self.config, p) as i128, p))
    }

    /// The chunk at index `l` of the `k`-th loaded meta-chunk.
    pub open spec fn meta_chunk_at(&self, k: int, l: int) -> ChunkPos {
        chunk_in_meta(self.world.meta_chunks@[k].pos, l)
    }

    proof fn lemma_same_loading(a: Self, b: Self)
        requires
            a.loading_chunks == b.loading_chunks,
        ensures
            forall|m: MetaChunkPos| #[trigger] a.loading(m) == b.loading(m),
    {
    }

    proof fn lemma_same_rendered(a: Self, b: Self)
        requires
            a.chunk_render_data == b.chunk_render_data,
        ensures
            forall|p: ChunkPos| #[trigger] a.rendered(p) == b.rendered(p),
    {
    }

    /// Whether a load of `pos` sends a generation request.
    pub open spec fn load_issues(&self, pos: MetaChunkPos) -> bool {
        !self.world.resident(pos) && !self.loading(pos)
    }

    /// `post` is `pre` after `load_chunk(pos)` returned `issued`.
    pub open spec fn load_chunk_post(pre: Self, post: Self, pos: MetaChunkPos, issued: bool) -> bool {
        &&& issued == pre.load_issues(pos)
        &&& post.loading_chunks@ == if issued {
            pre.loading_chunks@.push(pos)
        } else {
            pre.loading_chunks@
        }
        &&& post.world == pre.world
        &&& post.chunk_render_data == pre.chunk_render_data
        &&& post.player == pre.player
        &&& post.generated_chunks_for == pre.generated_chunks_for
        &&& post.reload_vertex_load_order == pre.reload_vertex_load_order
        &&& post.to_generate == pre.to_generate
        &&& post.config == pre.config
    }

    /// A streaming core with an empty world.
    pub fn new(world_seed: u32, player: Observer, config: StreamConfig) -> (r: Self)
        requires
            view_ok(player.view),
            config_ok(config),
        ensures
            r.wf(),
            r.world.world_seed == world_seed,
            r.world.time == 0,
            r.player == player,
            r.config == config,
            r.world.meta_chunks@.len() == 0,
            r.loading_chunks@.len() == 0,
            r.chunk_render_data@.len() == 0,
            r.generated_chunks_for.is_none(),
            !r.reload_vertex_load_order,
            r.to_generate@.len() == 0,
    {
        PersonalWorld {
            world: World::new(world_seed),
            chunk_render_data: Vec::new(),
            player,
            generated_chunks_for: None,
            loading_chunks: Vec::new(),
            reload_vertex_load_order: false,
            to_generate: Vec::new(),
            config,
        }
    }

    /// Advances the world clock by one tick.
    pub fn update(&mut self)
        requires
            old(self).wf(),
        ensures
            final(self).wf(),
            final(self).world.time == if old(self).world.time < u64::MAX {
                old(self).world.time + 1
            } else {
                old(self).world.time as int
            },
            final(self).world.meta_chunks == old(self).world.meta_chunks,
            final(self).world.world_seed == old(self).world.world_seed,
            final(self).chunk_render_data == old(self).chunk_render_data,
            final(self).loading_chunks == old(self).loading_chunks,
            final(self).player == old(self).player,
            final(self).to_generate == old(self).to_generate,
    {
        let ghost pre = *self;
        self.world.update();
        proof {
            World::lemma_same_resident(self.world, pre.world);
            Self::lemma_same_loading(*self, pre);
        }
    }

    /// Whether the meta-chunk at `pos` lies inside the unload radius.
    pub fn meta_chunk_should_be_loaded(&self, pos: &MetaChunkPos) -> (r: bool)
        ensures
            r == within_unload(self.player, self.config, *pos),
    {
        let c = self.player.chunk.get_meta_chunk_pos();
        let r: i64 = self.config.unload_radius as i64;
        c.x as i64 - r <= pos.x as i64 && pos.x as i64 <= c.x as i64 + r && c.z as i64 - r
            <= pos.z as i64 && pos.z as i64 <= c.z as i64 + r
    }

    /// Where `pos` stands in the loading set, if it is there.
    fn find_loading(&self, pos: &MetaChunkPos) -> (r: Option<usize>)
        ensures
            match r {
                Some(i) => i < self.loading_chunks@.len() && self.loading_chunks@[i as int] == *pos,
                None => !self.loading(*pos),
            },
    {
        let mut i: usize = 0;
        while i < self.loading_chunks.len()
            invariant
                i <= self.loading_chunks@.len(),
                forall|k: int| 0 <= k < i ==> #[trigger] self.loading_chunks@[k] != *pos,
            decreases self.loading_chunks@.len() - i,
        {
            if self.loading_chunks[i] == *pos {
                return Some(i);
            }
            i = i + 1;
        }
        None
    }

    /// Marks `pos` as being generated, unless it is loaded or already being
    /// generated. Returns whether the caller must send a generation request.
    pub fn load_chunk(&mut self, pos: MetaChunkPos) -> (issued: bool)
        requires
            old(self).wf(),
        ensures
            final(self).wf(),
            Self::load_chunk_post(*old(self), *final(self), pos, issued),
    {
        if self.world.chunk_exists_or_generating(&pos) {
            return false;
        }
        if self.find_loading(&pos).is_some() {
            return false;
        }
        self.loading_chunks.push(pos);
        proof {
            assert forall|m: MetaChunkPos| #[trigger] self.loading(m) implies !self.world.resident(m) by {
                if m != pos {
                    assert(old(self).loading(m));
                }
            }
        }
        true
    }

    /// Whether a reconciliation pass requests `m` now.
    pub fn is_request_candidate(&self, m: &MetaChunkPos) -> (r: bool)
        ensures
            r == request_candidate(self.world, self.loading_chunks@, self.player, self.config, *m),
    {
        if !(-0x2000_0000 <= m.x && m.x < 0x2000_0000 && -0x2000_0000 <= m.z && m.z < 0x2000_0000) {
            return false;
        }
        let c = self.player.chunk.get_meta_chunk_pos();
        let g: i64 = self.config.gen_radius as i64 + 1;
        if !(c.x as i64 - g <= m.x as i64 && m.x as i64 <= c.x as i64 + g && c.z as i64 - g
            <= m.z as i64 && m.z as i64 <= c.z as i64 + g) {
            return false;
        }
        if !self.meta_chunk_should_be_loaded(m) {
            return false;
        }
        if self.world.chunk_exists_or_generating(m) {
            return false;
        }
        self.find_loading(m).is_none()
    }

    /// One reconciliation pass of the scheduler: marks as loading every
    /// meta-chunk that `request_candidate` admits and returns them in
    /// increasing distance from the observer (the centre of its chunk) to the
    /// meta-chunk's centre. The caller sends one generation
    /// request for each.
    pub fn check_chunks_to_generate(&mut self) -> (requests: Vec<MetaChunkPos>)
        requires
            old(self).wf(),
        ensures
            final(self).wf(),
            forall|m: MetaChunkPos| #[trigger]
                requests@.contains(m) == request_candidate(
                    old(self).world,
                    old(self).loading_chunks@,
                    old(self).player,
                    old(self).config,
                    m,
                ),
            requests@.no_duplicates(),
            forall|i: int, j: int|
                0 <= i < j < requests@.len() ==> centre_dist2(old(self).player.chunk,
                    #[trigger] requests@[i],
                ) <= centre_dist2(old(self).player.chunk, #[trigger] requests@[j]),
            forall|m: MetaChunkPos| #[trigger]
                final(self).loading(m) == (old(self).loading(m) || requests@.contains(m)),
            final(self).world == old(self).world,
            final(self).chunk_render_data == old(self).chunk_render_data,
            final(self).player == old(self).player,
            final(self).generated_chunks_for == old(self).generated_chunks_for,
            final(self).reload_vertex_load_order == old(self).reload_vertex_load_order,
            final(self).to_generate == old(self).to_generate,
            final(self).config == old(self).config,
    {
        let ghost pre = *self;
        let c = self.player.chunk.get_meta_chunk_pos();
        let pc = self.player.chunk;
        let g: i64 = self.config.gen_radius as i64 + 1;
        let mut cands: Vec<(i128, MetaChunkPos)> = Vec::new();
        let mut x: i64 = c.x as i64 - g;
        while x <= c.x as i64 + g
            invariant
                *self == pre,
                c == meta_of(pre.player.chunk),
                pc == pre.player.chunk,
                valid_meta(c),
                g == pre.config.gen_radius + 1,
                c.x - g <= x <= c.x + g + 1,
                forall|k: int|
                    0 <= k < cands@.len() ==> (#[trigger] cands@[k]).0 == centre_dist2(pc, cands@[k].1)
                        && request_candidate(
                        pre.world,
                        pre.loading_chunks@,
                        pre.player,
                        pre.config,
                        cands@[k].1,
                    ),
                forall|m: MetaChunkPos|
                    #![trigger request_candidate(pre.world, pre.loading_chunks@, pre.player, pre.config, m)]
                    request_candidate(pre.world, pre.loading_chunks@, pre.player, pre.config, m)
                        && m.x < x ==> cands@.contains((centre_dist2(pc, m) as i128, m)),
            decreases c.x + g + 1 - x,
        {
            let mut z: i64 = c.z as i64 - g;
            while z <= c.z as i64 + g
                invariant
                    *self == pre,
                    c == meta_of(pre.player.chunk),
                pc == pre.player.chunk,
                    valid_meta(c),
                    g == pre.config.gen_radius + 1,
                    c.x - g <= x <= c.x + g,
                    c.z - g <= z <= c.z + g + 1,
                    forall|k: int|
                        0 <= k < cands@.len() ==> (#[trigger] cands@[k]).0 == centre_dist2(pc, cands@[k].1)
                            && request_candidate(
                            pre.world,
                            pre.loading_chunks@,
                            pre.player,
                            pre.config,
                            cands@[k].1,
                        ),
                    forall|m: MetaChunkPos|
                        #![trigger request_candidate(pre.world, pre.loading_chunks@, pre.player, pre.config, m)]
                        request_candidate(pre.world, pre.loading_chunks@, pre.player, pre.config, m)
                            && (m.x < x || (m.x == x && m.z < z)) ==> cands@.contains(
                            (centre_dist2(pc, m) as i128, m),
                        ),
                decreases c.z + g + 1 - z,
            {
                let m = MetaChunkPos { x: x as i32, z: z as i32 };
                if self.is_request_candidate(&m) {
                    let d = m.get_distance2_to_chunk(&pc);
                    let ghost before = cands@;
                    cands.push((d, m));
                    proof {
                        assert forall|m2: MetaChunkPos|
                            request_candidate(pre.world, pre.loading_chunks@, pre.player, pre.config, m2)
                                && (m2.x < x || (m2.x == x && m2.z < z + 1)) implies cands@.contains(
                            (centre_dist2(pc, m2) as i128, m2),
                        ) by {
                            if m2 == m {
                                assert(cands@[cands@.len() - 1] == (d, m));
                            } else {
                                assert(before.contains((centre_dist2(pc, m2) as i128, m2)));
                                let k = choose|k: int|
                                    0 <= k < before.len() && before[k] == (
                                        centre_dist2(pc, m2) as i128,
                                        m2,
                                    );
                                assert(cands@[k] == before[k]);
                            }
                        }
                    }
                }
                z = z + 1;
            }
            x = x + 1;
        }
        let ghost collected = cands@;
        sort_by_score(&mut cands);
        proof {
            assert forall|e: (i128, MetaChunkPos)| #[trigger] cands@.contains(e) == collected.contains(e) by {
                assert(cands@.contains(e) == (cands@.to_multiset().count(e) > 0));
                assert(collected.contains(e) == (collected.to_multiset().count(e) > 0));
            }
            assert forall|k: int|
                0 <= k < cands@.len() implies (#[trigger] cands@[k]).0 == centre_dist2(pc, cands@[k].1)
                && request_candidate(pre.world, pre.loading_chunks@, pre.player, pre.config, cands@[k].1) by {
                assert(cands@.contains(cands@[k]));
                let k2 = choose|k2: int| 0 <= k2 < collected.len() && collected[k2] == cands@[k];
                assert(collected[k2] == cands@[k]);
            }
        }
        let mut requests: Vec<MetaChunkPos> = Vec::new();
        let mut i: usize = 0;
        while i < cands.len()
            invariant
                self.wf(),
                i <= cands@.len(),
                c == meta_of(pre.player.chunk),
                pc == pre.player.chunk,
                sorted_by_key(cands@),
                forall|e: (i128, MetaChunkPos)| #[trigger] cands@.contains(e) == collected.contains(e),
                forall|k: int|
                    0 <= k < cands@.len() ==> (#[trigger] cands@[k]).0 == centre_dist2(pc, cands@[k].1)
                        && request_candidate(
                        pre.world,
                        pre.loading_chunks@,
                        pre.player,
                        pre.config,
                        cands@[k].1,
                    ),
                forall|m: MetaChunkPos|
                    #![trigger self.loading(m)]
                    self.loading(m) == (pre.loading(m) || requests@.contains(m)),
                requests@.no_duplicates(),
                forall|m: MetaChunkPos| #[trigger]
                    requests@.contains(m) == exists|k: int| 0 <= k < i && #[trigger] cands@[k].1 == m,
                forall|a: int, b: int|
                    0 <= a < b < requests@.len() ==> centre_dist2(pc, #[trigger] requests@[a]) <= centre_dist2(pc,
                        #[trigger] requests@[b],
                    ),
                forall|a: int, k: int|
                    0 <= a < requests@.len() && i <= k < cands@.len() ==> centre_dist2(pc,
                        #[trigger] requests@[a],
                    ) <= #[trigger] cands@[k].0,
                self.world == pre.world,
                self.chunk_render_data == pre.chunk_render_data,
                self.player == pre.player,
                self.generated_chunks_for == pre.generated_chunks_for,
                self.reload_vertex_load_order == pre.reload_vertex_load_order,
                self.to_generate == pre.to_generate,
                self.config == pre.config,
            decreases cands@.len() - i,
        {
            let m = cands[i].1;
            let ghost old_req = requests@;
            let ghost w0 = *self;
            assert(forall|m2: MetaChunkPos| #[trigger]
                w0.loading(m2) == (pre.loading(m2) || old_req.contains(m2)));
            let issued = self.load_chunk(m);
            assert(cands@[i as int].1 == m);
            if issued {
                requests.push(m);
                proof {
                    assert forall|m2: MetaChunkPos| #[trigger]
                        self.loading(m2) == (pre.loading(m2) || requests@.contains(m2)) by {
                        lemma_push_contains(w0.loading_chunks@, m, m2);
                        lemma_push_contains(old_req, m, m2);
                        assert(w0.loading(m2) == (pre.loading(m2) || old_req.contains(m2)));
                        assert(self.loading_chunks@ == w0.loading_chunks@.push(m));
                    }
                    assert(!w0.loading(m));
                    assert(!old_req.contains(m));
                    assert forall|a: int, b: int|
                        0 <= a < b < requests@.len() implies requests@[a] != requests@[b] by {
                        if b == requests@.len() - 1 {
                            assert(old_req.contains(requests@[a]));
                        } else {
                            assert(old_req[a] != old_req[b]);
                        }
                    }
                    assert forall|a: int, b: int|
                        0 <= a < b < requests@.len() implies centre_dist2(pc, #[trigger] requests@[a])
                        <= centre_dist2(pc, #[trigger] requests@[b]) by {
                        if b == requests@.len() - 1 {
                            assert(centre_dist2(pc, old_req[a]) <= cands@[i as int].0);
                        }
                    }
                }
            } else {
                proof {
                    assert(w0.loading(m));
                    assert(!pre.loading(m));
                    assert(requests@.contains(m));
                    assert(self.loading_chunks@ == w0.loading_chunks@);
                    assert forall|m2: MetaChunkPos| #[trigger]
                        self.loading(m2) == (pre.loading(m2) || requests@.contains(m2)) by {
                        assert(w0.loading(m2) == (pre.loading(m2) || old_req.contains(m2)));
                    }
                }
            }
            proof {
                assert forall|m2: MetaChunkPos| #[trigger]
                    requests@.contains(m2) == exists|k: int| 0 <= k < i + 1 && #[trigger] cands@[k].1 == m2 by {
                    if issued {
                        lemma_push_contains(old_req, m, m2);
                    }
                    if exists|k: int| 0 <= k < i + 1 && #[trigger] cands@[k].1 == m2 {
                        if m2 != m {
                            let k = choose|k: int| 0 <= k < i + 1 && #[trigger] cands@[k].1 == m2;
                            assert(k < i);
                            assert(old_req.contains(m2));
                        }
                    }
                }
                assert forall|a: int, k: int|
                    0 <= a < requests@.len() && i + 1 <= k < cands@.len() implies centre_dist2(pc,
                    #[trigger] requests@[a],
                ) <= #[trigger] cands@[k].0 by {
                    assert(cands@[i as int].0 <= cands@[k].0);
                    if a < old_req.len() {
                        assert(requests@[a] == old_req[a]);
                    }
                }
            }
            i = i + 1;
        }
        proof {
            assert forall|m: MetaChunkPos| #[trigger]
                requests@.contains(m) == request_candidate(
                    pre.world,
                    pre.loading_chunks@,
                    pre.player,
                    pre.config,
                    m,
                ) by {
                if request_candidate(pre.world, pre.loading_chunks@, pre.player, pre.config, m) {
                    let e = (centre_dist2(pc, m) as i128, m);
                    assert(collected.contains(e));
                    assert(cands@.contains(e));
                    let k = choose|k: int| 0 <= k < cands@.len() && cands@[k] == e;
                    assert(cands@[k].1 == m);
                }
                if requests@.contains(m) {
                    let k = choose|k: int| 0 <= k < i && #[trigger] cands@[k].1 == m;
                    assert(cands@[k].1 == m);
                }
            }
        }
        requests
    }

    /// Drops the built geometry of every chunk whose meta-chunk lies outside
    /// the unload radius.
    fn retain_render_data(&mut self)
        requires
            old(self).wf(),
        ensures
            final(self).wf(),
            forall|p: ChunkPos| #[trigger]
                final(self).rendered(p) == (old(self).rendered(p) && within_unload(
                    old(self).player,
                    old(self).config,
                    meta_of(p),
                )),
            forall|i: int|
                0 <= i < old(self).chunk_render_data@.len() && within_unload(
                    old(self).player,
                    old(self).config,
                    meta_of(old(self).chunk_render_data@[i].0),
                ) ==> final(self).chunk_render_data@.contains(#[trigger] old(self).chunk_render_data@[i]),
            final(self).world == old(self).world,
            final(self).loading_chunks == old(self).loading_chunks,
            final(self).player == old(self).player,
            final(self).generated_chunks_for == old(self).generated_chunks_for,
            final(self).reload_vertex_load_order == old(self).reload_vertex_load_order,
            final(self).to_generate == old(self).to_generate,
            final(self).config == old(self).config,
    {
        let mut rest: Vec<(ChunkPos, R)> = Vec::new();
        std::mem::swap(&mut rest, &mut self.chunk_render_data);
        let ghost orig = rest@;
        let ghost pre = *old(self);
        while rest.len() > 0
            invariant
                rest@ == orig.subrange(0, rest@.len() as int),
                rest@.len() <= orig.len(),
                orig == pre.chunk_render_data@,
                pre == *old(self),
                pre.wf(),
                self.world == pre.world,
                self.loading_chunks == pre.loading_chunks,
                self.player == pre.player,
                self.generated_chunks_for == pre.generated_chunks_for,
                self.reload_vertex_load_order == pre.reload_vertex_load_order,
                self.to_generate == pre.to_generate,
                self.config == pre.config,
                forall|i: int, j: int|
                    0 <= i < j < self.chunk_render_data@.len() ==> #[trigger] self.chunk_render_data@[i].0
                        != #[trigger] self.chunk_render_data@[j].0,
                forall|k: int, t: int|
                    0 <= k < self.chunk_render_data@.len() && 0 <= t < rest@.len()
                        ==> #[trigger] self.chunk_render_data@[k].0 != #[trigger] orig[t].0,
                forall|t: int|
                    rest@.len() <= t < orig.len() && within_unload(pre.player, pre.config, meta_of(orig[t].0))
                        ==> self.chunk_render_data@.contains(#[trigger] orig[t]),
                forall|p: ChunkPos| #[trigger]
                    self.rendered(p) == (exists|t: int|
                        rest@.len() <= t < orig.len() && #[trigger] orig[t].0 == p && within_unload(
                            pre.player,
                            pre.config,
                            meta_of(p),
                        )),
            decreases rest@.len(),
        {
            let ghost before = self.chunk_render_data@;
            let ghost bw = *self;
            let ghost n = rest@.len() - 1;
            let e = match rest.pop() {
                Some(e) => e,
                None => { return; },
            };
            assert(e == orig[n]);
            let mp = e.0.get_meta_chunk_pos();
            let keep = self.meta_chunk_should_be_loaded(&mp);
            if keep {
                self.chunk_render_data.push(e);
            }
            assert forall|t: int|
                rest@.len() <= t < orig.len() && within_unload(pre.player, pre.config, meta_of(orig[t].0))
                    implies self.chunk_render_data@.contains(#[trigger] orig[t]) by {
                if keep {
                    lemma_push_contains(before, e, orig[t]);
                }
            }
            assert forall|p: ChunkPos| #[trigger]
                self.rendered(p) == (exists|t: int|
                    rest@.len() <= t < orig.len() && #[trigger] orig[t].0 == p && within_unload(
                        pre.player,
                        pre.config,
                        meta_of(p),
                    )) by {
                if self.rendered(p) {
                    let k = choose|k: int|
                        0 <= k < self.chunk_render_data@.len() && #[trigger] self.chunk_render_data@[k].0 == p;
                    if k < before.len() {
                        assert(before[k].0 == p);
                        assert(bw.rendered(p));
                        let t = choose|t: int|
                            rest@.len() + 1 <= t < orig.len() && #[trigger] orig[t].0 == p
                                && within_unload(pre.player, pre.config, meta_of(p));
                        assert(rest@.len() <= t < orig.len() && orig[t].0 == p);
                    } else {
                        assert(orig[n].0 == p);
                    }
                }
                if exists|t: int|
                    rest@.len() <= t < orig.len() && #[trigger] orig[t].0 == p && within_unload(
                        pre.player,
                        pre.config,
                        meta_of(p),
                    ) {
                    let t = choose|t: int|
                        rest@.len() <= t < orig.len() && #[trigger] orig[t].0 == p && within_unload(
                            pre.player,
                            pre.config,
                            meta_of(p),
                        );
                    if t == n {
                        assert(self.chunk_render_data@[self.chunk_render_data@.len() - 1].0 == p);
                    } else {
                        assert(exists|t2: int|
                            rest@.len() + 1 <= t2 < orig.len() && #[trigger] orig[t2].0 == p
                                && within_unload(pre.player, pre.config, meta_of(p)));
                        assert(bw.rendered(p));
                        let k = choose|k: int|
                            0 <= k < bw.chunk_render_data@.len() && #[trigger] bw.chunk_render_data@[k].0 == p;
                        assert(self.chunk_render_data@[k].0 == p);
                    }
                }
            }
        }
        proof {
            Self::lemma_same_loading(*self, pre);
        }
        assert forall|p: ChunkPos| #[trigger]
            self.rendered(p) == (pre.rendered(p) && within_unload(pre.player, pre.config, meta_of(p))) by {
            if pre.rendered(p) && within_unload(pre.player, pre.config, meta_of(p)) {
                let t = choose|t: int| 0 <= t < orig.len() && #[trigger] orig[t].0 == p;
                assert(orig[t].0 == p);
            }
        }
    }

    /// The reconciliation that runs when the observer changes chunk: requests
    /// the missing meta-chunks (see `check_chunks_to_generate`), then drops
    /// from the world and from the built geometry everything outside the
    /// unload radius.
    pub fn on_player_moved_chunks(&mut self) -> (requests: Vec<MetaChunkPos>)
        requires
            old(self).wf(),
        ensures
            final(self).wf(),
            forall|m: MetaChunkPos| #[trigger]
                requests@.contains(m) == request_candidate(
                    old(self).world,
                    old(self).loading_chunks@,
                    old(self).player,
                    old(self).config,
                    m,
                ),
            requests@.no_duplicates(),
            forall|i: int, j: int|
                0 <= i < j < requests@.len() ==> centre_dist2(old(self).player.chunk,
                    #[trigger] requests@[i],
                ) <= centre_dist2(old(self).player.chunk, #[trigger] requests@[j]),
            forall|m: MetaChunkPos| #[trigger]
                final(self).loading(m) == (old(self).loading(m) || requests@.contains(m)),
            forall|m: MetaChunkPos| #[trigger]
                final(self).world.resident(m) == (old(self).world.resident(m) && within_unload(
                    old(self).player,
                    old(self).config,
                    m,
                )),
            forall|p: ChunkPos| #[trigger]
                final(self).rendered(p) == (old(self).rendered(p) && within_unload(
                    old(self).player,
                    old(self).config,
                    meta_of(p),
                )),
            forall|i: int|
                0 <= i < old(self).world.meta_chunks@.len() && within_unload(
                    old(self).player,
                    old(self).config,
                    old(self).world.meta_chunks@[i].pos,
                ) ==> final(self).world.meta_chunks@.contains(#[trigger] old(self).world.meta_chunks@[i]),
            forall|i: int|
                0 <= i < old(self).chunk_render_data@.len() && within_unload(
                    old(self).player,
                    old(self).config,
                    meta_of(old(self).chunk_render_data@[i].0),
                ) ==> final(self).chunk_render_data@.contains(#[trigger] old(self).chunk_render_data@[i]),
            final(self).world.world_seed == old(self).world.world_seed,
            final(self).world.time == old(self).world.time,
            final(self).player == old(self).player,
            final(self).generated_chunks_for == old(self).generated_chunks_for,
            final(self).reload_vertex_load_order == old(self).reload_vertex_load_order,
            final(self).to_generate == old(self).to_generate,
            final(self).config == old(self).config,
    {
        let requests = self.check_chunks_to_generate();
        let ghost mid = *self;
        let center = self.player.chunk.get_meta_chunk_pos();
        self.world.filter_chunks(center, self.config.unload_radius as u32);
        proof {
            Self::lemma_same_loading(*self, mid);
            assert forall|m: MetaChunkPos| #[trigger] self.loading(m) implies !self.world.resident(m) by {
                assert(mid.loading(m));
            }
        }
        proof {
            Self::lemma_same_rendered(*self, *old(self));
        }
        self.retain_render_data();
        proof {
            Self::lemma_same_loading(*self, mid);
        }
        requests
    }

    /// Takes in a result of the generation worker for `pos`: `pos` leaves the
    /// loading set in every case, and the meta-chunk enters the world when it
    /// is well formed and stands at `pos`. Returns whether it entered.
    pub fn load_generated_chunks(&mut self, pos: MetaChunkPos, meta: MetaChunk) -> (accepted: bool)
        requires
            old(self).wf(),
        ensures
            final(self).wf(),
            accepted == (meta.wf() && meta.pos == pos),
            forall|m: MetaChunkPos| #[trigger] final(self).loading(m) == (old(self).loading(m) && m != pos),
            forall|m: MetaChunkPos| #[trigger]
                final(self).world.resident(m) == (old(self).world.resident(m) || (accepted && m == pos)),
            accepted ==> final(self).world.meta_chunks@.contains(meta),
            accepted ==> forall|i: int|
                0 <= i < old(self).world.meta_chunks@.len() && old(self).world.meta_chunks@[i].pos != pos
                    ==> final(self).world.meta_chunks@.contains(#[trigger] old(self).world.meta_chunks@[i]),
            !accepted ==> final(self).world == old(self).world,
            final(self).reload_vertex_load_order == (old(self).reload_vertex_load_order || accepted),
            final(self).world.world_seed == old(self).world.world_seed,
            final(self).world.time == old(self).world.time,
            final(self).chunk_render_data == old(self).chunk_render_data,
            final(self).player == old(self).player,
            final(self).generated_chunks_for == old(self).generated_chunks_for,
            final(self).to_generate == old(self).to_generate,
            final(self).config == old(self).config,
    {
        self.on_request_failed(pos);
        let ok = meta.check_wf() && meta.pos == pos;
        if !ok {
            return false;
        }
        let ghost mid = *self;
        self.world.add_chunk(meta);
        self.reload_vertex_load_order = true;
        proof {
            Self::lemma_same_loading(*self, mid);
            assert forall|m: MetaChunkPos| #[trigger] self.loading(m) implies !self.world.resident(m) by {
                assert(mid.loading(m));
            }
        }
        true
    }

    /// Where `pos` stands in the built geometry, if it is there.
    fn find_rendered(&self, pos: &ChunkPos) -> (r: Option<usize>)
        ensures
            match r {
                Some(i) => i < self.chunk_render_data@.len() && self.chunk_render_data@[i as int].0 == *pos,
                None => !self.rendered(*pos),
            },
    {
        let mut i: usize = 0;
        while i < self.chunk_render_data.len()
            invariant
                i <= self.chunk_render_data@.len(),
                forall|k: int| 0 <= k < i ==> #[trigger] self.chunk_render_data@[k].0 != *pos,
            decreases self.chunk_render_data@.len() - i,
        {
            if self.chunk_render_data[i].0 == *pos {
                return Some(i);
            }
            i = i + 1;
        }
        None
    }

    /// Whether the chunks that a mesh of `pos` needs are loaded.
    pub fn neighbors_loaded(&self, pos: &ChunkPos) -> (r: bool)
        requires
            self.world.wf(),
        ensures
            r == neighbors_present(self.world, *pos),
    {
        if pos.x == i32::MIN || pos.x == i32::MAX || pos.z == i32::MIN || pos.z == i32::MAX {
            return false;
        }
        if pos.y < 0 || pos.y >= 4 {
            return false;
        }
        if self.world.get_neighbor(pos, 1, 0, 0).is_none() || self.world.get_neighbor(pos, -1, 0, 0).is_none()
            || self.world.get_neighbor(pos, 0, 0, 1).is_none() || self.world.get_neighbor(
            pos,
            0,
            0,
            -1,
        ).is_none() {
            return false;
        }
        if pos.y + 1 != 4 && self.world.get_neighbor(pos, 0, 1, 0).is_none() {
            return false;
        }
        if pos.y != 0 && self.world.get_neighbor(pos, 0, -1, 0).is_none() {
            return false;
        }
        true
    }

    /// Whether chunk `pos` lies ahead of the observer.
    fn facing_at(&self, pos: &ChunkPos) -> (r: bool)
        requires
            view_ok(self.player.view),
            config_ok(self.config),
        ensures
            r == facing(self.player, self.config, *pos),
    {
        let v = self.player.view;
        let c = self.player.chunk;
        let vx: i128 = v.x as i128;
        let vy: i128 = v.y as i128;
        let vz: i128 = v.z as i128;
        let dx: i128 = c.x as i128 - pos.x as i128;
        let dy: i128 = c.y as i128 - pos.y as i128;
        let dz: i128 = c.z as i128 - pos.z as i128;
        assert(-0x400_0000_0000 <= vx * dx <= 0x400_0000_0000) by (nonlinear_arith)
            requires -1024 <= vx <= 1024, -0x1_0000_0000 <= dx <= 0x1_0000_0000;
        assert(-0x400_0000_0000 <= vy * dy <= 0x400_0000_0000) by (nonlinear_arith)
            requires -1024 <= vy <= 1024, -0x1_0000_0000 <= dy <= 0x1_0000_0000;
        assert(-0x400_0000_0000 <= vz * dz <= 0x400_0000_0000) by (nonlinear_arith)
            requires -1024 <= vz <= 1024, -0x1_0000_0000 <= dz <= 0x1_0000_0000;
        let dot: i128 = vx * dx + vy * dy + vz * dz;
        assert(0 <= dot * dot <= 0x100_0000_0000_0000_0000_0000) by (nonlinear_arith)
            requires -0x1000_0000_0000 <= dot <= 0x1000_0000_0000;
        let lhs: i128 = 10000 * (dot * dot);
        assert(0 <= vx * vx <= 0x10_0000 && 0 <= vy * vy <= 0x10_0000 && 0 <= vz * vz <= 0x10_0000)
            by (nonlinear_arith)
            requires -1024 <= vx <= 1024, -1024 <= vy <= 1024, -1024 <= vz <= 1024;
        let vl2: i128 = vx * vx + vy * vy + vz * vz;
        let dd2: i128 = c.get_distance2(pos);
        assert(dd2 <= 0x3_0000_0000_0000_0000) by {
            assert(dx * dx <= 0x1_0000_0000_0000_0000) by (nonlinear_arith)
                requires -0x1_0000_0000 <= dx <= 0x1_0000_0000;
            assert(dy * dy <= 0x1_0000_0000_0000_0000) by (nonlinear_arith)
                requires -0x1_0000_0000 <= dy <= 0x1_0000_0000;
            assert(dz * dz <= 0x1_0000_0000_0000_0000) by (nonlinear_arith)
                requires -0x1_0000_0000 <= dz <= 0x1_0000_0000;
        }
        assert(0 <= vl2 * dd2 <= 0x100_0000_0000_0000_0000_0000) by (nonlinear_arith)
            requires 0 <= vl2 <= 0x30_0000, 0 <= dd2 <= 0x3_0000_0000_0000_0000;
        let t: i128 = self.config.facing_threshold_pct as i128;
        assert(0 <= t * t <= 10000) by (nonlinear_arith)
            requires 0 <= t <= 100;
        let prod: i128 = vl2 * dd2;
        assert(0 <= (t * t) * prod <= 10000 * 0x100_0000_0000_0000_0000_0000) by (nonlinear_arith)
            requires 0 <= t * t <= 10000, 0 <= prod <= 0x100_0000_0000_0000_0000_0000;
        let rhs: i128 = (t * t) * prod;
        dot < 0 && lhs > rhs
    }

    /// Whether chunk `pos` goes into the mesh queue, and the bonus taken off
    /// its score.
    pub fn should_generate_vertex_buffers(&self, pos: ChunkPos) -> (r: (bool, i128))
        requires
            self.wf(),
        ensures
            r.0 == self.mesh_eligible(pos),
            r.1 == if r.0 && facing(self.player, self.config, pos) {
                self.config.facing_bonus as int
            } else {
                0
            },
    {
        if self.world.get_chunk(&pos).is_none() {
            return (false, 0);
        }
        let distance = pos.get_distance2(&self.player.chunk);
        let rd: i128 = self.player.render_distance as i128;
        assert(rd * rd <= 0x1_0000_0000_0000_0000) by (nonlinear_arith)
            requires 0 <= rd <= 0x1_0000_0000;
        if distance > rd * rd {
            return (false, 0);
        }
        if !self.neighbors_loaded(&pos) {
            return (false, 0);
        }
        if self.find_rendered(&pos).is_some() {
            return (false, 0);
        }
        if self.facing_at(&pos) {
            return (true, self.config.facing_bonus as i128);
        }
        (true, 0)
    }

    /// The mesh queue of the current state: every chunk that may get geometry,
    /// with its score, lowest score first.
    pub fn vertex_buffers_to_generate(&self) -> (r: Vec<(i128, ChunkPos)>)
        requires
            self.wf(),
        ensures
            self.is_mesh_queue_of(r@),
    {
        let mut out: Vec<(i128, ChunkPos)> = Vec::new();
        let ghost mut ks: Seq<int> = Seq::empty();
        let ghost mut ls: Seq<int> = Seq::empty();
        let n = self.world.meta_chunks.len();
        let mut i: usize = 0;
        while i < n
            invariant
                self.wf(),
                n == self.world.meta_chunks@.len(),
                i <= n,
                ks.len() == out@.len(),
                ls.len() == out@.len(),
                forall|a: int|
                    0 <= a < out@.len() ==> 0 <= #[trigger] ks[a] < i && 0 <= ls[a] < 64 && out@[a].1
                        == self.meta_chunk_at(ks[a], ls[a]),
                forall|a: int, b: int|
                    0 <= a < b < out@.len() ==> #[trigger] out@[a].1 != #[trigger] out@[b].1,
                forall|k: int|
                    0 <= k < out@.len() ==> (#[trigger] out@[k]).0 == mesh_score(
                        self.player,
                        self.config,
                        out@[k].1,
                    ) && self.mesh_eligible(out@[k].1),
                forall|k: int, l: int|
                    0 <= k < i && 0 <= l < 64 && self.mesh_eligible(#[trigger] self.meta_chunk_at(k, l))
                        ==> out@.contains(
                        (
                            mesh_score(self.player, self.config, self.meta_chunk_at(k, l)) as i128,
                            self.meta_chunk_at(k, l),
                        ),
                    ),
            decreases n - i,
        {
            let mut j: usize = 0;
            assert(self.world.meta_chunks@[i as int].wf());
            while j < 64
                invariant
                    self.wf(),
                    n == self.world.meta_chunks@.len(),
                    i < n,
                    j <= 64,
                    ks.len() == out@.len(),
                    ls.len() == out@.len(),
                    forall|a: int|
                        0 <= a < out@.len() ==> 0 <= #[trigger] ks[a] <= i && 0 <= ls[a] < 64 && (ks[a]
                            < i || ls[a] < j) && out@[a].1 == self.meta_chunk_at(ks[a], ls[a]),
                    forall|a: int, b: int|
                        0 <= a < b < out@.len() ==> #[trigger] out@[a].1 != #[trigger] out@[b].1,
                    self.world.meta_chunks@[i as int].wf(),
                    forall|k: int|
                        0 <= k < out@.len() ==> (#[trigger] out@[k]).0 == mesh_score(
                            self.player,
                            self.config,
                            out@[k].1,
                        ) && self.mesh_eligible(out@[k].1),
                    forall|k: int, l: int|
                        0 <= k <= i && 0 <= l < 64 && (k < i || l < j) && self.mesh_eligible(
                            #[trigger] self.meta_chunk_at(k, l),
                        ) ==> out@.contains(
                            (
                                mesh_score(self.player, self.config, self.meta_chunk_at(k, l)) as i128,
                                self.meta_chunk_at(k, l),
                            ),
                        ),
                decreases 64 - j,
            {
                let pos = self.world.meta_chunks[i].chunks[j].pos;
                assert(pos == self.meta_chunk_at(i as int, j as int));
                let (should_gen, bonus) = self.should_generate_vertex_buffers(pos);
                if should_gen {
                    let distance = pos.get_distance2(&self.player.chunk);
                    assert(distance <= 0x3_0000_0000_0000_0000) by {
                        let dx = pos.x - self.player.chunk.x;
                        let dy = pos.y - self.player.chunk.y;
                        let dz = pos.z - self.player.chunk.z;
                        assert(dx * dx <= 0x1_0000_0000_0000_0000) by (nonlinear_arith)
                            requires -0x1_0000_0000 <= dx <= 0x1_0000_0000;
                        assert(dy * dy <= 0x1_0000_0000_0000_0000) by (nonlinear_arith)
                            requires -0x1_0000_0000 <= dy <= 0x1_0000_0000;
                        assert(dz * dz <= 0x1_0000_0000_0000_0000) by (nonlinear_arith)
                            requires -0x1_0000_0000 <= dz <= 0x1_0000_0000;
                    }
                    let ghost before = out@;
                    let score: i128 = distance - bonus;
                    proof {
                        assert forall|a: int| 0 <= a < out@.len() implies out@[a].1 != pos by {
                            let ka = ks[a];
                            let la = ls[a];
                            assert(self.world.meta_chunks@[ka].wf());
                            lemma_chunk_in_meta(self.world.meta_chunks@[ka].pos, la);
                            lemma_chunk_in_meta(self.world.meta_chunks@[i as int].pos, j as int);
                            if out@[a].1 == pos {
                                assert(self.world.meta_chunks@[ka].pos == self.world.meta_chunks@[i as int].pos);
                                assert(ka == i);
                                assert(la == j);
                            }
                        }
                    }
                    let ghost before_out = out@;
                    out.push((score, pos));
                    proof {
                        ks = ks.push(i as int);
                        ls = ls.push(j as int);
                        assert forall|a: int, b: int|
                            0 <= a < b < out@.len() implies #[trigger] out@[a].1 != #[trigger] out@[b].1 by {
                            if b == out@.len() - 1 {
                                assert(out@[a] == before_out[a]);
                            } else {
                                assert(before_out[a].1 != before_out[b].1);
                            }
                        }
                        assert forall|a: int|
                            0 <= a < out@.len() implies 0 <= #[trigger] ks[a] <= i && 0 <= ls[a] < 64
                            && (ks[a] < i || ls[a] < j + 1) && out@[a].1 == self.meta_chunk_at(ks[a], ls[a]) by {
                            if a < out@.len() - 1 {
                                assert(out@[a] == before_out[a]);
                            }
                        }
                        assert forall|k: int, l: int|
                            0 <= k <= i && 0 <= l < 64 && (k < i || l < j + 1) && self.mesh_eligible(
                                #[trigger] self.meta_chunk_at(k, l),
                            ) implies out@.contains(
                            (
                                mesh_score(self.player, self.config, self.meta_chunk_at(k, l)) as i128,
                                self.meta_chunk_at(k, l),
                            ),
                        ) by {
                            let e = (
                                mesh_score(self.player, self.config, self.meta_chunk_at(k, l)) as i128,
                                self.meta_chunk_at(k, l),
                            );
                            lemma_push_contains(before, (score, pos), e);
                        }
                    }
                }
                j = j + 1;
            }
            i = i + 1;
        }
        let ghost collected = out@;
        sort_by_score(&mut out);
        proof {
            assert forall|e: (i128, ChunkPos)| #[trigger] out@.contains(e) == collected.contains(e) by {
                assert(out@.contains(e) == (out@.to_multiset().count(e) > 0));
                assert(collected.contains(e) == (collected.to_multiset().count(e) > 0));
            }
            assert(collected.no_duplicates()) by {
                assert forall|a: int, b: int|
                    0 <= a < collected.len() && 0 <= b < collected.len() && a != b implies collected[a]
                    != collected[b] by {
                    if a < b {
                        assert(collected[a].1 != collected[b].1);
                    } else {
                        assert(collected[b].1 != collected[a].1);
                    }
                }
            }
            collected.lemma_multiset_has_no_duplicates();
            assert forall|x: (i128, ChunkPos)| out@.to_multiset().contains(x) implies out@.to_multiset().count(
                x,
            ) == 1 by {
                assert(collected.to_multiset().contains(x));
            }
            out@.lemma_multiset_has_no_duplicates_conv();
            assert forall|a: int, b: int| 0 <= a < b < out@.len() implies #[trigger] out@[a].1
                != #[trigger] out@[b].1 by {
                assert(out@.contains(out@[a]));
                assert(out@.contains(out@[b]));
                let a2 = choose|a2: int| 0 <= a2 < collected.len() && collected[a2] == out@[a];
                let b2 = choose|b2: int| 0 <= b2 < collected.len() && collected[b2] == out@[b];
                if out@[a].1 == out@[b].1 {
                    if a2 < b2 {
                        assert(collected[a2].1 != collected[b2].1);
                    } else if b2 < a2 {
                        assert(collected[b2].1 != collected[a2].1);
                    }
                    assert(out@[a] == out@[b]);
                }
            }
            assert forall|k: int|
                0 <= k < out@.len() implies (#[trigger] out@[k]).0 == mesh_score(
                self.player,
                self.config,
                out@[k].1,
            ) && self.mesh_eligible(out@[k].1) by {
                assert(out@.contains(out@[k]));
                let k2 = choose|k2: int| 0 <= k2 < collected.len() && collected[k2] == out@[k];
                assert(collected[k2] == out@[k]);
            }
            assert forall|p: ChunkPos| #[trigger] self.mesh_eligible(p) implies out@.contains(
                (mesh_score(self.player, self.config, p) as i128, p),
            ) by {
                let m = meta_of(p);
                let k = choose|k: int|
                    0 <= k < self.world.meta_chunks@.len() && #[trigger] self.world.meta_chunks@[k].pos == m;
                lemma_local_index(p);
                let l = local_index(p);
                assert(self.meta_chunk_at(k, l) == p);
                assert(collected.contains((mesh_score(self.player, self.config, p) as i128, p)));
            }
        }
        out
    }

    /// One step of the time-boxed mesh drain. With `elapsed` time spent out of
    /// `budget`, hands out the chunk at the front of the mesh queue (the lowest
    /// score) and takes it off the queue; once the budget is spent, or the
    /// queue is empty, hands out nothing and changes nothing, so the rest of
    /// the queue waits for the next call.
    pub fn next_mesh_job(&mut self, elapsed: u64, budget: u64) -> (r: Option<ChunkPos>)
        requires
            old(self).wf(),
        ensures
            final(self).wf(),
            elapsed >= budget || old(self).to_generate@.len() == 0 ==> r.is_none() && *final(self)
                == *old(self),
            elapsed < budget && old(self).to_generate@.len() > 0 ==> {
                &&& r == Some(old(self).to_generate@[0].1)
                &&& final(self).to_generate@ == old(self).to_generate@.subrange(
                    1,
                    old(self).to_generate@.len() as int,
                )
                &&& forall|k: int|
                    0 <= k < final(self).to_generate@.len() ==> old(self).to_generate@[0].0
                        <= #[trigger] final(self).to_generate@[k].0
                &&& final(self).world == old(self).world
                &&& final(self).chunk_render_data == old(self).chunk_render_data
                &&& final(self).loading_chunks == old(self).loading_chunks
                &&& final(self).player == old(self).player
                &&& final(self).generated_chunks_for == old(self).generated_chunks_for
                &&& final(self).reload_vertex_load_order == old(self).reload_vertex_load_order
                &&& final(self).config == old(self).config
            },
    {
        if elapsed >= budget || self.to_generate.len() == 0 {
            return None;
        }
        let ghost pre = *self;
        let (_, pos) = self.to_generate.remove(0);
        proof {
            Self::lemma_same_loading(*self, pre);
            assert(self.to_generate@ == pre.to_generate@.subrange(1, pre.to_generate@.len() as int));
            assert forall|a: int, b: int| 0 <= a < b < self.to_generate@.len() implies
                #[trigger] self.to_generate@[a].0 <= #[trigger] self.to_generate@[b].0 by {
                assert(pre.to_generate@[a + 1].0 <= pre.to_generate@[b + 1].0);
            }
            assert forall|k: int| 0 <= k < self.to_generate@.len() implies pre.to_generate@[0].0
                <= #[trigger] self.to_generate@[k].0 by {
                assert(pre.to_generate@[0].0 <= pre.to_generate@[k + 1].0);
            }
        }
        Some(pos)
    }

    /// Stores the geometry built for `pos`. It is accepted only when the chunk
    /// and every neighbour that its mesh needs are loaded; it then replaces any
    /// geometry held for `pos`. Returns whether it was accepted.
    pub fn store_render_data(&mut self, pos: ChunkPos, data: R) -> (accepted: bool)
        requires
            old(self).wf(),
        ensures
            final(self).wf(),
            accepted == (old(self).world.has_chunk(pos) && neighbors_present(old(self).world, pos)),
            forall|p: ChunkPos| #[trigger]
                final(self).rendered(p) == (old(self).rendered(p) || (accepted && p == pos)),
            accepted ==> final(self).chunk_render_data@.contains((pos, data)),
            forall|i: int|
                0 <= i < old(self).chunk_render_data@.len() && old(self).chunk_render_data@[i].0 != pos
                    ==> final(self).chunk_render_data@.contains(#[trigger] old(self).chunk_render_data@[i]),
            final(self).world == old(self).world,
            final(self).loading_chunks == old(self).loading_chunks,
            final(self).player == old(self).player,
            final(self).generated_chunks_for == old(self).generated_chunks_for,
            final(self).reload_vertex_load_order == old(self).reload_vertex_load_order,
            final(self).to_generate == old(self).to_generate,
            final(self).config == old(self).config,
    {
        if self.world.get_chunk(&pos).is_none() || !self.neighbors_loaded(&pos) {
            return false;
        }
        let ghost pre = *self;
        match self.find_rendered(&pos) {
            Some(i) => {
                self.chunk_render_data.set(i, (pos, data));
                proof {
                    assert forall|k: int|
                        0 <= k < pre.chunk_render_data@.len() && pre.chunk_render_data@[k].0 != pos
                            implies self.chunk_render_data@.contains(#[trigger] pre.chunk_render_data@[k]) by {
                        assert(self.chunk_render_data@[k] == pre.chunk_render_data@[k]);
                    }
                    assert(self.chunk_render_data@[i as int] == (pos, data));
                    assert forall|p: ChunkPos| #[trigger] self.rendered(p) == (pre.rendered(p) || p == pos) by {
                        if p == pos {
                            assert(self.chunk_render_data@[i as int].0 == p);
                        }
                        if pre.rendered(p) {
                            let k = choose|k: int|
                                0 <= k < pre.chunk_render_data@.len() && #[trigger] pre.chunk_render_data@[k].0 == p;
                            assert(self.chunk_render_data@[k].0 == p);
                        }
                        if self.rendered(p) && p != pos {
                            let k = choose|k: int|
                                0 <= k < self.chunk_render_data@.len() && #[trigger] self.chunk_render_data@[k].0 == p;
                            assert(pre.chunk_render_data@[k].0 == p);
                        }
                    }
                }
            },
            None => {
                self.chunk_render_data.push((pos, data));
                proof {
                    assert forall|k: int|
                        0 <= k < pre.chunk_render_data@.len() && pre.chunk_render_data@[k].0 != pos
                            implies self.chunk_render_data@.contains(#[trigger] pre.chunk_render_data@[k]) by {
                        assert(self.chunk_render_data@[k] == pre.chunk_render_data@[k]);
                    }
                    let n = pre.chunk_render_data@.len() as int;
                    assert(self.chunk_render_data@[n] == (pos, data));
                    assert forall|p: ChunkPos| #[trigger] self.rendered(p) == (pre.rendered(p) || p == pos) by {
                        if p == pos {
                            assert(self.chunk_render_data@[n].0 == p);
                        }
                        if pre.rendered(p) {
                            let k = choose|k: int|
                                0 <= k < pre.chunk_render_data@.len() && #[trigger] pre.chunk_render_data@[k].0 == p;
                            assert(self.chunk_render_data@[k].0 == p);
                        }
                        if self.rendered(p) && p != pos {
                            let k = choose|k: int|
                                0 <= k < self.chunk_render_data@.len() && #[trigger] self.chunk_render_data@[k].0 == p;
                            assert(pre.chunk_render_data@[k].0 == p);
                        }
                    }
                    assert forall|a: int, b: int|
                        0 <= a < b < self.chunk_render_data@.len() implies #[trigger] self.chunk_render_data@[a].0
                        != #[trigger] self.chunk_render_data@[b].0 by {
                        if b == n {
                            assert(pre.rendered(self.chunk_render_data@[a].0));
                        }
                    }
                }
            },
        }
        proof {
            Self::lemma_same_loading(*self, pre);
        }
        true
    }

    /// One tick of the streaming core for the observer `player`. The world
    /// clock advances. When the observer changed chunk since the last
    /// reconciliation, or the world changed (a meta-chunk came in), the tick
    /// reconciles (see `on_player_moved_chunks`) and rebuilds the mesh queue;
    /// otherwise the partly drained queue is kept. Returns the meta-chunks for
    /// which the caller must send generation requests, closest first.
    pub fn on_game_tick(&mut self, player: Observer) -> (requests: Vec<MetaChunkPos>)
        requires
            old(self).wf(),
            view_ok(player.view),
        ensures
            final(self).wf(),
            final(self).player == player,
            final(self).config == old(self).config,
            final(self).world.world_seed == old(self).world.world_seed,
            final(self).world.time == if old(self).world.time < u64::MAX {
                old(self).world.time + 1
            } else {
                old(self).world.time as int
            },
            old(self).generated_chunks_for != Some(player.chunk) || old(self).reload_vertex_load_order
                ==> {
                &&& forall|m: MetaChunkPos| #[trigger]
                    requests@.contains(m) == request_candidate(
                        old(self).world,
                        old(self).loading_chunks@,
                        player,
                        old(self).config,
                        m,
                    )
                &&& requests@.no_duplicates()
                &&& forall|i: int, j: int|
                    0 <= i < j < requests@.len() ==> centre_dist2(player.chunk, #[trigger] requests@[i])
                        <= centre_dist2(player.chunk, #[trigger] requests@[j])
                &&& forall|m: MetaChunkPos| #[trigger]
                    final(self).loading(m) == (old(self).loading(m) || requests@.contains(m))
                &&& forall|m: MetaChunkPos| #[trigger]
                    final(self).world.resident(m) == (old(self).world.resident(m) && within_unload(
                        player,
                        old(self).config,
                        m,
                    ))
                &&& forall|p: ChunkPos| #[trigger]
                    final(self).rendered(p) == (old(self).rendered(p) && within_unload(
                        player,
                        old(self).config,
                        meta_of(p),
                    ))
                &&& forall|i: int|
                    0 <= i < old(self).world.meta_chunks@.len() && within_unload(
                        player,
                        old(self).config,
                        old(self).world.meta_chunks@[i].pos,
                    ) ==> final(self).world.meta_chunks@.contains(
                        #[trigger] old(self).world.meta_chunks@[i],
                    )
                &&& forall|i: int|
                    0 <= i < old(self).chunk_render_data@.len() && within_unload(
                        player,
                        old(self).config,
                        meta_of(old(self).chunk_render_data@[i].0),
                    ) ==> final(self).chunk_render_data@.contains(
                        #[trigger] old(self).chunk_render_data@[i],
                    )
                &&& final(self).is_mesh_queue_of(final(self).to_generate@)
                &&& final(self).generated_chunks_for == Some(player.chunk)
                &&& !final(self).reload_vertex_load_order
            },
            !(old(self).generated_chunks_for != Some(player.chunk) || old(self).reload_vertex_load_order)
                ==> {
                &&& requests@.len() == 0
                &&& final(self).world.meta_chunks == old(self).world.meta_chunks
                &&& final(self).chunk_render_data == old(self).chunk_render_data
                &&& final(self).loading_chunks == old(self).loading_chunks
                &&& final(self).to_generate == old(self).to_generate
                &&& final(self).generated_chunks_for == old(self).generated_chunks_for
                &&& final(self).reload_vertex_load_order == old(self).reload_vertex_load_order
            },
    {
        let ghost pre = *old(self);
        self.player = player;
        self.world.update();
        proof {
            World::lemma_same_resident(self.world, pre.world);
            Self::lemma_same_loading(*self, pre);
            Self::lemma_same_rendered(*self, pre);
            assert forall|m: MetaChunkPos| #[trigger]
                request_candidate(self.world, self.loading_chunks@, player, self.config, m)
                    == request_candidate(pre.world, pre.loading_chunks@, player, pre.config, m) by {
            }
        }
        let moved = match self.generated_chunks_for {
            Some(c) => c != player.chunk,
            None => true,
        };
        if !(moved || self.reload_vertex_load_order) {
            return Vec::new();
        }
        let requests = self.on_player_moved_chunks();
        let ghost mid = *self;
        let queue = self.vertex_buffers_to_generate();
        self.to_generate = queue;
        self.generated_chunks_for = Some(player.chunk);
        self.reload_vertex_load_order = false;
        proof {
            Self::lemma_same_loading(*self, mid);
            Self::lemma_same_rendered(*self, mid);
            assert forall|p: ChunkPos| #[trigger] self.mesh_eligible(p) == mid.mesh_eligible(p) by {}
            assert(mid.is_mesh_queue_of(queue@));
            assert forall|m: MetaChunkPos| #[trigger] self.loading(m) implies !self.world.resident(m) by {
                assert(mid.loading(m));
            }
        }
        requests
    }

    /// Takes `pos` out of the loading set after its request could not be sent;
    /// the next reconciliation asks for it again.
    pub fn on_request_failed(&mut self, pos: MetaChunkPos)
        requires
            old(self).wf(),
        ensures
            final(self).wf(),
            forall|m: MetaChunkPos| #[trigger] final(self).loading(m) == (old(self).loading(m) && m != pos),
            final(self).world == old(self).world,
            final(self).chunk_render_data == old(self).chunk_render_data,
            final(self).player == old(self).player,
            final(self).generated_chunks_for == old(self).generated_chunks_for,
            final(self).reload_vertex_load_order == old(self).reload_vertex_load_order,
            final(self).to_generate == old(self).to_generate,
            final(self).config == old(self).config,
    {
        match self.find_loading(&pos) {
            None => {},
            Some(i) => {
                self.loading_chunks.remove(i);
                proof {
                    let s = old(self).loading_chunks@;
                    assert(self.loading_chunks@ == s.remove(i as int));
                    assert forall|m: MetaChunkPos| #[trigger]
                        self.loading(m) == (old(self).loading(m) && m != pos) by {
                        if old(self).loading(m) && m != pos {
                            let k = choose|k: int| 0 <= k < s.len() && s[k] == m;
                            if k < i {
                                assert(self.loading_chunks@[k] == m);
                            } else {
                                assert(k != i);
                                assert(self.loading_chunks@[k - 1] == m);
                            }
                        }
                        if self.loading(m) {
                            let k = choose|k: int|
                                0 <= k < self.loading_chunks@.len() && self.loading_chunks@[k] == m;
                            if k < i {
                                assert(s[k] == m);
                            } else {
                                assert(s[k + 1] == m);
                                assert(s[i as int] == pos);
                            }
                        }
                    }
                    assert(self.loading_chunks@.no_duplicates()) by {
                        assert forall|a: int, b: int|
                            0 <= a < b < self.loading_chunks@.len() implies self.loading_chunks@[a]
                            != self.loading_chunks@[b] by {
                            let a2 = if a < i { a } else { a + 1 };
                            let b2 = if b < i { b } else { b + 1 };
                            assert(s[a2] == self.loading_chunks@[a]);
                            assert(s[b2] == self.loading_chunks@[b]);
                        }
                    }
                }
            },
        }
    }
}

/// In every well-formed state no meta-chunk is both being generated and
/// loaded, and the loading set holds each position at most once.
pub proof fn lemma_loading_exclusive<R>(w: PersonalWorld<R>)
    requires
        w.wf(),
    ensures
        forall|m: MetaChunkPos| !(#[trigger] w.loading(m) && w.world.resident(m)),
        w.loading_chunks@.no_duplicates(),
{
}

/// Load requests are idempotent: after `load_chunk(pos)`, whether or not it
/// issued a request, a second `load_chunk(pos)` issues none.
pub proof fn lemma_load_requests_once<R>(
    pre: PersonalWorld<R>,
    post: PersonalWorld<R>,
    pos: MetaChunkPos,
    issued: bool,
)
    requires
        pre.wf(),
        PersonalWorld::load_chunk_post(pre, post, pos, issued),
    ensures
        !post.load_issues(pos),
{
    if issued {
        lemma_push_contains(pre.loading_chunks@, pos, pos);
    } else {
        if !pre.world.resident(pos) {
            assert(pre.loading(pos));
        }
    }
}

/// A mesh queue hands out its chunks in non-decreasing order of score: the
/// front entry scores no more than any later one.
pub proof fn lemma_mesh_queue_front_first(q: Seq<(i128, ChunkPos)>, k: int)
    requires
        sorted_by_key(q),
        0 < k < q.len(),
    ensures
        q[0].0 <= q[k].0,
{
}

} // verus!
