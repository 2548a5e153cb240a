use voxel_stream::block::{get_blockid, get_blocktype, is_opaque, should_render_against, BlockType};
use voxel_stream::main_loop::MainLoop;
use voxel_stream::personal_world::{Observer, PersonalWorld, StreamConfig, ViewDir};
use voxel_stream::positions::{meta_coord_of, ChunkPos, MetaChunkPos};
use voxel_stream::world::{MetaChunk, World};
use voxel_stream::worldgen::generate_meta_chunk;

fn observer_at(x: i32, y: i32, z: i32, render_distance: u32) -> Observer {
    Observer {
        chunk: ChunkPos { x, y, z },
        view: ViewDir { x: 0, y: 0, z: 1024 },
        render_distance,
    }
}

fn config() -> StreamConfig {
    StreamConfig { gen_radius: 3, unload_radius: 4, facing_threshold_pct: 50, facing_bonus: 1000 }
}

fn meta(x: i32, z: i32) -> MetaChunkPos {
    MetaChunkPos { x, z }
}

fn core_at(x: i32, z: i32) -> PersonalWorld<u32> {
    PersonalWorld::new(7, observer_at(x, 0, z, 2), config())
}

fn feed(w: &mut PersonalWorld<u32>, x: i32, z: i32) -> bool {
    let m = generate_meta_chunk(w.world.world_seed, meta(x, z));
    w.load_generated_chunks(meta(x, z), m)
}

fn centre_d2(c: ChunkPos, m: MetaChunkPos) -> i64 {
    let dx = (16 * c.x as i64 + 8) - (64 * m.x as i64 + 32);
    let dz = (16 * c.z as i64 + 8) - (64 * m.z as i64 + 32);
    dx * dx + dz * dz
}

#[test]
fn block_ids_round_trip() {
    for id in 0u8..7 {
        assert_eq!(get_blockid(get_blocktype(id)), id);
    }
    assert_eq!(get_blocktype(3), BlockType::Stone);
    assert_eq!(get_blocktype(7), BlockType::Unknown);
    assert_eq!(get_blocktype(200), BlockType::Unknown);
    assert_eq!(get_blockid(BlockType::Unknown), 255);
    assert_eq!(get_blockid(BlockType::Leaf), 6);
}

#[test]
fn faces_render_against_open_neighbors_only() {
    assert!(!should_render_against(3, 3));
    assert!(!should_render_against(5, 3));
    assert!(should_render_against(3, 5));
    assert!(should_render_against(3, 1));
    assert!(should_render_against(0, 6));
    assert!(!should_render_against(1, 2));
    assert!(is_opaque(4));
    assert!(!is_opaque(1));
}

#[test]
fn meta_coordinates_floor_negative_chunks() {
    assert_eq!(meta_coord_of(0), 0);
    assert_eq!(meta_coord_of(3), 0);
    assert_eq!(meta_coord_of(4), 1);
    assert_eq!(meta_coord_of(-1), -1);
    assert_eq!(meta_coord_of(-4), -1);
    assert_eq!(meta_coord_of(-5), -2);
    assert_eq!(meta_coord_of(i32::MIN), -(1 << 29));
    assert_eq!(meta_coord_of(i32::MAX), (1 << 29) - 1);
    let p = ChunkPos { x: -1, y: 2, z: 9 };
    assert_eq!(p.get_meta_chunk_pos(), meta(-1, 2));
}

#[test]
fn squared_distances() {
    let a = ChunkPos { x: 1, y: 2, z: 3 };
    let b = ChunkPos { x: -2, y: 2, z: 7 };
    assert_eq!(a.get_distance2(&b), 25);
    assert_eq!(meta(0, 0).get_distance2(&meta(-3, 4)), 25);
    let far = ChunkPos { x: i32::MIN, y: i32::MIN, z: i32::MIN };
    let near = ChunkPos { x: i32::MAX, y: i32::MAX, z: i32::MAX };
    assert_eq!(far.get_distance2(&near), 3 * (u32::MAX as i128) * (u32::MAX as i128));
    assert_eq!(meta(2, -1).chunk_at(0), ChunkPos { x: 8, y: 0, z: -4 });
    assert_eq!(meta(2, -1).chunk_at(63), ChunkPos { x: 11, y: 3, z: -1 });
}

#[test]
fn generation_is_deterministic() {
    let a = generate_meta_chunk(12345, meta(-3, 5));
    let b = generate_meta_chunk(12345, meta(-3, 5));
    assert_eq!(a.pos, b.pos);
    assert_eq!(a.chunks.len(), 64);
    for i in 0..64 {
        assert_eq!(a.chunks[i].pos, b.chunks[i].pos);
        assert_eq!(a.chunks[i].blocks, b.chunks[i].blocks);
    }
    let c = generate_meta_chunk(12346, meta(-3, 5));
    assert!((0..64).any(|i| a.chunks[i].blocks != c.chunks[i].blocks));
    assert!(a.check_wf());
}

#[test]
fn generation_layers() {
    let m = generate_meta_chunk(0, meta(0, 0));
    // column (0, 0) has its surface at height 24
    assert_eq!(m.chunks[0].blocks[0], 3);
    assert_eq!(m.chunks[4].pos, ChunkPos { x: 0, y: 1, z: 0 });
    assert_eq!(m.chunks[4].blocks[128], 4);
    assert_eq!(m.chunks[4].blocks[112], 2);
    assert_eq!(m.chunks[4].blocks[224], 1);
    assert_eq!(m.chunks[8].blocks[128], 5);
    // column (3, 0) has its surface at height 33, above the water
    assert_eq!(m.chunks[8].blocks[784], 0);
}

#[test]
fn malformed_meta_chunk_is_refused() {
    let mut w = core_at(0, 0);
    w.check_chunks_to_generate();
    let mut m = generate_meta_chunk(7, meta(0, 0));
    m.chunks.pop();
    assert!(!m.check_wf());
    assert!(!w.load_generated_chunks(meta(0, 0), m));
    assert!(!w.world.chunk_exists_or_generating(&meta(0, 0)));
    assert!(!w.loading_chunks.contains(&meta(0, 0)));
    let other = generate_meta_chunk(7, meta(1, 0));
    assert!(!w.load_generated_chunks(meta(0, 0), other));
}

#[test]
fn world_store_operations() {
    let mut world = World::new(9);
    assert_eq!(world.time, 0);
    world.update();
    world.update();
    assert_eq!(world.time, 2);
    assert!(world.get_chunk(&ChunkPos { x: 0, y: 0, z: 0 }).is_none());
    world.add_chunk(generate_meta_chunk(9, meta(0, 0)));
    world.add_chunk(generate_meta_chunk(9, meta(0, 0)));
    assert_eq!(world.meta_chunks.len(), 1);
    world.add_chunk(generate_meta_chunk(9, meta(3, 3)));
    world.add_chunk(generate_meta_chunk(10, meta(0, 0)));
    assert_eq!(world.meta_chunks.len(), 2);
    let fresh = generate_meta_chunk(10, meta(0, 0));
    let at_origin = world.get_chunk(&ChunkPos { x: 0, y: 1, z: 0 }).unwrap();
    assert_eq!(at_origin.blocks, fresh.chunks[4].blocks);
    let kept = generate_meta_chunk(9, meta(3, 3));
    assert_eq!(world.get_chunk(&ChunkPos { x: 13, y: 2, z: 12 }).unwrap().blocks, kept.chunks[16 + 8].blocks);
    world.filter_chunks(meta(0, 0), 0);
    assert!(world.get_chunk(&ChunkPos { x: 13, y: 2, z: 12 }).is_none());
    let c = world.get_chunk(&ChunkPos { x: 2, y: 3, z: 1 }).unwrap();
    assert_eq!(c.pos, ChunkPos { x: 2, y: 3, z: 1 });
    assert!(world.get_chunk(&ChunkPos { x: 2, y: 4, z: 1 }).is_none());
    assert!(world.get_chunk(&ChunkPos { x: 4, y: 0, z: 0 }).is_none());
    assert!(world.get_neighbor(&ChunkPos { x: 3, y: 0, z: 0 }, -1, 0, 0).is_some());
    assert!(world.get_neighbor(&ChunkPos { x: 3, y: 0, z: 0 }, 1, 0, 0).is_none());
    world.add_chunk(generate_meta_chunk(9, meta(-1, 0)));
    assert!(world.get_chunk(&ChunkPos { x: -1, y: 0, z: 3 }).is_some());
    world.add_chunk(generate_meta_chunk(9, meta(5, 0)));
    world.filter_chunks(meta(0, 0), 1);
    assert!(world.chunk_exists_or_generating(&meta(0, 0)));
    assert!(world.chunk_exists_or_generating(&meta(-1, 0)));
    assert!(!world.chunk_exists_or_generating(&meta(5, 0)));
    assert_eq!(world.find_meta(&meta(-1, 0)).map(|i| world.meta_chunks[i].pos), Some(meta(-1, 0)));
}

#[test]
fn reconciliation_requests_closest_first() {
    let mut w = core_at(0, 0);
    let requests = w.check_chunks_to_generate();
    assert_eq!(requests.len(), 81);
    assert_eq!(requests[0], meta(0, 0));
    for x in -4..=4 {
        for z in -4..=4 {
            assert!(requests.contains(&meta(x, z)));
        }
    }
    let origin = ChunkPos { x: 0, y: 0, z: 0 };
    for i in 1..requests.len() {
        assert!(centre_d2(origin, requests[i - 1]) <= centre_d2(origin, requests[i]));
    }
    // seen from chunk (0, 0, 0), meta-chunk (-1, -1) is nearer than (1, 0)
    let pos_of = |m: MetaChunkPos| requests.iter().position(|r| *r == m).unwrap();
    assert!(pos_of(meta(-1, -1)) < pos_of(meta(1, 0)));
    assert_eq!(w.loading_chunks.len(), 81);
    let again = w.check_chunks_to_generate();
    assert!(again.is_empty());
}

#[test]
fn requests_ordered_from_observer_chunk() {
    let mut w = core_at(3, 3);
    let requests = w.check_chunks_to_generate();
    assert_eq!(requests.len(), 81);
    assert_eq!(requests[0], meta(0, 0));
    let c = ChunkPos { x: 3, y: 0, z: 3 };
    for i in 1..requests.len() {
        assert!(centre_d2(c, requests[i - 1]) <= centre_d2(c, requests[i]));
    }
    let pos_of = |m: MetaChunkPos| requests.iter().position(|r| *r == m).unwrap();
    assert!(pos_of(meta(1, 1)) < pos_of(meta(-1, 0)));
    assert_eq!(meta(1, 1).get_distance2_to_chunk(&c), 3200);
    assert_eq!(meta(-1, 0).get_distance2_to_chunk(&c), 8320);
}

#[test]
fn unload_radius_bounds_requests() {
    let mut w: PersonalWorld<u32> = PersonalWorld::new(
        7,
        observer_at(0, 0, 0, 2),
        StreamConfig { gen_radius: 3, unload_radius: 3, facing_threshold_pct: 50, facing_bonus: 1000 },
    );
    let requests = w.check_chunks_to_generate();
    assert_eq!(requests.len(), 49);
    assert!(!requests.contains(&meta(4, 0)));
    assert!(w.meta_chunk_should_be_loaded(&meta(3, -3)));
    assert!(!w.meta_chunk_should_be_loaded(&meta(3, -4)));
}

#[test]
fn example_scenario() {
    let mut w = core_at(0, 0);
    let requests = w.on_game_tick(observer_at(0, 0, 0, 2));
    assert_eq!(requests.len(), 81);
    assert_eq!(requests[0], meta(0, 0));
    assert!(w.loading_chunks.contains(&meta(0, 0)));
    assert!(feed(&mut w, 0, 0));
    assert!(!w.loading_chunks.contains(&meta(0, 0)));
    assert!(w.world.chunk_exists_or_generating(&meta(0, 0)));
    let origin = ChunkPos { x: 0, y: 0, z: 0 };
    let queue = w.vertex_buffers_to_generate();
    assert!(!queue.iter().any(|e| e.1 == origin));
    assert!(!w.should_generate_vertex_buffers(origin).0);
    assert!(feed(&mut w, -1, 0));
    assert!(!w.should_generate_vertex_buffers(origin).0);
    assert!(feed(&mut w, 0, -1));
    assert!(w.should_generate_vertex_buffers(origin).0);
    let queue = w.vertex_buffers_to_generate();
    assert!(queue.iter().any(|e| e.1 == origin));
}

#[test]
fn missing_neighbor_excludes_candidate() {
    let mut w = core_at(0, 0);
    w.check_chunks_to_generate();
    assert!(feed(&mut w, 0, 0));
    assert!(feed(&mut w, 0, -1));
    let origin = ChunkPos { x: 0, y: 0, z: 0 };
    assert!(!w.neighbors_loaded(&origin));
    assert!(!w.store_render_data(origin, 1));
    assert!(w.chunk_render_data.is_empty());
    let inner = ChunkPos { x: 1, y: 1, z: 1 };
    assert!(w.neighbors_loaded(&inner));
    assert!(w.store_render_data(inner, 2));
    let other = ChunkPos { x: 2, y: 1, z: 1 };
    assert!(w.store_render_data(other, 9));
    assert!(w.store_render_data(inner, 3));
    assert!(w.chunk_render_data.contains(&(inner, 3)));
    assert!(w.chunk_render_data.contains(&(other, 9)));
    assert_eq!(w.chunk_render_data.len(), 2);
    w.chunk_render_data.retain(|e| e.0 != other);
    assert!(!w.should_generate_vertex_buffers(inner).0);
    assert!(feed(&mut w, -1, 0));
    assert!(w.store_render_data(origin, 4));
    assert_eq!(w.chunk_render_data.len(), 2);
}

#[test]
fn top_and_bottom_layers_need_no_vertical_neighbor() {
    let mut w = core_at(0, 0);
    w.check_chunks_to_generate();
    assert!(feed(&mut w, 0, 0));
    assert!(w.neighbors_loaded(&ChunkPos { x: 1, y: 0, z: 1 }));
    assert!(w.neighbors_loaded(&ChunkPos { x: 1, y: 3, z: 1 }));
    assert!(!w.neighbors_loaded(&ChunkPos { x: 1, y: 4, z: 1 }));
}

#[test]
fn unload_drops_world_and_geometry() {
    let mut w = core_at(0, 0);
    w.on_game_tick(observer_at(0, 0, 0, 2));
    for x in -1..=1 {
        for z in -1..=1 {
            assert!(feed(&mut w, x, z));
        }
    }
    assert!(feed(&mut w, 4, 0));
    let inner = ChunkPos { x: 1, y: 1, z: 1 };
    assert!(w.store_render_data(inner, 1));
    let east = ChunkPos { x: 17, y: 1, z: 1 };
    assert!(w.world.get_chunk(&east).is_some());
    // move 4 meta-chunks to the west: (1, 0) and beyond fall outside radius 4
    let moved_to = observer_at(-16, 0, 0, 2);
    w.on_game_tick(moved_to);
    assert!(!w.world.chunk_exists_or_generating(&meta(4, 0)));
    assert!(!w.world.chunk_exists_or_generating(&meta(1, 0)));
    assert!(w.world.chunk_exists_or_generating(&meta(-1, 0)));
    assert!(w.world.chunk_exists_or_generating(&meta(0, 1)));
    assert!(w.world.get_chunk(&east).is_none());
    // kept meta-chunks keep their blocks
    let kept = generate_meta_chunk(w.world.world_seed, meta(0, 1));
    let stored = w.world.get_chunk(&ChunkPos { x: 2, y: 1, z: 5 }).unwrap();
    assert_eq!(stored.blocks, kept.chunks[16 * 2 + 4 * 1 + 1].blocks);
    // chunk (1, 1, 1) lies in meta-chunk (0, 0), which stays, with its geometry
    assert_eq!(w.chunk_render_data, vec![(inner, 1)]);
    let further = observer_at(-20, 0, 0, 2);
    w.on_game_tick(further);
    assert!(!w.world.chunk_exists_or_generating(&meta(0, 0)));
    assert!(w.chunk_render_data.is_empty());
    assert!(w.world.chunk_exists_or_generating(&meta(-1, 1)));
}

#[test]
fn load_chunk_issues_one_request() {
    let mut w = core_at(0, 0);
    assert!(w.load_chunk(meta(2, 2)));
    assert!(!w.load_chunk(meta(2, 2)));
    assert_eq!(w.loading_chunks, vec![meta(2, 2)]);
    assert!(feed(&mut w, 2, 2));
    assert!(!w.load_chunk(meta(2, 2)));
    assert!(w.loading_chunks.is_empty());
}

#[test]
fn failed_request_is_retried() {
    let mut w = core_at(0, 0);
    let first = w.check_chunks_to_generate();
    assert!(first.contains(&meta(1, 1)));
    w.on_request_failed(meta(1, 1));
    assert!(!w.loading_chunks.contains(&meta(1, 1)));
    assert_eq!(w.loading_chunks.len(), 80);
    let second = w.check_chunks_to_generate();
    assert_eq!(second, vec![meta(1, 1)]);
}

#[test]
fn mesh_drain_respects_time_budget() {
    let mut w = core_at(0, 0);
    w.on_game_tick(observer_at(0, 0, 0, 8));
    for x in -1..=1 {
        for z in -1..=1 {
            assert!(feed(&mut w, x, z));
        }
    }
    w.on_game_tick(observer_at(0, 0, 0, 8));
    let total = w.to_generate.len();
    assert!(total > 3);
    for i in 0..total {
        for j in i + 1..total {
            assert_ne!(w.to_generate[i].1, w.to_generate[j].1);
        }
    }
    for i in 1..total {
        assert!(w.to_generate[i - 1].0 <= w.to_generate[i].0);
    }
    let front = w.to_generate[0];
    // budget already spent: no work at all
    assert_eq!(w.next_mesh_job(5, 5), None);
    assert_eq!(w.to_generate.len(), total);
    // a controllable clock: each build costs 2 units, budget 5
    let mut clock: u64 = 0;
    let mut built = Vec::new();
    while let Some(pos) = w.next_mesh_job(clock, 5) {
        built.push(pos);
        clock += 2;
    }
    assert_eq!(built.len(), 3);
    assert_eq!(built[0], front.1);
    assert_eq!(w.to_generate.len(), total - 3);
    // the rest waits for the next slice
    let next = w.to_generate[0].1;
    assert_eq!(w.next_mesh_job(0, 5), Some(next));
    assert_eq!(w.to_generate.len(), total - 4);
    // a tick without movement or loads keeps the drained queue
    w.on_game_tick(observer_at(0, 0, 0, 8));
    assert_eq!(w.to_generate.len(), total - 4);
}

#[test]
fn chunks_ahead_get_bonus() {
    let mut w = core_at(0, 0);
    w.on_game_tick(observer_at(1, 1, 1, 8));
    for x in -1..=1 {
        for z in -1..=1 {
            assert!(feed(&mut w, x, z));
        }
    }
    w.on_game_tick(observer_at(1, 1, 1, 8));
    // looking towards +z: (1, 1, 3) lies ahead, (1, 1, -1) behind
    let ahead = w.should_generate_vertex_buffers(ChunkPos { x: 1, y: 1, z: 3 });
    assert_eq!(ahead, (true, 1000));
    let behind = w.should_generate_vertex_buffers(ChunkPos { x: 1, y: 1, z: -1 });
    assert_eq!(behind, (true, 0));
    let side = w.should_generate_vertex_buffers(ChunkPos { x: 3, y: 1, z: 1 });
    assert_eq!(side, (true, 0));
    let queue = &w.to_generate;
    let score_of = |p: ChunkPos| queue.iter().find(|e| e.1 == p).map(|e| e.0);
    assert_eq!(score_of(ChunkPos { x: 1, y: 1, z: 3 }), Some(4 - 1000));
    assert_eq!(score_of(ChunkPos { x: 1, y: 1, z: -1 }), Some(4));
    assert_eq!(score_of(ChunkPos { x: 1, y: 1, z: 1 }), Some(0));
}

#[test]
fn tick_advances_clock_and_reconciles_on_move() {
    let mut w = core_at(0, 0);
    let first = w.on_game_tick(observer_at(0, 0, 0, 2));
    assert_eq!(first.len(), 81);
    assert_eq!(w.world.time, 1);
    let still = w.on_game_tick(observer_at(0, 0, 0, 2));
    assert!(still.is_empty());
    assert_eq!(w.world.time, 2);
    let moved = w.on_game_tick(observer_at(4, 0, 0, 2));
    assert_eq!(moved.len(), 9);
    assert!(moved.iter().all(|m| m.x == 5));
    assert_eq!(w.generated_chunks_for, Some(ChunkPos { x: 4, y: 0, z: 0 }));
}

#[test]
fn update_advances_world_clock() {
    let mut w = core_at(0, 0);
    w.update();
    w.update();
    assert_eq!(w.world.time, 2);
    w.world.time = u64::MAX;
    w.update();
    assert_eq!(w.world.time, u64::MAX);
}

#[test]
fn main_loop_builds() {
    let _ = MainLoop::new();
}

#[test]
fn generated_meta_chunk_type_checks() {
    let m: MetaChunk = generate_meta_chunk(1, meta(-100, 100));
    assert_eq!(m.chunks[63].pos, ChunkPos { x: -397, y: 3, z: 403 });
    assert_eq!(m.chunks[63].blocks.len(), 4096);
}
