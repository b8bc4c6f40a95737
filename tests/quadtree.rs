use planet_lod::jobs::{AdmissionCounter, JobStatus, MAX_IN_FLIGHT};
use planet_lod::quadtree::{DrawTag, LodActions, TerrainTree, Visit};
use planet_lod::ids::IdCounter;
use planet_lod::planet::{Planet, Sight};
use planet_lod::tile::{Face, TileGeom, FACE_HALF};

const UNIT: f64 = 1_000_000.0;

fn scenario_planet() -> Planet {
    let mut p = Planet::with_seed(3, &mut IdCounter::new());
    p.radius = 1_000_000;
    p.max_height = 50_000;
    p.max_lod = 2;
    p
}

/// A viewer at `viewer` (planet centre at the origin, radius 1).
fn sight_of(g: TileGeom, viewer: [f64; 3]) -> Sight {
    let (x, y, z) = g.center();
    let c = [x as f64, y as f64, z as f64];
    let cl = (c[0] * c[0] + c[1] * c[1] + c[2] * c[2]).sqrt();
    let vl = (viewer[0] * viewer[0] + viewer[1] * viewer[1] + viewer[2] * viewer[2]).sqrt();
    let dot = (c[0] * viewer[0] + c[1] * viewer[1] + c[2] * viewer[2]) / (cl * vl);
    let angle = dot.clamp(-1.0, 1.0).acos();
    Sight { angle: (angle * 1e6).round() as u64, height: (vl * UNIT).round() as u64 }
}

fn check_children(t: &TerrainTree) {
    for (i, tile) in t.tiles.iter().enumerate() {
        if let Some(f) = tile.first_child {
            assert!(f + 4 <= t.tiles.len(), "tile {}", i);
            for k in 0..4 {
                assert_eq!(t.tiles[f + k].geom, tile.geom.quadrant(k));
            }
        }
    }
}

fn max_level(t: &TerrainTree) -> u32 {
    t.tiles.iter().map(|x| x.geom.level).max().unwrap()
}

#[test]
fn new_tree_has_six_faces() {
    let t = TerrainTree::new();
    assert_eq!(t.tiles.len(), 6);
    assert_eq!(t.tiles[2].geom.face, Face::Front);
    assert_eq!(t.tiles[5].geom.face, Face::Right);
    assert!(t.tiles.iter().all(|x| x.first_child.is_none() && x.status == JobStatus::NotStarted));
}

#[test]
fn far_viewer_keeps_faces_whole() {
    let p = scenario_planet();
    let mut t = TerrainTree::new();
    let mut c = AdmissionCounter::with_capacity(100);
    let viewer = [0.0, 10.0, 0.0];
    let a = p.lod(&mut t, &|g: TileGeom| sight_of(g, viewer), &mut c);
    assert_eq!(t.tiles.len(), 6);
    assert_eq!(a.start.len(), 6);
    assert_eq!(c.in_flight(), 6);
    assert!(a.build_ocean);
    assert!(t.tiles.iter().all(|x| x.tag == DrawTag::Pending));
}

#[test]
fn near_viewer_subdivides_to_max_lod() {
    let p = scenario_planet();
    let mut t = TerrainTree::new();
    let mut c = AdmissionCounter::with_capacity(1000);
    let viewer = [0.0, 1.02, 0.0];
    let a = p.lod(&mut t, &|g: TileGeom| sight_of(g, viewer), &mut c);
    assert_eq!(max_level(&t), 2);
    assert!(t.tiles[0].first_child.is_some());
    assert_eq!(t.tiles[0].tag, DrawTag::Pending);
    // the far side stays whole
    assert!(t.tiles[1].first_child.is_none());
    // every quarter of the top face splits once more, and no further
    let f = t.tiles[0].first_child.unwrap();
    for k in 0..4 {
        let g = t.tiles[f + k].first_child.expect("level 1 splits");
        assert_eq!(t.tiles[f + k].geom.level, 1);
        for m in 0..4 {
            assert_eq!(t.tiles[g + m].geom.level, 2);
            assert!(t.tiles[g + m].first_child.is_none());
        }
    }
    // one order per tile
    let mut nodes: Vec<usize> = a.start.iter().map(|o| o.node).collect();
    nodes.sort();
    nodes.dedup();
    assert_eq!(nodes.len(), a.start.len());
    check_children(&t);
    assert_eq!(c.in_flight() as usize, a.start.len());
    for o in &a.start {
        assert_eq!(t.tiles[o.node].status, JobStatus::Generating);
        assert_eq!(o.subdivisions, (1 + o.geom.level as usize) * 16);
    }
    // a second pass asks for nothing new and does not grow the tree
    let n = t.tiles.len();
    let b = p.lod(&mut t, &|g: TileGeom| sight_of(g, viewer), &mut c);
    assert_eq!(t.tiles.len(), n);
    assert!(b.start.is_empty());
    assert!(!b.build_ocean);
}

#[test]
fn parent_passes_through_once_children_ready() {
    let p = scenario_planet();
    let mut t = TerrainTree::new();
    let mut c = AdmissionCounter::with_capacity(1000);
    let viewer = [0.0, 1.02, 0.0];
    let first = p.lod(&mut t, &|g: TileGeom| sight_of(g, viewer), &mut c);
    for o in &first.start {
        assert!(t.complete(o.node, &mut c));
    }
    assert_eq!(c.in_flight(), 0);
    let second = p.lod(&mut t, &|g: TileGeom| sight_of(g, viewer), &mut c);
    assert!(second.start.is_empty());
    assert_eq!(second.upload.len(), first.start.len());
    assert_eq!(t.tiles[0].tag, DrawTag::PassThrough);
    let third = p.lod(&mut t, &|g: TileGeom| sight_of(g, viewer), &mut c);
    assert!(third.upload.is_empty());
}

#[test]
fn admission_defers_past_capacity() {
    let mut t = TerrainTree::new();
    let mut c = AdmissionCounter::new();
    let mut a = LodActions::new();
    let n = MAX_IN_FLIGHT as usize + 1;
    for i in 0..n {
        assert!(!t.request(i, &mut c, &mut a));
    }
    let generating = (0..n).filter(|&i| t.tiles[i].status == JobStatus::Generating).count();
    let waiting = (0..n).filter(|&i| t.tiles[i].status == JobStatus::NotStarted).count();
    assert_eq!(generating, MAX_IN_FLIGHT as usize);
    assert_eq!(waiting, 1);
    assert_eq!(c.in_flight(), MAX_IN_FLIGHT);
    assert_eq!(a.start.len(), MAX_IN_FLIGHT as usize);
    // asking again does not count twice
    assert!(!t.request(0, &mut c, &mut a));
    assert_eq!(c.in_flight(), MAX_IN_FLIGHT);
    // a finished job frees a place for the deferred tile
    assert!(t.complete(0, &mut c));
    assert!(!t.request(n - 1, &mut c, &mut a));
    assert_eq!(t.tiles[n - 1].status, JobStatus::Generating);
    assert_eq!(c.in_flight(), MAX_IN_FLIGHT);
}

#[test]
fn ready_mesh_is_uploaded_once() {
    let mut t = TerrainTree::new();
    let mut c = AdmissionCounter::new();
    let mut a = LodActions::new();
    assert!(!t.request(3, &mut c, &mut a));
    assert!(!t.request(3, &mut c, &mut a));
    assert_eq!(a.start.len(), 1);
    assert_eq!(a.start[0].node, 3);
    assert_eq!(a.start[0].subdivisions, 16);
    assert!(t.complete(3, &mut c));
    assert!(!t.complete(3, &mut c));
    assert!(t.request(3, &mut c, &mut a));
    assert!(t.request(3, &mut c, &mut a));
    assert_eq!(a.upload, vec![3]);
    assert!(t.tiles[3].uploaded);
}

#[test]
fn counter_stays_in_bounds() {
    let mut c = AdmissionCounter::with_capacity(2);
    assert!(c.try_admit());
    assert!(c.try_admit());
    assert!(!c.try_admit());
    assert_eq!(c.in_flight(), 2);
    c.release();
    c.release();
    c.release();
    assert_eq!(c.in_flight(), 0);
}

#[test]
fn tile_quadrants_and_centres() {
    let root = TileGeom::root(Face::Top);
    assert_eq!(root.half, FACE_HALF as u64);
    let q0 = root.quadrant(0);
    let q3 = root.quadrant(3);
    assert_eq!((q0.x, q0.z, q0.level, q0.half), (FACE_HALF / 2, FACE_HALF / 2, 1, FACE_HALF as u64 / 2));
    assert_eq!((q3.x, q3.z), (-FACE_HALF / 2, -FACE_HALF / 2));
    let q1 = root.quadrant(1);
    assert_eq!((q1.x, q1.z), (-FACE_HALF / 2, FACE_HALF / 2));
    assert_eq!(root.center(), (0, FACE_HALF, 0));
    assert_eq!(TileGeom::root(Face::Bottom).center(), (0, -FACE_HALF, 0));
    assert_eq!(TileGeom::root(Face::Front).center(), (0, 0, FACE_HALF));
    assert_eq!(TileGeom::root(Face::Back).center(), (0, 0, -FACE_HALF));
    assert_eq!(TileGeom::root(Face::Left).center(), (FACE_HALF, 0, 0));
    assert_eq!(TileGeom::root(Face::Right).center(), (-FACE_HALF, 0, 0));
    assert_eq!(Face::Front.rotate(1, 2, 3), (1, -3, 2));
    assert_eq!(Face::Left.rotate(1, 2, 3), (2, -1, 3));
}

#[test]
fn visit_splits_or_draws() {
    let p = scenario_planet();
    let mut t = TerrainTree::new();
    let mut c = AdmissionCounter::new();
    let mut a = LodActions::new();
    let near = Sight { angle: 0, height: 1_020_000 };
    let far = Sight { angle: 0, height: 10_000_000 };
    assert_eq!(t.visit(&p, 0, near, &mut c, &mut a), Visit::Split(6));
    assert_eq!(t.tiles.len(), 10);
    assert_eq!(t.tiles[0].tag, DrawTag::PassThrough);
    assert_eq!(t.tiles[7].geom, t.tiles[0].geom.quadrant(1));
    // a second split reuses the children
    assert_eq!(t.visit(&p, 0, near, &mut c, &mut a), Visit::Split(6));
    assert_eq!(t.tiles.len(), 10);
    assert!(a.start.is_empty());
    // once the viewer leaves, the tile is drawn again and its mesh asked for
    assert_eq!(t.visit(&p, 0, far, &mut c, &mut a), Visit::Drawn(false));
    assert_eq!(t.tiles[0].tag, DrawTag::Pending);
    assert_eq!(t.tiles[0].first_child, Some(6));
    assert_eq!(t.tiles[0].status, JobStatus::Generating);
    assert_eq!(a.start.len(), 1);
    assert_eq!(c.in_flight(), 1);
    assert!(t.complete(0, &mut c));
    assert_eq!(t.visit(&p, 0, far, &mut c, &mut a), Visit::Drawn(true));
    assert_eq!(t.tiles[0].tag, DrawTag::Ready);
    assert_eq!(a.upload, vec![0]);
}

#[test]
fn failed_job_frees_its_place_and_is_not_retried() {
    let mut t = TerrainTree::new();
    let mut c = AdmissionCounter::with_capacity(1);
    let mut a = LodActions::new();
    assert!(!t.request(2, &mut c, &mut a));
    assert_eq!(c.in_flight(), 1);
    assert!(t.fail(2, &mut c));
    assert_eq!(t.tiles[2].status, JobStatus::Failed);
    assert_eq!(c.in_flight(), 0);
    assert!(!t.fail(2, &mut c));
    assert!(!t.complete(2, &mut c));
    // asked again, it starts no new job
    assert!(!t.request(2, &mut c, &mut a));
    assert_eq!(a.start.len(), 1);
    assert_eq!(c.in_flight(), 0);
}
