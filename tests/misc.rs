use planet_lod::ids::IdCounter;
use planet_lod::mesh::{grid_indices, grid_vertex_count, VAOobj};
use planet_lod::planet::{Planet, MAX_LOD};
use planet_lod::scene_graph::{SceneGraph, SceneNode, SceneNodeType};
use planet_lod::shader::{ShaderBuilder, ShaderType, FRAGMENT_SHADER, VERTEX_SHADER};
use planet_lod::util::{byte_size_of_array, size_of};

#[test]
fn grid_of_one_cell() {
    assert_eq!(grid_indices(1), vec![1, 0, 3, 0, 2, 3]);
    assert_eq!(grid_vertex_count(1), 4);
}

#[test]
fn grid_of_four_cells() {
    let r = grid_indices(2);
    assert_eq!(r.len(), 24);
    // cell (z = 1, x = 0), rows of 3 vertices
    assert_eq!(&r[12..18], &[4, 3, 7, 3, 6, 7]);
    assert_eq!(grid_vertex_count(2), 9);
    assert!(grid_indices(0).is_empty());
}

#[test]
fn sizes_in_bytes() {
    assert_eq!(byte_size_of_array(&[1u32, 2, 3]), 12);
    assert_eq!(byte_size_of_array::<f32>(&[]), 0);
    assert_eq!(size_of::<u64>(), 8);
    assert_eq!(size_of::<[f32; 3]>(), 12);
}

#[test]
fn planet_defaults() {
    let mut ids = IdCounter::new();
    let p = Planet::with_seed(42, &mut ids);
    assert_eq!(p.planet_id, 0);
    assert_eq!(p.seed, 42);
    assert_eq!(p.radius, 1_000_000);
    assert_eq!(p.max_lod, MAX_LOD);
    assert!(p.has_ocean);
    match Planet::new(&mut ids) {
        Some(q) => {
            assert_eq!(q.planet_id, 1);
            assert_eq!(ids.next, 2);
            assert_eq!(q.max_lod, MAX_LOD);
            assert_eq!(q.radius, 1_000_000);
        }
        None => assert_eq!(ids.next, 1),
    }
}

#[test]
fn scene_nodes() {
    let mut ids = IdCounter::new();
    let n = SceneNode::new(&mut ids);
    assert_eq!(n.node_id, 0);
    assert_eq!(n.node_type, SceneNodeType::Empty);
    assert_eq!(n.index_count, -1);
    assert_eq!(n.get_n_children(), 0);
    let vao = VAOobj { vao: 1, vbo: 2, ibo: 3, cbo: 4, nbo: 5, texbo: 6, n: 36 };
    let mut g = SceneNode::from_vao(vao, &mut ids);
    assert_eq!(g.node_id, 1);
    assert_eq!(g.index_count, 36);
    assert_eq!(g.node_type, SceneNodeType::Geometry);
    let other = VAOobj { n: 12, ..vao };
    g.update_vao(other);
    assert_eq!(g.index_count, 12);
    g.add_child(9);
    assert_eq!(g.get_child(0), 9);
    assert_eq!(VAOobj::default().n, 0);
}

#[test]
fn scene_graph_links() {
    let mut s = SceneGraph::new();
    let mut ids = IdCounter::new();
    ids.next = 10;
    let root = s.add(SceneNode::new(&mut ids));
    let a = s.add(SceneNode::with_type(SceneNodeType::Planet, &mut ids));
    let b = s.add(SceneNode::with_type(SceneNodeType::Ocean, &mut ids));
    s.add_child(root, a);
    s.add_child(root, b);
    assert_eq!(s.nodes[root].children, vec![a, b]);
    assert_eq!((s.nodes[root].node_id, s.nodes[a].node_id, s.nodes[b].node_id), (10, 11, 12));
    assert_eq!(b, 2);
    s.set_type(a, SceneNodeType::Empty);
    assert_eq!(s.nodes[a].node_type, SceneNodeType::Empty);
    assert_eq!(SceneNodeType::Planet.code(), 3);
    assert_eq!(SceneNodeType::Ocean.code(), 4);
    assert!(SceneNodeType::Planet.is_drawn());
    assert!(!SceneNodeType::Empty.is_drawn());
    assert!(!SceneNodeType::PlanetSkip.visits_children());
}

#[test]
fn shader_stages() {
    assert_eq!(ShaderType::from_ext("vert"), Ok(ShaderType::Vertex));
    assert_eq!(ShaderType::from_ext("frag"), Ok(ShaderType::Fragment));
    assert_eq!(ShaderType::from_ext("geom"), Ok(ShaderType::Geometry));
    assert_eq!(ShaderType::from_ext("glsl"), Err("glsl".to_string()));
    assert_eq!(ShaderType::Vertex.gl_kind(), VERTEX_SHADER);
    assert_eq!(ShaderType::Fragment.gl_kind(), FRAGMENT_SHADER);
    let b = ShaderBuilder::new(5).attach(7).attach(8);
    assert_eq!(b.shaders, vec![7, 8]);
    assert_eq!(b.finish().program_id, 5);
}
