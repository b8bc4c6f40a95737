use vstd::prelude::*;
use crate::ids::IdCounter;
use crate::mesh::VAOobj;

verus! {

/// Kinds of light.
#[derive(Clone, Copy, Debug, PartialEq, Eq, Structural)]
pub enum LightSourceType {
    Point,
    Spot,
    Directional,
}

/// What a scene node is, which decides how it is drawn.
#[derive(Clone, Copy, Debug, PartialEq, Eq, Structural)]
pub enum SceneNodeType {
    Geometry,
    Skybox,
    Geometry2d,
    Planet,
    Ocean,
    LightSource,
    Empty,
    PlanetSkip,
}

/// The number the shaders know each node type by.
pub open spec fn spec_type_code(t: SceneNodeType) -> u32 {
    match t {
        SceneNodeType::Geometry => 0,
        SceneNodeType::Skybox => 1,
        SceneNodeType::Geometry2d => 2,
        SceneNodeType::Planet => 3,
        SceneNodeType::Ocean => 4,
        SceneNodeType::LightSource => 5,
        SceneNodeType::Empty => 6,
        SceneNodeType::PlanetSkip => 7,
    }
}

/// Node types that are drawn with their own mesh.
pub open spec fn spec_is_drawn(t: SceneNodeType) -> bool {
    match t {
        SceneNodeType::Geometry | SceneNodeType::Skybox | SceneNodeType::Geometry2d
        | SceneNodeType::Planet | SceneNodeType::Ocean => true,
        _ => false,
    }
}

impl SceneNodeType {
    pub fn code(&self) -> (r: u32)
        ensures
            r == spec_type_code(*self),
    {
        match self {
            SceneNodeType::Geometry => 0,
            SceneNodeType::Skybox => 1,
            SceneNodeType::Geometry2d => 2,
            SceneNodeType::Planet => 3,
            SceneNodeType::Ocean => 4,
            SceneNodeType::LightSource => 5,
            SceneNodeType::Empty => 6,
            SceneNodeType::PlanetSkip => 7,
        }
    }

    /// Whether a node of this type is drawn with its own mesh.
    pub fn is_drawn(&self) -> (r: bool)
        ensures
            r == spec_is_drawn(*self),
    {
        match self {
            SceneNodeType::Geometry | SceneNodeType::Skybox | SceneNodeType::Geometry2d
            | SceneNodeType::Planet | SceneNodeType::Ocean => true,
            _ => false,
        }
    }

    /// Whether drawing goes on into the children of a node of this type:
    /// everywhere but below a skipped planet node.
    pub fn visits_children(&self) -> (r: bool)
        ensures
            r == (*self != SceneNodeType::PlanetSkip),
    {
        match self {
            SceneNodeType::PlanetSkip => false,
            _ => true,
        }
    }
}

/// A node of the scene graph. Its children are named by their index in the
/// graph that holds it (`SceneGraph`); its transform is kept by the renderer.
pub struct SceneNode {
    pub node_id: usize,
    pub node_type: SceneNodeType,
    pub name: String,
    pub vao: VAOobj,
    pub index_count: i32,
    pub texture_id: Option<u32>,
    pub planet_id: usize,
    pub children: Vec<usize>,
}

impl SceneNode {
    /// A node with id `node_id` and type `node_type`, with nothing to draw and no children.
    pub open spec fn is_fresh(&self, node_id: usize, node_type: SceneNodeType) -> bool {
        &&& self.node_id == node_id
        &&& self.node_type == node_type
        &&& self.name@ == Seq::<char>::empty()
        &&& self.vao == VAOobj::spec_empty()
        &&& self.index_count == -1
        &&& self.texture_id.is_none()
        &&& self.planet_id == 0
        &&& self.children@ == Seq::<usize>::empty()
    }

    /// An empty node with the next id of `ids`.
    pub fn new(ids: &mut IdCounter) -> (r: SceneNode)
        requires
            old(ids).next < usize::MAX,
        ensures
            r.is_fresh(old(ids).next, SceneNodeType::Empty),
            final(ids).next == old(ids).next + 1,
    {
        Self::with_type(SceneNodeType::Empty, ids)
    }

    /// A node of type `node_type` with the next id of `ids`.
    pub fn with_type(node_type: SceneNodeType, ids: &mut IdCounter) -> (r: SceneNode)
        requires
            old(ids).next < usize::MAX,
        ensures
            r.is_fresh(old(ids).next, node_type),
            final(ids).next == old(ids).next + 1,
    {
        let node_id = ids.fresh();
        SceneNode {
            node_id,
            node_type,
            name: String::new(),
            vao: VAOobj { vao: 0, vbo: 0, ibo: 0, cbo: 0, nbo: 0, texbo: 0, n: 0 },
            index_count: -1,
            texture_id: None,
            planet_id: 0,
            children: Vec::new(),
        }
    }

    /// A geometry node drawing all of `vao`, with the next id of `ids`.
    pub fn from_vao(vao: VAOobj, ids: &mut IdCounter) -> (r: SceneNode)
        requires
            old(ids).next < usize::MAX,
        ensures
            r.node_id == old(ids).next,
            final(ids).next == old(ids).next + 1,
            r.node_type == SceneNodeType::Geometry,
            r.name@ == Seq::<char>::empty(),
            r.vao == vao,
            r.index_count == vao.n,
            r.texture_id.is_none(),
            r.planet_id == 0,
            r.children@ == Seq::<usize>::empty(),
    {
        let node_id = ids.fresh();
        SceneNode {
            node_id,
            node_type: SceneNodeType::Geometry,
            name: String::new(),
            vao,
            index_count: vao.n,
            texture_id: None,
            planet_id: 0,
            children: Vec::new(),
        }
    }

    /// Draws `vao`, all of it, from now on.
    pub fn update_vao(&mut self, vao: VAOobj)
        ensures
            final(self).vao == vao,
            final(self).index_count == vao.n,
            final(self).node_id == old(self).node_id,
            final(self).node_type == old(self).node_type,
            final(self).name@ == old(self).name@,
            final(self).texture_id == old(self).texture_id,
            final(self).planet_id == old(self).planet_id,
            final(self).children@ == old(self).children@,
    {
        self.vao = vao;
        self.index_count = vao.n;
    }

    pub fn add_child(&mut self, child: usize)
        ensures
            final(self).children@ == old(self).children@.push(child),
            final(self).node_id == old(self).node_id,
            final(self).node_type == old(self).node_type,
            final(self).name@ == old(self).name@,
            final(self).vao == old(self).vao,
            final(self).index_count == old(self).index_count,
            final(self).texture_id == old(self).texture_id,
            final(self).planet_id == old(self).planet_id,
    {
        self.children.push(child);
    }

    pub fn get_child(&self, index: usize) -> (r: usize)
        requires
            index < self.children@.len(),
        ensures
            r == self.children@[index as int],
    {
        self.children[index]
    }

    pub fn get_n_children(&self) -> (r: usize)
        ensures
            r == self.children@.len(),
    {
        self.children.len()
    }
}

/// A node that only holds a place while another is edited.
fn placeholder() -> (r: SceneNode)
    ensures
        r.children@.len() == 0,
{
    SceneNode {
        node_id: 0,
        node_type: SceneNodeType::Empty,
        name: String::new(),
        vao: VAOobj { vao: 0, vbo: 0, ibo: 0, cbo: 0, nbo: 0, texbo: 0, n: 0 },
        index_count: -1,
        texture_id: None,
        planet_id: 0,
        children: Vec::new(),
    }
}

/// All nodes of a scene, each named by its index in `nodes`; every child a
/// node names is in the graph.
pub struct SceneGraph {
    pub nodes: Vec<SceneNode>,
}

impl SceneGraph {
    pub open spec fn wf(&self) -> bool {
        forall|i: int, k: int|
            0 <= i < self.nodes@.len() && 0 <= k < self.nodes@[i].children@.len()
                ==> #[trigger] self.nodes@[i].children@[k] < self.nodes@.len()
    }

    pub fn new() -> (r: SceneGraph)
        ensures
            r.wf(),
            r.nodes@.len() == 0,
    {
        SceneGraph { nodes: Vec::new() }
    }

    /// Puts a childless node into the graph, and returns its index.
    pub fn add(&mut self, node: SceneNode) -> (r: usize)
        requires
            old(self).wf(),
            node.children@.len() == 0,
        ensures
            final(self).wf(),
            r == old(self).nodes@.len(),
            final(self).nodes@.len() == old(self).nodes@.len() + 1,
            forall|j: int| 0 <= j < r ==> #[trigger] final(self).nodes@[j] == old(self).nodes@[j],
            final(self).nodes@[r as int].node_id == node.node_id,
            final(self).nodes@[r as int].node_type == node.node_type,
            final(self).nodes@[r as int].vao == node.vao,
            final(self).nodes@[r as int].index_count == node.index_count,
            final(self).nodes@[r as int].planet_id == node.planet_id,
            final(self).nodes@[r as int].children@.len() == 0,
    {
        let r: usize = self.nodes.len();
        self.nodes.push(node);
        proof {
            assert forall|i: int, k: int|
                0 <= i < self.nodes@.len() && 0 <= k < self.nodes@[i].children@.len()
                    implies #[trigger] self.nodes@[i].children@[k] < self.nodes@.len() by {
                if i < r {
                    assert(self.nodes@[i] == old(self).nodes@[i]);
                }
            }
        }
        r
    }

    /// Makes `child` the last child of `parent`.
    pub fn add_child(&mut self, parent: usize, child: usize)
        requires
            old(self).wf(),
            parent < old(self).nodes@.len(),
            child < old(self).nodes@.len(),
        ensures
            final(self).wf(),
            final(self).nodes@.len() == old(self).nodes@.len(),
            forall|j: int|
                0 <= j < old(self).nodes@.len() && j != parent ==> #[trigger] final(self).nodes@[j]
                    == old(self).nodes@[j],
            final(self).nodes@[parent as int].children@ == old(self).nodes@[parent as int].children@.push(
                child,
            ),
            final(self).nodes@[parent as int].node_type == old(self).nodes@[parent as int].node_type,
    {
        let mut slot = placeholder();
        self.nodes.set_and_swap(parent, &mut slot);
        slot.add_child(child);
        self.nodes.set_and_swap(parent, &mut slot);
        proof {
            assert forall|i: int, k: int|
                0 <= i < self.nodes@.len() && 0 <= k < self.nodes@[i].children@.len()
                    implies #[trigger] self.nodes@[i].children@[k] < self.nodes@.len() by {
                if i != parent {
                    assert(self.nodes@[i] == old(self).nodes@[i]);
                } else if k < old(self).nodes@[i].children@.len() {
                    assert(self.nodes@[i].children@[k] == old(self).nodes@[i].children@[k]);
                }
            }
        }
    }

    /// Sets the type of node `i`.
    pub fn set_type(&mut self, i: usize, node_type: SceneNodeType)
        requires
            old(self).wf(),
            i < old(self).nodes@.len(),
        ensures
            final(self).wf(),
            final(self).nodes@.len() == old(self).nodes@.len(),
            forall|j: int|
                0 <= j < old(self).nodes@.len() && j != i ==> #[trigger] final(self).nodes@[j]
                    == old(self).nodes@[j],
            final(self).nodes@[i as int].node_type == node_type,
            final(self).nodes@[i as int].children@ == old(self).nodes@[i as int].children@,
            final(self).nodes@[i as int].vao == old(self).nodes@[i as int].vao,
            final(self).nodes@[i as int].index_count == old(self).nodes@[i as int].index_count,
    {
        let mut slot = placeholder();
        self.nodes.set_and_swap(i, &mut slot);
        slot.node_type = node_type;
        self.nodes.set_and_swap(i, &mut slot);
        proof {
            assert forall|j: int, k: int|
                0 <= j < self.nodes@.len() && 0 <= k < self.nodes@[j].children@.len()
                    implies #[trigger] self.nodes@[j].children@[k] < self.nodes@.len() by {
                if j != i {
                    assert(self.nodes@[j] == old(self).nodes@[j]);
                } else {
                    assert(self.nodes@[j].children@[k] == old(self).nodes@[j].children@[k]);
                }
            }
        }
    }
}

} // verus!
