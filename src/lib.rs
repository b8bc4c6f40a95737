pub mod ids;
pub mod jobs;
pub mod limits;
pub mod mesh;
pub mod planet;
pub mod quadtree;
pub mod scene_graph;
pub mod shader;
pub mod tile;
pub mod util;
