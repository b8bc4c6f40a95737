use vstd::prelude::*;
use crate::jobs::{AdmissionCounter, JobStatus};
use crate::planet::{Planet, Sight, SUBDIVS_PER_LEVEL};
use crate::tile::{face_of, lemma_quadrant_wf, Face, TileGeom, MAX_LEVEL};

verus! {

/// How a tile shows: not drawn because its children are (pass-through),
/// drawn while its mesh is still missing, or drawn with its mesh.
#[derive(Clone, Copy, Debug, PartialEq, Eq, Structural)]
pub enum DrawTag {
    PassThrough,
    Pending,
    Ready,
}

/// One node of the terrain quad-tree. Its children, when it has them, are
/// the four tiles from `first_child` on, in quadrant order.
#[derive(Clone, Copy, Debug, PartialEq, Eq, Structural)]
pub struct Tile {
    pub geom: TileGeom,
    pub tag: DrawTag,
    pub status: JobStatus,
    pub uploaded: bool,
    pub first_child: Option<usize>,
}

/// How a pass goes on from one tile: into its children, the first of
/// which is named, or no further, the tile being drawn (with whether its
/// mesh is ready).
#[derive(Clone, Copy, Debug, PartialEq, Eq, Structural)]
pub enum Visit {
    Split(usize),
    Drawn(bool),
}

/// What a mesh worker needs to build one tile.
#[derive(Clone, Copy, Debug, PartialEq, Eq, Structural)]
pub struct JobOrder {
    pub node: usize,
    pub geom: TileGeom,
    pub subdivisions: usize,
}

/// What a level-of-detail pass leaves for its caller to do: jobs to start,
/// and tiles whose finished mesh is to be uploaded.
pub struct LodActions {
    pub start: Vec<JobOrder>,
    pub upload: Vec<usize>,
    pub build_ocean: bool,
}

impl LodActions {
    /// Nothing to do.
    pub fn new() -> (r: LodActions)
        ensures
            r.start@.len() == 0,
            r.upload@.len() == 0,
            !r.build_ocean,
    {
        LodActions { start: Vec::new(), upload: Vec::new(), build_ocean: false }
    }
}

/// Grid cells along the side of a tile at `level`.
pub open spec fn subdivisions_at(level: int) -> int {
    (1 + level) * SUBDIVS_PER_LEVEL
}

/// The terrain of one planet: an arena of tiles whose first six are the
/// whole faces, in face order. Tiles are only ever added.
pub struct TerrainTree {
    pub tiles: Vec<Tile>,
    pub ocean_built: bool,
}

impl TerrainTree {
    /// The children of tile `i`: none, or four consecutive tiles.
    pub open spec fn children(&self, i: int) -> Seq<int> {
        match self.tiles@[i].first_child {
            None => seq![],
            Some(f) => seq![f as int, f + 1, f + 2, f + 3],
        }
    }

    /// Tile `i` lies within its face; only a built mesh is uploaded; only a
    /// tile with children passes through; and its children, if any, are in
    /// the arena, one per quadrant.
    pub open spec fn tile_ok(&self, i: int) -> bool {
        let t = self.tiles@[i];
        &&& t.geom.wf()
        &&& t.uploaded ==> t.status == JobStatus::Ready
        &&& t.tag == DrawTag::PassThrough ==> t.first_child.is_some()
        &&& match t.first_child {
            None => true,
            Some(f) => {
                &&& f + 4 <= self.tiles@.len()
                &&& f + 4 <= usize::MAX
                &&& t.geom.level < MAX_LEVEL
                &&& forall|k: int|
                    0 <= k < 4 ==> #[trigger] self.tiles@[f + k].geom == t.geom.spec_quadrant(k)
            },
        }
    }

    /// The six faces come first, and every tile is well placed.
    pub open spec fn wf(&self) -> bool {
        &&& self.tiles@.len() >= 6
        &&& forall|i: int| 0 <= i < 6 ==> #[trigger] self.tiles@[i].geom == TileGeom::spec_root(face_of(i))
        &&& forall|i: int| 0 <= i < self.tiles@.len() ==> #[trigger] self.tile_ok(i)
    }

    /// `after` keeps every tile of `before` where it was, with its place and
    /// its children, and moves each job status only forward.
    pub open spec fn grows(before: &TerrainTree, after: &TerrainTree) -> bool {
        &&& after.tiles@.len() >= before.tiles@.len()
        &&& forall|j: int|
            0 <= j < before.tiles@.len() ==> {
                &&& (#[trigger] after.tiles@[j]).geom == before.tiles@[j].geom
                &&& (before.tiles@[j].first_child.is_some() ==> after.tiles@[j].first_child
                    == before.tiles@[j].first_child)
                &&& status_step(before.tiles@[j].status, after.tiles@[j].status)
                &&& (before.tiles@[j].uploaded ==> after.tiles@[j].uploaded)
            }
    }
}

/// A job status either stays or moves from not started to generating.
pub open spec fn status_step(a: JobStatus, b: JobStatus) -> bool {
    a == b || (a == JobStatus::NotStarted && b == JobStatus::Generating)
}

/// A new tile: drawn, nothing asked for, no children.
pub open spec fn fresh_tile(geom: TileGeom) -> Tile {
    Tile {
        geom,
        tag: DrawTag::Pending,
        status: JobStatus::NotStarted,
        uploaded: false,
        first_child: None,
    }
}

/// How a tile that is drawn shows: with its mesh once that is uploaded.
pub open spec fn drawn_tag(t: Tile) -> DrawTag {
    if t.uploaded {
        DrawTag::Ready
    } else {
        DrawTag::Pending
    }
}

fn new_tile(geom: TileGeom) -> (r: Tile)
    ensures
        r == fresh_tile(geom),
{
    Tile {
        geom,
        tag: DrawTag::Pending,
        status: JobStatus::NotStarted,
        uploaded: false,
        first_child: None,
    }
}

impl TerrainTree {
    /// The six whole faces, none subdivided, no mesh asked for.
    pub fn new() -> (r: TerrainTree)
        ensures
            r.wf(),
            r.tiles@.len() == 6,
            !r.ocean_built,
            forall|i: int| 0 <= i < 6 ==> #[trigger] r.tiles@[i] == fresh_tile(TileGeom::spec_root(face_of(i))),
    {
        let mut tiles: Vec<Tile> = Vec::new();
        let mut i: usize = 0;
        while i < 6
            invariant
                0 <= i <= 6,
                tiles@.len() == i,
                forall|j: int| 0 <= j < i ==> #[trigger] tiles@[j] == fresh_tile(TileGeom::spec_root(face_of(j))),
            decreases 6 - i,
        {
            tiles.push(new_tile(TileGeom::root(Face::from_index(i))));
            i = i + 1;
        }
        let r = TerrainTree { tiles, ocean_built: false };
        assert forall|j: int| 0 <= j < r.tiles@.len() implies #[trigger] r.tile_ok(j) by {
            assert(r.tiles@[j] == fresh_tile(TileGeom::spec_root(face_of(j))));
        }
        r
    }

    /// Sets the drawing state of tile `i`, keeping its place and children.
    fn set_state(&mut self, i: usize, tag: DrawTag, status: JobStatus, uploaded: bool)
        requires
            old(self).wf(),
            i < old(self).tiles@.len(),
            uploaded ==> status == JobStatus::Ready,
            tag == DrawTag::PassThrough ==> old(self).tiles@[i as int].first_child.is_some(),
        ensures
            final(self).wf(),
            final(self).ocean_built == old(self).ocean_built,
            final(self).tiles@ == old(self).tiles@.update(
                i as int,
                Tile { tag, status, uploaded, ..old(self).tiles@[i as int] },
            ),
    {
        let old_t = self.tiles[i];
        let t = Tile { tag, status, uploaded, ..old_t };
        self.tiles.set(i, t);
        assert forall|j: int| 0 <= j < self.tiles@.len() implies #[trigger] self.tile_ok(j) by {
            assert(old(self).tile_ok(j));
            if let Some(f) = self.tiles@[j].first_child {
                assert forall|k: int| 0 <= k < 4 implies #[trigger] self.tiles@[f + k].geom
                    == self.tiles@[j].geom.spec_quadrant(k) by {
                    assert(old(self).tiles@[f + k].geom == old(self).tiles@[j].geom.spec_quadrant(k));
                }
            }
        }
    }

    /// Gives tile `i` its four children, unless it has them already, and
    /// returns the index of the first.
    fn ensure_children(&mut self, i: usize) -> (r: usize)
        requires
            old(self).wf(),
            i < old(self).tiles@.len(),
            old(self).tiles@[i as int].geom.level < MAX_LEVEL,
            old(self).tiles@[i as int].first_child.is_some() || old(self).tiles@.len() + 4
                <= usize::MAX,
        ensures
            final(self).wf(),
            final(self).ocean_built == old(self).ocean_built,
            TerrainTree::grows(old(self), final(self)),
            final(self).tiles@[i as int].first_child == Some(r),
            final(self).tiles@[i as int].tag == old(self).tiles@[i as int].tag,
            final(self).tiles@[i as int].status == old(self).tiles@[i as int].status,
            final(self).tiles@[i as int].uploaded == old(self).tiles@[i as int].uploaded,
            forall|j: int|
                0 <= j < old(self).tiles@.len() && j != i ==> #[trigger] final(self).tiles@[j]
                    == old(self).tiles@[j],
            old(self).tiles@[i as int].first_child.is_some() ==> final(self).tiles@ == old(
                self,
            ).tiles@,
            old(self).tiles@[i as int].first_child.is_none() ==> final(self).tiles@.len()
                == old(self).tiles@.len() + 4 && r == old(self).tiles@.len() && forall|k: int|
                0 <= k < 4 ==> #[trigger] final(self).tiles@[r + k] == fresh_tile(
                    old(self).tiles@[i as int].geom.spec_quadrant(k),
                ),
            forall|j: int|
                old(self).tiles@.len() <= j < final(self).tiles@.len() ==> (
                #[trigger] final(self).tiles@[j]).status == JobStatus::NotStarted,
    {
        let t = self.tiles[i];
        match t.first_child {
            Some(f) => {
                assert(self.tile_ok(i as int));
                f
            },
            None => {
                let f: usize = self.tiles.len();
                let ghost old_tiles = self.tiles@;
                assert(self.tile_ok(i as int));
                let mut k: usize = 0;
                while k < 4
                    invariant
                        0 <= k <= 4,
                        f == old_tiles.len(),
                        old_tiles == old(self).tiles@,
                        self.ocean_built == old(self).ocean_built,
                        i < old_tiles.len(),
                        f + 4 <= usize::MAX,
                        t == old_tiles[i as int],
                        t.geom.wf(),
                        t.geom.level < MAX_LEVEL,
                        self.tiles@.len() == f + k,
                        forall|j: int| 0 <= j < f ==> #[trigger] self.tiles@[j] == old_tiles[j],
                        forall|j: int|
                            0 <= j < k ==> #[trigger] self.tiles@[f + j] == fresh_tile(
                                t.geom.spec_quadrant(j),
                            ),
                    decreases 4 - k,
                {
                    self.tiles.push(new_tile(t.geom.quadrant(k)));
                    proof {
                        assert(self.tiles@[f + k as int] == fresh_tile(t.geom.spec_quadrant(k as int)));
                    }
                    k = k + 1;
                }
                let nt = Tile { first_child: Some(f), ..t };
                self.tiles.set(i, nt);
                proof {
                    lemma_attach(*old(self), *self, i as int);
                }
                f
            },
        }
    }
}

/// The job order for tile `i`.
pub open spec fn spec_order(i: int, geom: TileGeom) -> JobOrder {
    JobOrder { node: i as usize, geom, subdivisions: subdivisions_at(geom.level as int) as usize }
}

/// What asking for the mesh of tile `i` does (see `TerrainTree::request`),
/// the tile's drawing tag aside.
pub open spec fn request_effect(
    old_tree: &TerrainTree,
    new_tree: &TerrainTree,
    old_counter: &AdmissionCounter,
    new_counter: &AdmissionCounter,
    old_actions: &LodActions,
    new_actions: &LodActions,
    i: int,
) -> bool {
    let t = old_tree.tiles@[i];
    let u = new_tree.tiles@[i];
    let admitted = t.status == JobStatus::NotStarted && old_counter.spec_in_flight() < old_counter.spec_capacity();
    &&& new_tree.tiles@.len() == old_tree.tiles@.len()
    &&& forall|j: int|
        0 <= j < old_tree.tiles@.len() && j != i ==> #[trigger] new_tree.tiles@[j] == old_tree.tiles@[j]
    &&& u.geom == t.geom
    &&& u.first_child == t.first_child
    &&& u.status == if admitted {
        JobStatus::Generating
    } else {
        t.status
    }
    &&& u.uploaded == (t.uploaded || t.status == JobStatus::Ready)
    &&& new_counter.spec_in_flight() == old_counter.spec_in_flight() + if admitted {
        1int
    } else {
        0int
    }
    &&& new_actions.start@ == if admitted {
        old_actions.start@.push(spec_order(i, t.geom))
    } else {
        old_actions.start@
    }
    &&& new_actions.upload@ == if t.status == JobStatus::Ready && !t.uploaded {
        old_actions.upload@.push(i as usize)
    } else {
        old_actions.upload@
    }
}

impl TerrainTree {
    /// Asks for the mesh of tile `i`; true when it is ready now.
    ///
    /// Not started: if the counter admits a job, the tile is marked as
    /// generating and an order for it is added to `actions.start`;
    /// otherwise nothing changes (the tile is asked for again on a later pass).
    /// Generating: nothing changes. Ready: the tile's mesh is handed over for
    /// upload the first time it is seen, and the answer is true.
    pub fn request(&mut self, i: usize, counter: &mut AdmissionCounter, actions: &mut LodActions) -> (r: bool)
        requires
            old(self).wf(),
            i < old(self).tiles@.len(),
        ensures
            final(self).wf(),
            final(self).ocean_built == old(self).ocean_built,
            final(actions).build_ocean == old(actions).build_ocean,
            final(counter).spec_capacity() == old(counter).spec_capacity(),
            final(self).tiles@[i as int].tag == old(self).tiles@[i as int].tag,
            r == (old(self).tiles@[i as int].status == JobStatus::Ready),
            request_effect(old(self), final(self), old(counter), final(counter), old(actions), final(actions), i as int),
    {
        let t = self.tiles[i];
        proof {
            assert(self.tile_ok(i as int));
        }
        match t.status {
            JobStatus::NotStarted => {
                if counter.try_admit() {
                    self.set_state(i, t.tag, JobStatus::Generating, false);
                    let order = JobOrder {
                        node: i,
                        geom: t.geom,
                        subdivisions: (1 + t.geom.level as usize) * SUBDIVS_PER_LEVEL,
                    };
                    actions.start.push(order);
                }
                false
            },
            JobStatus::Generating | JobStatus::Failed => false,
            JobStatus::Ready => {
                if !t.uploaded {
                    self.set_state(i, t.tag, JobStatus::Ready, true);
                    actions.upload.push(i);
                }
                true
            },
        }
    }

    /// A worker has finished the mesh of tile `i`: a generating tile becomes
    /// ready and its job leaves the count. Returns whether the tile was generating.
    pub fn complete(&mut self, i: usize, counter: &mut AdmissionCounter) -> (r: bool)
        requires
            old(self).wf(),
            i < old(self).tiles@.len(),
        ensures
            final(self).wf(),
            final(counter).spec_capacity() == old(counter).spec_capacity(),
            r == (old(self).tiles@[i as int].status == JobStatus::Generating),
            r ==> final(self).tiles@ == old(self).tiles@.update(
                i as int,
                Tile { status: JobStatus::Ready, ..old(self).tiles@[i as int] },
            ),
            r ==> final(counter).spec_in_flight() == if old(counter).spec_in_flight() > 0 {
                old(counter).spec_in_flight() - 1
            } else {
                0
            },
            !r ==> final(self).tiles@ == old(self).tiles@ && *final(counter) == *old(counter),
    {
        let t = self.tiles[i];
        proof {
            assert(self.tile_ok(i as int));
        }
        if t.status == JobStatus::Generating {
            self.set_state(i, t.tag, JobStatus::Ready, t.uploaded);
            counter.release();
            true
        } else {
            false
        }
    }

    /// A worker could not build the mesh of tile `i`: a generating tile
    /// fails for good (it is never asked for again, and stays without mesh)
    /// and its job leaves the count. Returns whether the tile was generating.
    pub fn fail(&mut self, i: usize, counter: &mut AdmissionCounter) -> (r: bool)
        requires
            old(self).wf(),
            i < old(self).tiles@.len(),
        ensures
            final(self).wf(),
            final(self).ocean_built == old(self).ocean_built,
            final(counter).spec_capacity() == old(counter).spec_capacity(),
            r == (old(self).tiles@[i as int].status == JobStatus::Generating),
            r ==> final(self).tiles@ == old(self).tiles@.update(
                i as int,
                Tile { status: JobStatus::Failed, ..old(self).tiles@[i as int] },
            ),
            r ==> final(counter).spec_in_flight() == if old(counter).spec_in_flight() > 0 {
                old(counter).spec_in_flight() - 1
            } else {
                0
            },
            !r ==> final(self).tiles@ == old(self).tiles@ && *final(counter) == *old(counter),
    {
        let t = self.tiles[i];
        proof {
            assert(self.tile_ok(i as int));
        }
        if t.status == JobStatus::Generating {
            self.set_state(i, t.tag, JobStatus::Failed, t.uploaded);
            counter.release();
            true
        } else {
            false
        }
    }
}

/// What a pass adds to the actions: orders only for tiles it marked as
/// generating, one per admitted job, each for a distinct tile that had not
/// been started before (or is new); uploads only of tiles in the tree.
pub open spec fn pass_effect(
    old_tree: &TerrainTree,
    new_tree: &TerrainTree,
    old_counter: &AdmissionCounter,
    new_counter: &AdmissionCounter,
    old_actions: &LodActions,
    new_actions: &LodActions,
) -> bool {
    &&& TerrainTree::grows(old_tree, new_tree)
    &&& new_tree.ocean_built == old_tree.ocean_built
    &&& new_actions.build_ocean == old_actions.build_ocean
    &&& new_counter.spec_capacity() == old_counter.spec_capacity()
    &&& new_actions.start@.len() >= old_actions.start@.len()
    &&& new_actions.start@.subrange(0, old_actions.start@.len() as int) == old_actions.start@
    &&& new_counter.spec_in_flight() - old_counter.spec_in_flight() == new_actions.start@.len()
        - old_actions.start@.len()
    &&& forall|k: int|
        old_actions.start@.len() <= k < new_actions.start@.len() ==> {
            let o = #[trigger] new_actions.start@[k];
            &&& o.node < new_tree.tiles@.len()
            &&& new_tree.tiles@[o.node as int].status == JobStatus::Generating
            &&& (o.node >= old_tree.tiles@.len() || old_tree.tiles@[o.node as int].status
                == JobStatus::NotStarted)
        }
    &&& forall|k1: int, k2: int|
        old_actions.start@.len() <= k1 < k2 < new_actions.start@.len() ==> (
        #[trigger] new_actions.start@[k1]).node != (#[trigger] new_actions.start@[k2]).node
    &&& forall|k: int|
        old_actions.upload@.len() <= k < new_actions.upload@.len() ==> #[trigger] new_actions.upload@[k]
            < new_tree.tiles@.len()
    &&& new_actions.upload@.len() >= old_actions.upload@.len()
    &&& new_actions.upload@.subrange(0, old_actions.upload@.len() as int) == old_actions.upload@
}

proof fn lemma_pass_effect_refl(t: &TerrainTree, c: &AdmissionCounter, a: &LodActions)
    ensures
        pass_effect(t, t, c, c, a, a),
{
    assert(a.start@.subrange(0, a.start@.len() as int) =~= a.start@);
    assert(a.upload@.subrange(0, a.upload@.len() as int) =~= a.upload@);
}

proof fn lemma_pass_effect_trans(
    t1: &TerrainTree,
    t2: &TerrainTree,
    t3: &TerrainTree,
    c1: &AdmissionCounter,
    c2: &AdmissionCounter,
    c3: &AdmissionCounter,
    a1: &LodActions,
    a2: &LodActions,
    a3: &LodActions,
)
    requires
        pass_effect(t1, t2, c1, c2, a1, a2),
        pass_effect(t2, t3, c2, c3, a2, a3),
    ensures
        pass_effect(t1, t3, c1, c3, a1, a3),
{
    assert forall|j: int| 0 <= j < t1.tiles@.len() implies {
        &&& (#[trigger] t3.tiles@[j]).geom == t1.tiles@[j].geom
        &&& (t1.tiles@[j].first_child.is_some() ==> t3.tiles@[j].first_child
            == t1.tiles@[j].first_child)
        &&& status_step(t1.tiles@[j].status, t3.tiles@[j].status)
    } by {
        assert(t2.tiles@[j].geom == t1.tiles@[j].geom);
    }
    assert forall|k: int| a1.start@.len() <= k < a3.start@.len() implies {
        let o = #[trigger] a3.start@[k];
        &&& o.node < t3.tiles@.len()
        &&& t3.tiles@[o.node as int].status == JobStatus::Generating
        &&& (o.node >= t1.tiles@.len() || t1.tiles@[o.node as int].status == JobStatus::NotStarted)
    } by {
        if k < a2.start@.len() {
            assert(a3.start@.subrange(0, a2.start@.len() as int)[k] == a3.start@[k]);
            let o = a2.start@[k];
            assert(t3.tiles@[o.node as int].geom == t2.tiles@[o.node as int].geom);
        } else {
            let o = a3.start@[k];
            if o.node < t1.tiles@.len() {
                assert(t2.tiles@[o.node as int].geom == t1.tiles@[o.node as int].geom);
            }
        }
    }
    assert forall|k1: int, k2: int| a1.start@.len() <= k1 < k2 < a3.start@.len() implies (
        #[trigger] a3.start@[k1]).node != (#[trigger] a3.start@[k2]).node by {
        if k2 < a2.start@.len() {
            assert(a3.start@.subrange(0, a2.start@.len() as int)[k1] == a3.start@[k1]);
            assert(a3.start@.subrange(0, a2.start@.len() as int)[k2] == a3.start@[k2]);
            assert(a2.start@[k1].node != a2.start@[k2].node);
        } else if k1 < a2.start@.len() {
            assert(a3.start@.subrange(0, a2.start@.len() as int)[k1] == a3.start@[k1]);
            let o1 = a2.start@[k1];
            assert(t2.tiles@[o1.node as int].status == JobStatus::Generating);
            let o2 = a3.start@[k2];
            assert(o2.node >= t2.tiles@.len() || t2.tiles@[o2.node as int].status
                == JobStatus::NotStarted);
        }
    }
    assert forall|k: int| a1.upload@.len() <= k < a3.upload@.len() implies #[trigger] a3.upload@[k]
        < t3.tiles@.len() by {
        if k < a2.upload@.len() {
            assert(a3.upload@.subrange(0, a2.upload@.len() as int)[k] == a3.upload@[k]);
        }
    }
    assert(a3.start@.subrange(0, a1.start@.len() as int) =~= a1.start@) by {
        assert(a3.start@.subrange(0, a2.start@.len() as int) == a2.start@);
    }
    assert(a3.upload@.subrange(0, a1.upload@.len() as int) =~= a1.upload@) by {
        assert(a3.upload@.subrange(0, a2.upload@.len() as int) == a2.upload@);
    }
}

impl TerrainTree {
    /// Whether tile `i` can get its four children: it has them, or the arena
    /// has room for four more.
    pub open spec fn has_room(&self, i: int) -> bool {
        self.tiles@[i].first_child.is_some() || self.tiles@.len() + 4 <= usize::MAX
    }

    /// Decides tile `i` for a viewer seen from it as `sight`.
    ///
    /// If the planet's rule splits it (and the arena has room), the tile gets
    /// its four children unless it has them, passes through, and `Split` names
    /// its first child. Otherwise its mesh is asked for (`request`), the tile
    /// is drawn, and `Drawn` tells whether its mesh is ready.
    pub fn visit(
        &mut self,
        planet: &Planet,
        i: usize,
        sight: Sight,
        counter: &mut AdmissionCounter,
        actions: &mut LodActions,
    ) -> (r: Visit)
        requires
            old(self).wf(),
            i < old(self).tiles@.len(),
            planet.wf(),
        ensures
            final(self).wf(),
            pass_effect(old(self), final(self), old(counter), final(counter), old(actions), final(actions)),
            ({
                let t = old(self).tiles@[i as int];
                let u = final(self).tiles@[i as int];
                if planet.spec_subdivides(sight, t.geom.level as int) && old(self).has_room(i as int) {
                    &&& r matches Visit::Split(f)
                    &&& u == (Tile { tag: DrawTag::PassThrough, first_child: Some(r->Split_0), ..t })
                    &&& *final(counter) == *old(counter)
                    &&& final(actions).start@ == old(actions).start@
                    &&& final(actions).upload@ == old(actions).upload@
                    &&& forall|j: int|
                        0 <= j < old(self).tiles@.len() && j != i ==> #[trigger] final(self).tiles@[j]
                            == old(self).tiles@[j]
                    &&& t.first_child.is_some() ==> t.first_child == Some(r->Split_0)
                        && final(self).tiles@.len() == old(self).tiles@.len()
                    &&& t.first_child.is_none() ==> r->Split_0 == old(self).tiles@.len()
                        && final(self).tiles@.len() == old(self).tiles@.len() + 4 && forall|k: int|
                        0 <= k < 4 ==> #[trigger] final(self).tiles@[r->Split_0 + k] == fresh_tile(
                            t.geom.spec_quadrant(k),
                        )
                } else {
                    &&& r == Visit::Drawn(t.status == JobStatus::Ready)
                    &&& request_effect(old(self), final(self), old(counter), final(counter), old(actions), final(actions), i as int)
                    &&& u.tag == drawn_tag(u)
                }
            }),
    {
        let t = self.tiles[i];
        proof {
            assert(self.tile_ok(i as int));
        }
        let room = t.first_child.is_some() || self.tiles.len() <= usize::MAX - 4;
        if planet.subdivides(sight, t.geom.level) && room {
            let f = self.ensure_children(i);
            let ghost t1 = *self;
            proof {
                lemma_pass_effect_refl(old(self), old(counter), old(actions));
                assert(self.tile_ok(i as int));
            }
            self.set_state(i, DrawTag::PassThrough, t.status, t.uploaded);
            proof {
                lemma_pass_effect_refl(&t1, counter, actions);
                lemma_pass_effect_trans(old(self), &t1, self, old(counter), old(counter), counter, old(actions), old(actions), actions);
            }
            Visit::Split(f)
        } else {
            let r = self.request(i, counter, actions);
            let u = self.tiles[i];
            proof {
                assert(self.tile_ok(i as int));
            }
            self.set_state(i, if u.uploaded { DrawTag::Ready } else { DrawTag::Pending }, u.status, u.uploaded);
            proof {
                assert(actions.start@.subrange(0, old(actions).start@.len() as int) =~= old(actions).start@);
                assert(actions.upload@.subrange(0, old(actions).upload@.len() as int) =~= old(actions).upload@);
            }
            Visit::Drawn(r)
        }
    }

}

/// The sight that `measure` reports for a tile.
pub open spec fn measured<F: Fn(TileGeom) -> Sight>(measure: &F, g: TileGeom) -> Sight {
    choose|s: Sight| measure.ensures((g,), s)
}

/// `measure` can be asked about any tile, and reports one sight per tile.
pub open spec fn measures_consistently<F: Fn(TileGeom) -> Sight>(measure: &F) -> bool {
    &&& forall|g: TileGeom| measure.requires((g,))
    &&& forall|g: TileGeom, a: Sight, b: Sight|
        measure.ensures((g,), a) && measure.ensures((g,), b) ==> a == b
}

/// Whether the planet's rule splits a tile, seen as `measure` reports.
pub open spec fn splits<F: Fn(TileGeom) -> Sight>(planet: &Planet, measure: &F, g: TileGeom) -> bool {
    planet.spec_subdivides(measured(measure, g), g.level as int)
}

/// Levels left below tile `i`.
pub open spec fn depth_left(tree: &TerrainTree, i: int) -> nat {
    (MAX_LEVEL - tree.tiles@[i].geom.level) as nat
}

/// Whether everything drawn at or under tile `i` has its mesh: a tile that
/// the rule splits and that has children is ready when all four are; any
/// other tile when its own mesh is built.
pub open spec fn ready_at<F: Fn(TileGeom) -> Sight>(
    planet: &Planet,
    measure: &F,
    tree: &TerrainTree,
    i: int,
    d: nat,
) -> bool
    decreases d,
{
    let t = tree.tiles@[i];
    if splits(planet, measure, t.geom) && t.first_child.is_some() && d > 0 {
        let f = t.first_child->Some_0 as int;
        &&& ready_at(planet, measure, tree, f, (d - 1) as nat)
        &&& ready_at(planet, measure, tree, f + 1, (d - 1) as nat)
        &&& ready_at(planet, measure, tree, f + 2, (d - 1) as nat)
        &&& ready_at(planet, measure, tree, f + 3, (d - 1) as nat)
    } else {
        t.status == JobStatus::Ready
    }
}

pub open spec fn ready_in<F: Fn(TileGeom) -> Sight>(
    planet: &Planet,
    measure: &F,
    tree: &TerrainTree,
    i: int,
) -> bool {
    ready_at(planet, measure, tree, i, depth_left(tree, i))
}

/// No job can be admitted: the counter is at its capacity.
pub open spec fn is_full(counter: &AdmissionCounter) -> bool {
    counter.spec_in_flight() >= counter.spec_capacity()
}

/// A drawn tile has been asked for: its mesh is being built or is built,
/// unless no job could be admitted (`full`), and a built mesh is uploaded.
pub open spec fn asked_for(t: Tile, full: bool) -> bool {
    &&& t.status != JobStatus::NotStarted || full
    &&& t.status == JobStatus::Ready ==> t.uploaded
}

/// Tile `i` and the tiles under it have been through a pass: every tile
/// there that the rule splits has its four children (which have been through
/// it too), unless the arena had no room for them; every tile drawn instead
/// has been asked for.
pub open spec fn settled_at<F: Fn(TileGeom) -> Sight>(
    planet: &Planet,
    measure: &F,
    tree: &TerrainTree,
    full: bool,
    i: int,
    d: nat,
) -> bool
    decreases d,
{
    let t = tree.tiles@[i];
    if splits(planet, measure, t.geom) {
        match t.first_child {
            Some(f) => if d == 0 {
                false
            } else {
                &&& settled_at(planet, measure, tree, full, f as int, (d - 1) as nat)
                &&& settled_at(planet, measure, tree, full, f + 1, (d - 1) as nat)
                &&& settled_at(planet, measure, tree, full, f + 2, (d - 1) as nat)
                &&& settled_at(planet, measure, tree, full, f + 3, (d - 1) as nat)
            },
            None => tree.tiles@.len() + 4 > usize::MAX && asked_for(t, full),
        }
    } else {
        asked_for(t, full)
    }
}

pub open spec fn settled_in<F: Fn(TileGeom) -> Sight>(
    planet: &Planet,
    measure: &F,
    tree: &TerrainTree,
    counter: &AdmissionCounter,
    i: int,
) -> bool {
    settled_at(planet, measure, tree, is_full(counter), i, depth_left(tree, i))
}

/// How tile `i` shows after a pass: it passes through when the rule splits
/// it, it has children and all of them are ready; otherwise it is drawn.
pub open spec fn tag_in<F: Fn(TileGeom) -> Sight>(
    planet: &Planet,
    measure: &F,
    tree: &TerrainTree,
    i: int,
) -> DrawTag {
    let t = tree.tiles@[i];
    if splits(planet, measure, t.geom) && t.first_child.is_some() && ready_in(
        planet,
        measure,
        tree,
        i,
    ) {
        DrawTag::PassThrough
    } else {
        drawn_tag(t)
    }
}

/// Tiles gain children from `before` to `after` (or are made and gain
/// children in between) only where the rule splits them, and tiles of
/// `before` only when it had room for four more tiles.
pub open spec fn children_only_where_split<F: Fn(TileGeom) -> Sight>(
    planet: &Planet,
    measure: &F,
    before: &TerrainTree,
    after: &TerrainTree,
) -> bool {
    forall|j: int|
        0 <= j < after.tiles@.len() && (j >= before.tiles@.len() || before.tiles@[j].first_child.is_none())
            && (#[trigger] after.tiles@[j]).first_child.is_some() ==> splits(
            planet,
            measure,
            after.tiles@[j].geom,
        ) && (j < before.tiles@.len() ==> before.tiles@.len() + 4 <= usize::MAX)
}

/// The most tiles that one step at a tile with `n` splitting levels below it
/// can add: its four children, and as many again under each of them.
pub open spec fn pass_growth(n: nat) -> nat
    decreases n,
{
    if n == 0 {
        0
    } else {
        4 + 4 * pass_growth((n - 1) as nat)
    }
}

/// Levels from `level` down to the planet's deepest at which tiles may split.
pub open spec fn levels_to_go(planet: &Planet, level: int) -> nat {
    if level < planet.max_lod {
        (planet.max_lod - level) as nat
    } else {
        0
    }
}

proof fn lemma_measured<F: Fn(TileGeom) -> Sight>(measure: &F, g: TileGeom, s: Sight)
    requires
        measures_consistently(measure),
        measure.ensures((g,), s),
    ensures
        measured(measure, g) == s,
{
}

proof fn lemma_split_trans<F: Fn(TileGeom) -> Sight>(
    planet: &Planet,
    measure: &F,
    t1: &TerrainTree,
    t2: &TerrainTree,
    t3: &TerrainTree,
)
    requires
        TerrainTree::grows(t1, t2),
        TerrainTree::grows(t2, t3),
        children_only_where_split(planet, measure, t1, t2),
        children_only_where_split(planet, measure, t2, t3),
    ensures
        children_only_where_split(planet, measure, t1, t3),
{
    assert forall|j: int|
        0 <= j < t3.tiles@.len() && (j >= t1.tiles@.len() || t1.tiles@[j].first_child.is_none())
            && (#[trigger] t3.tiles@[j]).first_child.is_some() implies splits(
        planet,
        measure,
        t3.tiles@[j].geom,
    ) && (j < t1.tiles@.len() ==> t1.tiles@.len() + 4 <= usize::MAX) by {
        if j < t2.tiles@.len() {
            assert(t3.tiles@[j].geom == t2.tiles@[j].geom);
            if t2.tiles@[j].first_child.is_some() {
                assert(j >= t1.tiles@.len() || t1.tiles@[j].first_child.is_none());
            }
        }
    }
}

/// A tile that has been through a pass stays so, and keeps its readiness,
/// through whatever later passes do to the tree.
proof fn lemma_settled_stable<F: Fn(TileGeom) -> Sight>(
    planet: &Planet,
    measure: &F,
    t1: &TerrainTree,
    t2: &TerrainTree,
    full1: bool,
    full2: bool,
    i: int,
    d: nat,
)
    requires
        t1.wf(),
        TerrainTree::grows(t1, t2),
        children_only_where_split(planet, measure, t1, t2),
        full1 ==> full2,
        0 <= i < t1.tiles@.len(),
        settled_at(planet, measure, t1, full1, i, d),
    ensures
        settled_at(planet, measure, t2, full2, i, d),
        ready_at(planet, measure, t2, i, d) == ready_at(planet, measure, t1, i, d),
    decreases d,
{
    let a = t1.tiles@[i];
    let b = t2.tiles@[i];
    assert(t1.tile_ok(i));
    assert(b.geom == a.geom);
    assert(status_step(a.status, b.status));
    match a.first_child {
        Some(f) => {
            assert(b.first_child == Some(f));
            if splits(planet, measure, a.geom) && d > 0 {
                lemma_settled_stable(planet, measure, t1, t2, full1, full2, f as int, (d - 1) as nat);
                lemma_settled_stable(planet, measure, t1, t2, full1, full2, f + 1, (d - 1) as nat);
                lemma_settled_stable(planet, measure, t1, t2, full1, full2, f + 2, (d - 1) as nat);
                lemma_settled_stable(planet, measure, t1, t2, full1, full2, f + 3, (d - 1) as nat);
            }
        },
        None => {
            if splits(planet, measure, a.geom) {
                assert(b.first_child.is_none());
            }
        },
    }
}

/// The first `n` faces have been through a pass, and show as they should.
pub open spec fn faces_settled<F: Fn(TileGeom) -> Sight>(
    planet: &Planet,
    measure: &F,
    tree: &TerrainTree,
    counter: &AdmissionCounter,
    n: int,
) -> bool {
    forall|g: int|
        0 <= g < n ==> #[trigger] settled_in(planet, measure, tree, counter, g)
            && tree.tiles@[g].tag == tag_in(planet, measure, tree, g)
}

impl Planet {
    /// One level-of-detail step on tile `i` and, where it splits, on its
    /// descendants. `measure` tells how the viewer sees a tile.
    ///
    /// The tile splits when `self.subdivides` says so for what `measure`
    /// reports (and the arena has room): it gets its four children if it has
    /// none, each of them goes through the same step one level down, and the
    /// answer is whether all four are ready; the tile passes through when
    /// they are and stays drawn while they are not. A tile that does not
    /// split is drawn, its mesh is asked for (`request`), and the answer is
    /// whether that mesh is ready. Only tile `i` and tiles deeper than it are
    /// touched.
    pub fn lod_terrain<F: Fn(TileGeom) -> Sight>(
        &self,
        tree: &mut TerrainTree,
        i: usize,
        measure: &F,
        counter: &mut AdmissionCounter,
        actions: &mut LodActions,
    ) -> (ready: bool)
        requires
            old(tree).wf(),
            i < old(tree).tiles@.len(),
            self.wf(),
            measures_consistently(measure),
            old(tree).tiles@.len() + pass_growth(
                levels_to_go(self, old(tree).tiles@[i as int].geom.level as int),
            ) + 4 <= usize::MAX,
        ensures
            final(tree).wf(),
            final(tree).tiles@.len() <= old(tree).tiles@.len() + pass_growth(
                levels_to_go(self, old(tree).tiles@[i as int].geom.level as int),
            ),
            final(tree).tiles@.len() + 4 <= usize::MAX,
            pass_effect(old(tree), final(tree), old(counter), final(counter), old(actions), final(actions)),
            children_only_where_split(self, measure, old(tree), final(tree)),
            forall|j: int|
                0 <= j < old(tree).tiles@.len() && j != i && old(tree).tiles@[j].geom.level
                    <= old(tree).tiles@[i as int].geom.level ==> #[trigger] final(tree).tiles@[j]
                    == old(tree).tiles@[j],
            settled_in(self, measure, final(tree), final(counter), i as int),
            ready == ready_in(self, measure, final(tree), i as int),
            final(tree).tiles@[i as int].tag == tag_in(self, measure, final(tree), i as int),
            ({
                let t = old(tree).tiles@[i as int];
                let u = final(tree).tiles@[i as int];
                if splits(self, measure, t.geom) && old(tree).has_room(i as int) {
                    &&& u.first_child.is_some()
                    &&& t.first_child.is_some() ==> u.first_child == t.first_child
                    &&& u.status == t.status
                    &&& u.uploaded == t.uploaded
                } else {
                    &&& ready == (t.status == JobStatus::Ready)
                    &&& request_effect(old(tree), final(tree), old(counter), final(counter), old(actions), final(actions), i as int)
                }
            }),
        decreases MAX_LEVEL - old(tree).tiles@[i as int].geom.level, 1int,
    {
        let t = tree.tiles[i];
        proof {
            assert(tree.tile_ok(i as int));
        }
        let sight = measure(t.geom);
        proof {
            lemma_measured(measure, t.geom, sight);
        }
        let ghost t0 = *tree;
        let ghost c0 = *counter;
        let ghost a0 = *actions;
        let ghost d = depth_left(&t0, i as int);
        match tree.visit(self, i, sight, counter, actions) {
            Visit::Split(f) => {
                let ghost t2 = *tree;
                let ghost c2 = *counter;
                let ghost a2 = *actions;
                proof {
                    assert(tree.tile_ok(i as int));
                    assert forall|j: int|
                        0 <= j < t2.tiles@.len() && (j >= t0.tiles@.len()
                            || t0.tiles@[j].first_child.is_none())
                            && (#[trigger] t2.tiles@[j]).first_child.is_some() implies splits(
                        self,
                        measure,
                        t2.tiles@[j].geom,
                    ) && (j < t0.tiles@.len() ==> t0.tiles@.len() + 4 <= usize::MAX) by {
                        if j >= t0.tiles@.len() {
                            assert(t2.tiles@[f + (j - f)] == fresh_tile(t.geom.spec_quadrant(j - f)));
                        }
                    }
                }
                let ready = self.lod_children(tree, i, f, measure, counter, actions);
                let ghost t3 = *tree;
                let ghost c3 = *counter;
                let ghost a3 = *actions;
                proof {
                    lemma_pass_effect_trans(&t0, &t2, &t3, &c0, &c2, &c3, &a0, &a2, &a3);
                    lemma_split_trans(self, measure, &t0, &t2, &t3);
                    assert(tree.tile_ok(i as int));
                    assert(t3.tiles@[i as int] == t2.tiles@[i as int]);
                    assert(t2.tiles@[i as int].first_child == Some(f));
                    assert(splits(self, measure, t.geom));
                    assert(d > 0);
                    let e = (d - 1) as nat;
                    let fi = f as int;
                    assert(settled_at(self, measure, &t3, is_full(&c3), fi + 0, e));
                    assert(settled_at(self, measure, &t3, is_full(&c3), fi + 1, e));
                    assert(settled_at(self, measure, &t3, is_full(&c3), fi + 2, e));
                    assert(settled_at(self, measure, &t3, is_full(&c3), fi + 3, e));
                    assert(ready == (ready_at(self, measure, &t3, fi + 0, e) && ready_at(self, measure, &t3, fi + 1, e)
                        && ready_at(self, measure, &t3, fi + 2, e) && ready_at(self, measure, &t3, fi + 3, e)));
                    assert(ready_in(self, measure, &t3, i as int) == ready);
                    assert(settled_in(self, measure, &t3, &c3, i as int));
                }
                if !ready {
                    let u = tree.tiles[i];
                    tree.set_state(i, if u.uploaded { DrawTag::Ready } else { DrawTag::Pending }, u.status, u.uploaded);
                    proof {
                        lemma_pass_effect_refl(&t3, &c3, &a3);
                        lemma_pass_effect_trans(&t0, &t3, tree, &c0, &c3, &c3, &a0, &a3, &a3);
                        assert(tree.tiles@[i as int].first_child == Some(f));
                        lemma_settled_stable(self, measure, &t3, tree, is_full(&c3), is_full(counter), i as int, d);
                    }
                }
                ready
            },
            Visit::Drawn(r) => {
                proof {
                    assert(tree.tile_ok(i as int));
                    assert(d == depth_left(tree, i as int));
                }
                r
            },
        }
    }

    /// Runs `lod_terrain` on the four children of tile `i`, which start at
    /// `f`; true when all four are ready.
    fn lod_children<F: Fn(TileGeom) -> Sight>(
        &self,
        tree: &mut TerrainTree,
        i: usize,
        f: usize,
        measure: &F,
        counter: &mut AdmissionCounter,
        actions: &mut LodActions,
    ) -> (ready: bool)
        requires
            old(tree).wf(),
            i < old(tree).tiles@.len(),
            old(tree).tiles@[i as int].first_child == Some(f),
            self.wf(),
            measures_consistently(measure),
            old(tree).tiles@.len() + 4 * pass_growth(
                levels_to_go(self, old(tree).tiles@[i as int].geom.level + 1),
            ) + 4 <= usize::MAX,
        ensures
            final(tree).wf(),
            final(tree).tiles@.len() <= old(tree).tiles@.len() + 4 * pass_growth(
                levels_to_go(self, old(tree).tiles@[i as int].geom.level + 1),
            ),
            pass_effect(old(tree), final(tree), old(counter), final(counter), old(actions), final(actions)),
            children_only_where_split(self, measure, old(tree), final(tree)),
            forall|j: int|
                0 <= j < old(tree).tiles@.len() && old(tree).tiles@[j].geom.level
                    <= old(tree).tiles@[i as int].geom.level ==> #[trigger] final(tree).tiles@[j]
                    == old(tree).tiles@[j],
            forall|k: int|
                0 <= k < 4 ==> settled_at(
                    self,
                    measure,
                    final(tree),
                    is_full(final(counter)),
                    #[trigger] (f + k),
                    (depth_left(old(tree), i as int) - 1) as nat,
                ),
            ready == (forall|k: int|
                0 <= k < 4 ==> ready_at(
                    self,
                    measure,
                    final(tree),
                    #[trigger] (f + k),
                    (depth_left(old(tree), i as int) - 1) as nat,
                )),
        decreases MAX_LEVEL - old(tree).tiles@[i as int].geom.level, 0int,
    {
        let ghost t0 = *tree;
        let ghost c0 = *counter;
        let ghost a0 = *actions;
        let ghost ti = tree.tiles@[i as int];
        let ghost e = (depth_left(&t0, i as int) - 1) as nat;
        let ghost gc = pass_growth(levels_to_go(self, ti.geom.level + 1)) as int;
        proof {
            assert(tree.tile_ok(i as int));
            lemma_pass_effect_refl(&t0, &c0, &a0);
        }
        let mut ready = true;
        let mut k: usize = 0;
        while k < 4
            invariant
                0 <= k <= 4,
                tree.wf(),
                t0.wf(),
                i < t0.tiles@.len(),
                ti == t0.tiles@[i as int],
                ti == old(tree).tiles@[i as int],
                ti.first_child == Some(f),
                ti.geom.level < MAX_LEVEL,
                f + 4 <= t0.tiles@.len(),
                f + 4 <= usize::MAX,
                e == MAX_LEVEL - ti.geom.level - 1,
                gc == pass_growth(levels_to_go(self, ti.geom.level + 1)),
                t0.tiles@.len() + 4 * gc + 4 <= usize::MAX,
                tree.tiles@.len() <= t0.tiles@.len() + k * gc,
                forall|m: int| 0 <= m < 4 ==> #[trigger] t0.tiles@[f + m].geom == ti.geom.spec_quadrant(m),
                self.wf(),
                measures_consistently(measure),
                pass_effect(&t0, tree, &c0, counter, &a0, actions),
                children_only_where_split(self, measure, &t0, tree),
                forall|j: int|
                    0 <= j < t0.tiles@.len() && t0.tiles@[j].geom.level <= ti.geom.level
                        ==> #[trigger] tree.tiles@[j] == t0.tiles@[j],
                forall|m: int| 0 <= m < k ==> settled_at(self, measure, tree, is_full(counter), #[trigger] (f + m), e),
                ready == (forall|m: int| 0 <= m < k ==> ready_at(self, measure, tree, #[trigger] (f + m), e)),
            decreases 4 - k,
        {
            let ghost tb = *tree;
            let ghost cb = *counter;
            let ghost ab = *actions;
            proof {
                assert(t0.tiles@[f + k as int].geom == ti.geom.spec_quadrant(k as int));
                assert(tree.tiles@[f + k as int].geom == t0.tiles@[f + k as int].geom);
                assert(tree.tiles@[f + k as int].geom.level == ti.geom.level + 1);
                assert(k * gc + gc <= 4 * gc) by (nonlinear_arith)
                    requires
                        k < 4,
                        gc >= 0,
                ;
            }
            let r = self.lod_terrain(tree, f + k, measure, counter, actions);
            proof {
                lemma_pass_effect_trans(&t0, &tb, tree, &c0, &cb, counter, &a0, &ab, actions);
                lemma_split_trans(self, measure, &t0, &tb, tree);
                assert(k * gc + gc == (k + 1) * gc) by (nonlinear_arith);
                assert(depth_left(tree, f + k as int) == e);
                assert forall|m: int| 0 <= m < k implies {
                    &&& settled_at(self, measure, tree, is_full(counter), #[trigger] (f + m), e)
                    &&& ready_at(self, measure, tree, f + m, e) == ready_at(self, measure, &tb, f + m, e)
                } by {
                    lemma_settled_stable(self, measure, &tb, tree, is_full(&cb), is_full(counter), f + m, e);
                }
                assert forall|j: int|
                    0 <= j < t0.tiles@.len() && t0.tiles@[j].geom.level <= ti.geom.level
                        implies #[trigger] tree.tiles@[j] == t0.tiles@[j] by {
                    assert(tb.tiles@[j] == t0.tiles@[j]);
                }
            }
            ready = ready && r;
            proof {
                assert(ready == (forall|m: int| 0 <= m < k + 1 ==> ready_at(self, measure, tree, #[trigger] (f + m), e))) by {
                    if ready {
                        assert forall|m: int| 0 <= m < k + 1 implies ready_at(self, measure, tree, #[trigger] (f + m), e) by {
                            if m < k {
                                assert(ready_at(self, measure, &tb, f + m, e));
                            }
                        }
                    } else {
                        if !r {
                            assert(!ready_at(self, measure, tree, f + k as int, e));
                        } else {
                            let m = choose|m: int| 0 <= m < k && !ready_at(self, measure, &tb, #[trigger] (f + m), e);
                            assert(!ready_at(self, measure, tree, f + m, e));
                        }
                    }
                }
            }
            k = k + 1;
        }
        ready
    }

    /// The level-of-detail pass of this planet over its terrain:
    /// `lod_terrain` on each of the six faces, in face order. The arena must
    /// have room for what a pass can add, so every tile the rule splits gets
    /// its children, and only those do. The ocean shell
    /// is asked for once, on the first pass of a planet that has one.
    pub fn lod<F: Fn(TileGeom) -> Sight>(
        &self,
        tree: &mut TerrainTree,
        measure: &F,
        counter: &mut AdmissionCounter,
    ) -> (r: LodActions)
        requires
            old(tree).wf(),
            self.wf(),
            measures_consistently(measure),
            old(tree).tiles@.len() + 6 * pass_growth(self.max_lod as nat) + 4 <= usize::MAX,
        ensures
            final(tree).wf(),
            final(tree).tiles@.len() <= old(tree).tiles@.len() + 6 * pass_growth(self.max_lod as nat),
            final(tree).tiles@.len() + 4 <= usize::MAX,
            TerrainTree::grows(old(tree), final(tree)),
            children_only_where_split(self, measure, old(tree), final(tree)),
            forall|i: int|
                0 <= i < 6 ==> #[trigger] settled_in(self, measure, final(tree), final(counter), i)
                    && final(tree).tiles@[i].tag == tag_in(self, measure, final(tree), i),
            final(counter).spec_capacity() == old(counter).spec_capacity(),
            final(counter).spec_in_flight() - old(counter).spec_in_flight() == r.start@.len(),
            forall|k: int|
                0 <= k < r.start@.len() ==> {
                    let o = #[trigger] r.start@[k];
                    &&& o.node < final(tree).tiles@.len()
                    &&& final(tree).tiles@[o.node as int].status == JobStatus::Generating
                    &&& (o.node >= old(tree).tiles@.len() || old(tree).tiles@[o.node as int].status
                        == JobStatus::NotStarted)
                },
            forall|k1: int, k2: int|
                0 <= k1 < k2 < r.start@.len() ==> (#[trigger] r.start@[k1]).node != (
                #[trigger] r.start@[k2]).node,
            forall|k: int| 0 <= k < r.upload@.len() ==> #[trigger] r.upload@[k] < final(tree).tiles@.len(),
            r.build_ocean == (self.has_ocean && !old(tree).ocean_built),
            final(tree).ocean_built == (old(tree).ocean_built || self.has_ocean),
    {
        let mut actions = LodActions::new();
        let ghost t0 = *tree;
        let ghost c0 = *counter;
        let ghost a0 = actions;
        proof {
            lemma_pass_effect_refl(&t0, &c0, &a0);
        }
        let mut face: usize = 0;
        while face < 6
            invariant
                0 <= face <= 6,
                tree.wf(),
                tree.ocean_built == t0.ocean_built,
                !actions.build_ocean,
                self.wf(),
                measures_consistently(measure),
                pass_effect(&t0, tree, &c0, counter, &a0, &actions),
                children_only_where_split(self, measure, &t0, tree),
                a0.start@.len() == 0,
                a0.upload@.len() == 0,
                t0.tiles@.len() + 6 * pass_growth(self.max_lod as nat) + 4 <= usize::MAX,
                tree.tiles@.len() <= t0.tiles@.len() + face * pass_growth(self.max_lod as nat),
                faces_settled(self, measure, &*tree, &*counter, face as int),
            decreases 6 - face,
        {
            let ghost tb = *tree;
            let ghost cb = *counter;
            let ghost ab = actions;
            proof {
                let gm = pass_growth(self.max_lod as nat) as int;
                assert(tree.tiles@[face as int].geom == TileGeom::spec_root(face_of(face as int)));
                assert(pass_growth(levels_to_go(self, 0)) == gm);
                assert(face * gm + gm <= 6 * gm) by (nonlinear_arith)
                    requires
                        face < 6,
                        gm >= 0,
                ;
                assert(face * gm + gm == (face + 1) * gm) by (nonlinear_arith);
            }
            self.lod_terrain(tree, face, measure, counter, &mut actions);
            face = face + 1;
            proof {
                lemma_pass_effect_trans(&t0, &tb, tree, &c0, &cb, counter, &a0, &ab, &actions);
                lemma_split_trans(self, measure, &t0, &tb, tree);
                assert forall|g: int|
                    0 <= g < face implies #[trigger] settled_in(self, measure, &*tree, &*counter, g)
                        && tree.tiles@[g].tag == tag_in(self, measure, &*tree, g) by {
                    if g < face - 1 {
                        assert(settled_in(self, measure, &tb, &cb, g));
                        assert(tb.tiles@[g].geom == TileGeom::spec_root(face_of(g)));
                        assert(tb.tiles@[face - 1].geom == TileGeom::spec_root(face_of(face - 1)));
                        assert(tree.tiles@[g] == tb.tiles@[g]);
                        lemma_settled_stable(self, measure, &tb, tree, is_full(&cb), is_full(counter), g, depth_left(&tb, g));
                        assert(tb.tiles@[g].tag == tag_in(self, measure, &tb, g));
                        assert(ready_in(self, measure, tree, g) == ready_in(self, measure, &tb, g));
                        assert(tree.tiles@[g].tag == tag_in(self, measure, &*tree, g));
                    } else {
                        assert(settled_in(self, measure, &*tree, &*counter, g));
                        assert(tree.tiles@[g].tag == tag_in(self, measure, &*tree, g));
                    }
                }
                assert(faces_settled(self, measure, &*tree, &*counter, face as int));
            }
        }
        assert(face == 6);
        if self.has_ocean && !tree.ocean_built {
            let ghost before = *tree;
            actions.build_ocean = true;
            tree.ocean_built = true;
            proof {
                assert forall|j: int| 0 <= j < tree.tiles@.len() implies #[trigger] tree.tile_ok(j) by {
                    assert(before.tile_ok(j));
                }
                assert forall|g: int|
                    0 <= g < 6 implies #[trigger] settled_in(self, measure, &*tree, &*counter, g)
                        && tree.tiles@[g].tag == tag_in(self, measure, &*tree, g) by {
                    assert(settled_in(self, measure, &before, counter, g));
                    assert(before.tiles@ == tree.tiles@);
                    lemma_settled_stable(self, measure, &before, tree, is_full(counter), is_full(counter), g, depth_left(&before, g));
                    assert(tree.tiles@[g] == before.tiles@[g]);
                    assert(before.tiles@[g].tag == tag_in(self, measure, &before, g));
                    assert(ready_in(self, measure, tree, g) == ready_in(self, measure, &before, g));
                }
            }
        }
        assert forall|g: int| 0 <= g < 6 implies #[trigger] settled_in(self, measure, &*tree, &*counter, g) by {
        }
        assert forall|g: int| 0 <= g < 6 implies tree.tiles@[g].tag == tag_in(self, measure, &*tree, g) by {
            assert(settled_in(self, measure, &*tree, &*counter, g));
        }
        actions
    }
}

proof fn lemma_attach(before: TerrainTree, after: TerrainTree, i: int)
    requires
        before.wf(),
        0 <= i < before.tiles@.len(),
        before.tiles@[i].first_child.is_none(),
        before.tiles@[i].geom.level < MAX_LEVEL,
        before.tiles@.len() + 4 <= usize::MAX,
        after.tiles@.len() == before.tiles@.len() + 4,
        after.tiles@[i] == (Tile { first_child: Some(before.tiles@.len() as usize), ..before.tiles@[i] }),
        forall|j: int| 0 <= j < before.tiles@.len() && j != i ==> #[trigger] after.tiles@[j] == before.tiles@[j],
        forall|m: int|
            0 <= m < 4 ==> #[trigger] after.tiles@[before.tiles@.len() + m] == fresh_tile(
                before.tiles@[i].geom.spec_quadrant(m),
            ),
    ensures
        after.wf(),
        TerrainTree::grows(&before, &after),
        forall|j: int|
            before.tiles@.len() <= j < after.tiles@.len() ==> (#[trigger] after.tiles@[j]).status
                == JobStatus::NotStarted,
{
    let f = before.tiles@.len() as int;
    let t = before.tiles@[i];
    assert(before.tile_ok(i));
    assert forall|j: int| 0 <= j < after.tiles@.len() implies #[trigger] after.tile_ok(j) by {
        if j < f {
            assert(before.tile_ok(j));
            if j != i {
                if let Some(g) = after.tiles@[j].first_child {
                    assert forall|m: int| 0 <= m < 4 implies #[trigger] after.tiles@[g + m].geom
                        == after.tiles@[j].geom.spec_quadrant(m) by {
                        assert(before.tiles@[g + m].geom == before.tiles@[j].geom.spec_quadrant(m));
                    }
                }
            } else {
                assert(after.tiles@[i].first_child == Some(f as usize));
                assert((f as usize) as int == f);
                assert forall|m: int| 0 <= m < 4 implies #[trigger] after.tiles@[f + m].geom
                    == after.tiles@[j].geom.spec_quadrant(m) by {
                    assert(after.tiles@[f + m] == fresh_tile(t.geom.spec_quadrant(m)));
                }
                assert(after.tile_ok(j));
            }
        } else {
            assert(after.tiles@[f + (j - f)] == fresh_tile(t.geom.spec_quadrant(j - f)));
            lemma_quadrant_wf(t.geom, j - f);
            assert(after.tile_ok(j));
        }
    }
    assert forall|j: int| f <= j < after.tiles@.len() implies (#[trigger] after.tiles@[j]).status
        == JobStatus::NotStarted by {
        assert(after.tiles@[f + (j - f)] == fresh_tile(t.geom.spec_quadrant(j - f)));
    }
    assert forall|j: int| 0 <= j < 6 implies #[trigger] after.tiles@[j].geom == TileGeom::spec_root(
        face_of(j),
    ) by {
        assert(before.tiles@[j].geom == TileGeom::spec_root(face_of(j)));
    }
}

/// In a well-formed tree (which `new` builds and which `request`, `complete`,
/// `visit`, `lod_terrain` and `lod` keep), every tile has either no children or exactly
/// four: distinct tiles of the tree, one for each quadrant, one level deeper.
pub proof fn lemma_children_none_or_four(tree: &TerrainTree)
    requires
        tree.wf(),
    ensures
        forall|i: int|
            0 <= i < tree.tiles@.len() ==> {
                let c = #[trigger] tree.children(i);
                &&& c.len() == 0 || c.len() == 4
                &&& c.no_duplicates()
                &&& forall|k: int|
                    0 <= k < c.len() ==> {
                        &&& 0 <= c[k] < tree.tiles@.len()
                        &&& tree.tiles@[c[k]].geom == tree.tiles@[i].geom.spec_quadrant(k)
                        &&& tree.tiles@[c[k]].geom.level == tree.tiles@[i].geom.level + 1
                    }
            },
{
    assert forall|i: int| 0 <= i < tree.tiles@.len() implies {
        let c = #[trigger] tree.children(i);
        &&& c.len() == 0 || c.len() == 4
        &&& c.no_duplicates()
        &&& forall|k: int|
            0 <= k < c.len() ==> {
                &&& 0 <= c[k] < tree.tiles@.len()
                &&& tree.tiles@[c[k]].geom == tree.tiles@[i].geom.spec_quadrant(k)
                &&& tree.tiles@[c[k]].geom.level == tree.tiles@[i].geom.level + 1
            }
    } by {
        assert(tree.tile_ok(i));
        let c = tree.children(i);
        if let Some(f) = tree.tiles@[i].first_child {
            assert forall|k: int| 0 <= k < c.len() implies {
                &&& 0 <= c[k] < tree.tiles@.len()
                &&& tree.tiles@[c[k]].geom == tree.tiles@[i].geom.spec_quadrant(k)
                &&& tree.tiles@[c[k]].geom.level == tree.tiles@[i].geom.level + 1
            } by {
                assert(c[k] == f + k);
                assert(tree.tiles@[f + k].geom == tree.tiles@[i].geom.spec_quadrant(k));
            }
        }
    }
}

} // verus!
