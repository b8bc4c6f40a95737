use vstd::prelude::*;

verus! {

/// Half the side of a cube face in face-local units: a face spans
/// `[-FACE_HALF, FACE_HALF]` along its two in-plane axes and lies at
/// distance `FACE_HALF` from the centre along its normal.
pub const FACE_HALF: i64 = 0x1_0000_0000;

/// The deepest level at which tile halves stay exact in face-local units.
pub const MAX_LEVEL: u32 = 32;

/// The six faces of the cube that the sphere is projected from. Each face is
/// the top face turned by a quarter or half turn about the x or z axis.
#[derive(Clone, Copy, Debug, PartialEq, Eq, Structural)]
pub enum Face {
    Top,
    Bottom,
    Front,
    Back,
    Left,
    Right,
}

/// The face with a given index, in the order top, bottom, front, back, left, right.
pub open spec fn face_of(i: int) -> Face {
    if i == 0 {
        Face::Top
    } else if i == 1 {
        Face::Bottom
    } else if i == 2 {
        Face::Front
    } else if i == 3 {
        Face::Back
    } else if i == 4 {
        Face::Left
    } else {
        Face::Right
    }
}

/// The turn that carries the top face onto `face`, applied to a point:
/// a half turn about x (bottom), a quarter turn about x either way (front,
/// back), or a quarter turn about z either way (left, right).
pub open spec fn rotated(face: Face, x: int, y: int, z: int) -> (int, int, int) {
    match face {
        Face::Top => (x, y, z),
        Face::Bottom => (x, -y, -z),
        Face::Front => (x, -z, y),
        Face::Back => (x, z, -y),
        Face::Left => (y, -x, z),
        Face::Right => (-y, x, z),
    }
}

impl Face {
    pub fn from_index(i: usize) -> (r: Face)
        requires
            i < 6,
        ensures
            r == face_of(i as int),
    {
        if i == 0 {
            Face::Top
        } else if i == 1 {
            Face::Bottom
        } else if i == 2 {
            Face::Front
        } else if i == 3 {
            Face::Back
        } else if i == 4 {
            Face::Left
        } else {
            Face::Right
        }
    }

    /// Applies the face's turn to a point.
    pub fn rotate(&self, x: i64, y: i64, z: i64) -> (r: (i64, i64, i64))
        requires
            x > i64::MIN,
            y > i64::MIN,
            z > i64::MIN,
        ensures
            (r.0 as int, r.1 as int, r.2 as int) == rotated(*self, x as int, y as int, z as int),
    {
        match self {
            Face::Top => (x, y, z),
            Face::Bottom => (x, -y, -z),
            Face::Front => (x, -z, y),
            Face::Back => (x, z, -y),
            Face::Left => (y, -x, z),
            Face::Right => (-y, x, z),
        }
    }
}

/// Half the side of a tile at `level`: the face's half side, halved once per level.
pub open spec fn tile_half(level: nat) -> int
    decreases level,
{
    if level == 0 {
        FACE_HALF as int
    } else {
        tile_half((level - 1) as nat) / 2
    }
}

pub open spec fn abs(v: int) -> int {
    if v < 0 {
        -v
    } else {
        v
    }
}

/// Where a tile lies: its face, its depth, its half side, and the centre of
/// the square it covers in face-local coordinates.
#[derive(Clone, Copy, Debug, PartialEq, Eq, Structural)]
pub struct TileGeom {
    pub face: Face,
    pub level: u32,
    pub half: u64,
    pub x: i64,
    pub z: i64,
}

/// Offsets of the four quadrants, in the order `(+,+)`, `(-,+)`, `(+,-)`, `(-,-)`.
pub open spec fn quadrant_sign_x(k: int) -> int {
    if k == 0 || k == 2 {
        1
    } else {
        -1
    }
}

pub open spec fn quadrant_sign_z(k: int) -> int {
    if k < 2 {
        1
    } else {
        -1
    }
}

impl TileGeom {
    /// A tile is at a level the fixed-point halves can hold, has the half side
    /// of its level, and lies within its face.
    pub open spec fn wf(&self) -> bool {
        &&& self.level <= MAX_LEVEL
        &&& self.half == tile_half(self.level as nat)
        &&& abs(self.x as int) + self.half <= FACE_HALF
        &&& abs(self.z as int) + self.half <= FACE_HALF
    }

    /// The whole face, at level 0.
    pub open spec fn spec_root(face: Face) -> TileGeom {
        TileGeom { face, level: 0, half: FACE_HALF as u64, x: 0, z: 0 }
    }

    /// Quadrant `k` of this tile: one level down, half the side, its centre
    /// moved by the child's half side along each axis.
    pub open spec fn spec_quadrant(&self, k: int) -> TileGeom {
        let h = self.half / 2;
        TileGeom {
            face: self.face,
            level: (self.level + 1) as u32,
            half: h as u64,
            x: (self.x + quadrant_sign_x(k) * h) as i64,
            z: (self.z + quadrant_sign_z(k) * h) as i64,
        }
    }

    /// The tile's centre on the cube, turned onto its face.
    pub open spec fn spec_center(&self) -> (int, int, int) {
        rotated(self.face, self.x as int, FACE_HALF as int, self.z as int)
    }

    pub fn root(face: Face) -> (r: TileGeom)
        ensures
            r == Self::spec_root(face),
            r.wf(),
    {
        TileGeom { face, level: 0, half: FACE_HALF as u64, x: 0, z: 0 }
    }

    pub fn quadrant(&self, k: usize) -> (r: TileGeom)
        requires
            self.wf(),
            self.level < MAX_LEVEL,
            k < 4,
        ensures
            r == self.spec_quadrant(k as int),
            r.wf(),
    {
        proof {
            lemma_half_at_least_two(self.level as nat);
            lemma_quadrant_wf(*self, k as int);
        }
        let h: u64 = self.half / 2;
        let sx: i64 = if k == 0 || k == 2 {
            h as i64
        } else {
            -(h as i64)
        };
        let sz: i64 = if k < 2 {
            h as i64
        } else {
            -(h as i64)
        };
        TileGeom { face: self.face, level: self.level + 1, half: h, x: self.x + sx, z: self.z + sz }
    }

    pub fn center(&self) -> (r: (i64, i64, i64))
        requires
            self.wf(),
        ensures
            (r.0 as int, r.1 as int, r.2 as int) == self.spec_center(),
    {
        self.face.rotate(self.x, FACE_HALF, self.z)
    }
}

proof fn lemma_half_at_least_two(level: nat)
    requires
        level < MAX_LEVEL,
    ensures
        tile_half(level) >= 2,
        tile_half(level + 1) == tile_half(level) / 2,
    decreases MAX_LEVEL - level,
{
    if level + 1 == MAX_LEVEL {
        reveal_with_fuel(tile_half, 33);
        assert(tile_half(31) == 2);
    } else {
        lemma_half_at_least_two(level + 1);
    }
}

/// Each quadrant of a tile above the deepest level is a tile again.
pub proof fn lemma_quadrant_wf(g: TileGeom, k: int)
    requires
        g.wf(),
        g.level < MAX_LEVEL,
        0 <= k < 4,
    ensures
        g.spec_quadrant(k).wf(),
{
    lemma_half_at_least_two(g.level as nat);
}

} // verus!
