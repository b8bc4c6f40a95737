use vstd::prelude::*;
use crate::ids::IdCounter;
use rand::RngCore;
use crate::limits::{should_subdivide, subdivides, MICRO};
use crate::tile::MAX_LEVEL;

verus! {

/// Default depth of the terrain quad-tree.
pub const MAX_LOD: u32 = 4;

/// Grid cells along a tile's side per level of depth.
pub const SUBDIVS_PER_LEVEL: usize = 16;

/// Draws a seed from the operating system's random source.
///
/// Relies on rand::rngs::OsRng's `RngCore::try_fill_bytes`, which reports a
/// failure of the source as an error instead of panicking; nothing is
/// promised of the bytes drawn.
#[verifier::external_body]
fn os_seed() -> (r: Option<u32>) {
    let mut bytes = [0u8; 4];
    match rand::rngs::OsRng.try_fill_bytes(&mut bytes) {
        Ok(()) => Some(u32::from_le_bytes(bytes)),
        Err(_) => None,
    }
}

/// What the viewer looks like from one tile: the angle between the tile's
/// outward normal and the viewer's direction (micro-radians), and the
/// viewer's distance from the planet centre (in the planet's length unit).
#[derive(Clone, Copy, Debug, PartialEq, Eq, Structural)]
pub struct Sight {
    pub angle: u64,
    pub height: u64,
}

/// The parameters of a planet that the level of detail reads. Lengths are
/// in one unit of the caller's choice, `MICRO` of them making the reference
/// radius; `max_height` is in parts per million of the radius.
#[derive(Clone, Copy, Debug, PartialEq, Eq, Structural)]
pub struct Planet {
    pub planet_id: usize,
    pub seed: u32,
    pub radius: u32,
    pub max_height: u32,
    pub max_lod: u32,
    pub has_terrain: bool,
    pub has_ocean: bool,
}

impl Planet {
    /// The depth limit fits the tile geometry.
    pub open spec fn wf(&self) -> bool {
        self.max_lod <= MAX_LEVEL
    }

    pub open spec fn spec_with_seed(seed: u32, planet_id: usize) -> Planet {
        Planet {
            planet_id,
            seed,
            radius: MICRO as u32,
            max_height: 0,
            max_lod: MAX_LOD,
            has_terrain: false,
            has_ocean: true,
        }
    }

    /// A planet with a random seed, the default parameters and the next id
    /// of `ids`; `None`, with no id taken, when no random seed can be drawn.
    pub fn new(ids: &mut IdCounter) -> (r: Option<Planet>)
        requires
            old(ids).next < usize::MAX,
        ensures
            match r {
                Some(p) => p == Self::spec_with_seed(p.seed, old(ids).next) && p.wf()
                    && final(ids).next == old(ids).next + 1,
                None => final(ids).next == old(ids).next,
            },
    {
        match os_seed() {
            Some(seed) => Some(Self::with_seed(seed, ids)),
            None => None,
        }
    }

    /// A planet of unit radius, flat, with an ocean, the default depth, the
    /// given seed and the next id of `ids`.
    pub fn with_seed(seed: u32, ids: &mut IdCounter) -> (r: Planet)
        requires
            old(ids).next < usize::MAX,
        ensures
            r == Self::spec_with_seed(seed, old(ids).next),
            final(ids).next == old(ids).next + 1,
            r.wf(),
    {
        let planet_id = ids.fresh();
        Planet {
            planet_id,
            seed,
            radius: MICRO as u32,
            max_height: 0,
            max_lod: MAX_LOD,
            has_terrain: false,
            has_ocean: true,
        }
    }

    pub open spec fn spec_subdivides(&self, sight: Sight, level: int) -> bool {
        subdivides(
            sight.angle as int,
            sight.height as int,
            self.radius as int,
            self.max_height as int,
            level,
            self.max_lod as int,
        )
    }

    /// Whether a tile at `level`, seen as `sight`, splits into four.
    pub fn subdivides(&self, sight: Sight, level: u32) -> (r: bool)
        ensures
            r == self.spec_subdivides(sight, level as int),
    {
        should_subdivide(sight.angle, sight.height, self.radius, self.max_height, level, self.max_lod)
    }
}

} // verus!
