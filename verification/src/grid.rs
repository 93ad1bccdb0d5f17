//! Tile grid lookup: a read-only query surface over a loaded level, with
//! out-of-bounds cells treated as solid (implicit boundary walls).

use vstd::prelude::*;
use vstd::arithmetic::mul::{
    lemma_mul_inequality, lemma_mul_is_commutative, lemma_mul_upper_bound,
};

use crate::CELL_LIMIT;
use crate::movement::IVec2;

verus! {

/// Largest admitted tile-layer dimension, in cells.
pub const DIM_LIMIT: usize = 0xffff;

/// One loaded level: a world-space origin in cell units and the collision
/// layer's per-cell solidity flags, addressed by `local_y * width + local_x`.
pub struct Level {
    /// World cell coordinate of the layer's lower-left corner.
    pub origin: IVec2,
    /// Layer width in cells.
    pub width: usize,
    /// Layer height in cells.
    pub height: usize,
    /// Row-major solidity flags, one per cell.
    pub solid: Vec<bool>,
}

impl Level {
    /// The solidity array covers the layer exactly and every coordinate
    /// arithmetic below stays in range.
    pub open spec fn wf(self) -> bool {
        &&& self.solid@.len() == self.width * self.height
        &&& 0 < self.width <= DIM_LIMIT
        &&& 0 < self.height <= DIM_LIMIT
        &&& -CELL_LIMIT <= self.origin.x <= CELL_LIMIT
        &&& -CELL_LIMIT <= self.origin.y <= CELL_LIMIT
    }

    /// Whether the level's bounding box, in cell units, contains the world
    /// cell `(x, y)`.
    pub open spec fn spec_contains_cell(self, x: int, y: int) -> bool {
        &&& self.origin.x <= x < self.origin.x + self.width
        &&& self.origin.y <= y < self.origin.y + self.height
    }

    /// Solidity of the world cell `(x, y)`: the stored flag inside the
    /// layer, and solid everywhere outside it.
    pub open spec fn spec_is_solid(self, x: int, y: int) -> bool {
        let lx = x - self.origin.x;
        let ly = y - self.origin.y;
        if 0 <= lx < self.width && 0 <= ly < self.height {
            self.solid@[ly * self.width + lx]
        } else {
            true
        }
    }

    /// Bounding-box test used to associate an entity with its level.
    pub fn contains_cell(&self, cell: IVec2) -> (r: bool)
        requires
            self.wf(),
            -3 * CELL_LIMIT <= cell.x <= 3 * CELL_LIMIT,
            -3 * CELL_LIMIT <= cell.y <= 3 * CELL_LIMIT,
        ensures
            r == self.spec_contains_cell(cell.x as int, cell.y as int),
    {
        self.origin.x <= cell.x && cell.x - self.origin.x < self.width as i64
            && self.origin.y <= cell.y && cell.y - self.origin.y < self.height as i64
    }

    /// Collision query: translate the world cell into layer-local
    /// coordinates and read the stored flag; out of bounds is always solid.
    pub fn is_solid(&self, x: i64, y: i64) -> (r: bool)
        requires
            self.wf(),
            -3 * CELL_LIMIT <= x <= 3 * CELL_LIMIT,
            -3 * CELL_LIMIT <= y <= 3 * CELL_LIMIT,
        ensures
            r == self.spec_is_solid(x as int, y as int),
    {
        let lx = x - self.origin.x;
        let ly = y - self.origin.y;
        if 0 <= lx && lx < self.width as i64 && 0 <= ly && ly < self.height as i64 {
            proof {
                lemma_mul_inequality(ly as int, self.height - 1, self.width as int);
                lemma_mul_upper_bound(
                    self.height - 1,
                    DIM_LIMIT - 1,
                    self.width as int,
                    DIM_LIMIT as int,
                );
                lemma_mul_is_commutative(self.height - 1, self.width as int);
                lemma_mul_is_commutative(self.height as int, self.width as int);
                assert((self.height - 1) * (self.width as int)
                    == self.height * (self.width as int) - self.width) by (nonlinear_arith);
            }
            let idx = (ly as usize) * self.width + (lx as usize);
            self.solid[idx]
        } else {
            true
        }
    }
}

/// Boundary solidity: every world cell at or beyond the layer's edge, on any
/// of the four sides, is reported solid.
pub proof fn lemma_boundary_solid(level: Level, x: int, y: int)
    requires
        level.wf(),
        x < level.origin.x || x >= level.origin.x + level.width
            || y < level.origin.y || y >= level.origin.y + level.height,
    ensures
        level.spec_is_solid(x, y),
{
}

/// Index of the first level whose bounding box contains the world cell
/// `(x, y)`, if any.
pub open spec fn spec_find_level(levels: Seq<Level>, x: int, y: int) -> Option<int>
    decreases levels.len(),
{
    if levels.len() == 0 {
        None
    } else if levels[0].spec_contains_cell(x, y) {
        Some(0int)
    } else {
        match spec_find_level(levels.drop_first(), x, y) {
            None => None,
            Some(i) => Some(i + 1),
        }
    }
}

/// Scanning past a prefix of non-containing levels shifts the found index by
/// the prefix's length and changes nothing else.
proof fn lemma_find_level_skip(levels: Seq<Level>, x: int, y: int, i: int)
    requires
        0 <= i <= levels.len(),
        forall|j: int| 0 <= j < i ==> !(#[trigger] levels[j]).spec_contains_cell(x, y),
    ensures
        spec_find_level(levels, x, y) == match spec_find_level(levels.skip(i), x, y) {
            None => None::<int>,
            Some(k) => Some(k + i),
        },
    decreases i,
{
    if i == 0 {
        assert(levels.skip(0) =~= levels);
    } else {
        lemma_find_level_skip(levels, x, y, i - 1);
        assert(levels.skip(i - 1).drop_first() =~= levels.skip(i));
        assert(levels.skip(i - 1)[0] == levels[i - 1]);
    }
}

/// Locate the level whose bounds contain the given cell: the first match in
/// load order, or `None` when the cell lies outside every known level.
pub fn find_level(levels: &Vec<Level>, cell: IVec2) -> (r: Option<usize>)
    requires
        forall|j: int| 0 <= j < levels@.len() ==> (#[trigger] levels@[j]).wf(),
        -3 * CELL_LIMIT <= cell.x <= 3 * CELL_LIMIT,
        -3 * CELL_LIMIT <= cell.y <= 3 * CELL_LIMIT,
    ensures
        match r {
            Some(i) => spec_find_level(levels@, cell.x as int, cell.y as int) == Some(i as int)
                && i < levels@.len()
                && levels@[i as int].spec_contains_cell(cell.x as int, cell.y as int),
            None => spec_find_level(levels@, cell.x as int, cell.y as int) is None,
        },
{
    let n = levels.len();
    let mut i: usize = 0;
    while i < n
        invariant
            i <= n,
            n == levels@.len(),
            forall|j: int| 0 <= j < levels@.len() ==> (#[trigger] levels@[j]).wf(),
            -3 * CELL_LIMIT <= cell.x <= 3 * CELL_LIMIT,
            -3 * CELL_LIMIT <= cell.y <= 3 * CELL_LIMIT,
            forall|j: int| 0 <= j < i ==> !(#[trigger] levels@[j]).spec_contains_cell(
                cell.x as int,
                cell.y as int,
            ),
        decreases n - i,
    {
        if levels[i].contains_cell(cell) {
            proof {
                lemma_find_level_skip(levels@, cell.x as int, cell.y as int, i as int);
                assert(levels@.skip(i as int)[0] == levels@[i as int]);
            }
            return Some(i);
        }
        i = i + 1;
    }
    proof {
        lemma_find_level_skip(levels@, cell.x as int, cell.y as int, n as int);
        assert(levels@.skip(n as int).len() == 0);
    }
    None
}

} // verus!
