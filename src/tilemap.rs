//! The immutable grid of level tiles.
use vstd::prelude::*;
use crate::map::{opt_string_is, text_is, Tileset};

verus! {

/// One of a level's tiles.
#[derive(Clone, Copy, Debug, PartialEq, Eq, Structural)]
pub enum LevelTile {
    /// Blocks all movement.
    Solid,
    /// Impassable until a crate has dropped into it.
    Hole,
    /// Always walkable.
    Floor,
}

/// A size in tiles.
#[derive(Clone, Copy, Debug, PartialEq, Eq, Structural)]
pub struct Extent {
    pub width: u32,
    pub height: u32,
}

/// The tile of a cell whose building layer holds `tile`: a tile declared
/// "solid" or "hole" is one, any other tile and an empty cell are floor.
pub open spec fn tile_kind(tileset: Tileset, tile: Option<u32>) -> LevelTile {
    match tile {
        Some(id) => match tileset.def(id) {
            Some(def) => if text_is(def.user_type, "solid"@) {
                LevelTile::Solid
            } else if text_is(def.user_type, "hole"@) {
                LevelTile::Hole
            } else {
                LevelTile::Floor
            },
            None => LevelTile::Floor,
        },
        None => LevelTile::Floor,
    }
}

/// The tile of a cell whose building layer holds `tile`.
pub fn classify_tile(tileset: &Tileset, tile: Option<u32>) -> (r: LevelTile)
    ensures
        r == tile_kind(*tileset, tile),
{
    match tile {
        Some(id) => match tileset.get_tile(id) {
            Some(def) => {
                if opt_string_is(&def.user_type, "solid") {
                    LevelTile::Solid
                } else if opt_string_is(&def.user_type, "hole") {
                    LevelTile::Hole
                } else {
                    LevelTile::Floor
                }
            },
            None => LevelTile::Floor,
        },
        None => LevelTile::Floor,
    }
}

/// A two-dimensional array of level tiles, in row-major order.
#[derive(Debug)]
pub struct Tilemap {
    size: Extent,
    tiles: Vec<LevelTile>,
}

impl View for Tilemap {
    type V = Seq<LevelTile>;

    closed spec fn view(&self) -> Seq<LevelTile> {
        self.tiles@
    }
}

impl Tilemap {
    pub closed spec fn extent(&self) -> Extent {
        self.size
    }

    /// One tile per cell, and every cell addressable with `i32` coordinates.
    pub open spec fn wf(&self) -> bool {
        &&& self@.len() == self.extent().width * self.extent().height
        &&& self.extent().width <= i32::MAX
        &&& self.extent().height <= i32::MAX
    }

    pub open spec fn in_bounds(&self, c: (int, int)) -> bool {
        0 <= c.0 < self.extent().width && 0 <= c.1 < self.extent().height
    }

    /// The tile of cell `c`, or `None` outside the map.
    pub open spec fn tile_at(&self, c: (int, int)) -> Option<LevelTile> {
        if self.in_bounds(c) {
            Some(self@[c.1 * self.extent().width + c.0])
        } else {
            None
        }
    }

    /// Builds a tilemap from the tiles of a building layer and the tileset that defines them.
    pub fn from_tiled_layer(size: Extent, building_layer: &Vec<Option<u32>>, tileset: &Tileset) -> (r: Tilemap)
        requires
            building_layer@.len() == size.width * size.height,
            size.width <= i32::MAX,
            size.height <= i32::MAX,
        ensures
            r.wf(),
            r.extent() == size,
            forall|k: int| 0 <= k < r@.len() ==> r@[k] == tile_kind(*tileset, building_layer@[k]),
    {
        let mut tiles: Vec<LevelTile> = Vec::new();
        let mut k: usize = 0;
        while k < building_layer.len()
            invariant
                k <= building_layer@.len(),
                tiles@.len() == k,
                forall|j: int| 0 <= j < k ==> tiles@[j] == tile_kind(*tileset, building_layer@[j]),
            decreases building_layer@.len() - k,
        {
            let t = classify_tile(tileset, building_layer[k]);
            tiles.push(t);
            k = k + 1;
        }
        Tilemap { size, tiles }
    }

    /// The size of this tilemap, in tiles.
    pub fn size(&self) -> (r: Extent)
        ensures
            r == self.extent(),
    {
        self.size
    }

    /// The tile at `pos`, or `None` where it lies outside the map.
    pub fn get_tile(&self, pos: crate::grid::Position) -> (r: Option<LevelTile>)
        requires
            self.wf(),
        ensures
            r == self.tile_at(pos.cell()),
    {
        if pos.x < 0 || pos.y < 0 || pos.x as u32 >= self.size.width || pos.y as u32 >= self.size.height {
            return None;
        }
        let x = pos.x as usize;
        let y = pos.y as usize;
        let w = self.size.width as usize;
        let h = self.size.height as usize;
        let n = self.tiles.len();
        proof {
            lemma_row_major_index(x as int, y as int, w as int, h as int);
            assert(self.tiles@.len() == w * h);
        }
        Some(self.tiles[y * w + x])
    }

    /// A cell of the map has coordinates well inside the range of `i32`.
    pub proof fn lemma_tile_in_range(&self, c: (int, int))
        requires
            self.wf(),
            self.tile_at(c) is Some,
        ensures
            0 <= c.0 < i32::MAX,
            0 <= c.1 < i32::MAX,
    {
    }
}

/// A row-major index of a cell of a `w` by `h` grid lies in the grid.
proof fn lemma_row_major_index(x: int, y: int, w: int, h: int)
    requires
        0 <= x < w,
        0 <= y < h,
    ensures
        0 <= y * w + x < w * h,
        y * w + x <= w * h,
{
    assert(y * w + x < w * h) by (nonlinear_arith)
        requires
            0 <= x < w,
            0 <= y < h,
    ;
    assert(0 <= y * w) by (nonlinear_arith)
        requires
            0 <= y,
            0 <= w,
    ;
}

} // verus!
