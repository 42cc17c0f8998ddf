//! Push and pull actions, and what each does to the player and the crates.
use vstd::prelude::*;
use crate::grid::{shifted, shifted_back, Direction, Position};
use crate::objects::Crate;
use crate::player::Player;
use crate::tilemap::{LevelTile, Tilemap};

verus! {

/// The part of a level that actions change: the player and the crates.
pub struct Layout {
    pub player: Player,
    pub crates: Seq<Crate>,
}

/// A reversible move of the player.
#[derive(Clone, Copy, Debug, PartialEq, Eq, Structural)]
pub enum Action {
    /// Moves the player in `direction`, pushing forwards a crate that stands
    /// in the way. The player then looks towards `look_direction`.
    Push { direction: Direction, look_direction: Direction },
    /// Moves the player in `direction`, dragging along a crate right behind
    /// it: the one standing there, or, where none does, the one that has
    /// dropped into the hole there. The player then looks towards `look_direction`.
    Pull { direction: Direction, look_direction: Direction },
}

/// Crate `c` stands on cell `cell`; where `surface_only`, it has also not
/// dropped into a hole.
pub open spec fn crate_matches(c: Crate, cell: (int, int), surface_only: bool) -> bool {
    c.position.cell() == cell && (!surface_only || !c.in_hole)
}

/// Crate `i` is the first of `crates` that matches.
pub open spec fn is_first_crate(crates: Seq<Crate>, cell: (int, int), surface_only: bool, i: int) -> bool {
    &&& 0 <= i < crates.len()
    &&& crate_matches(crates[i], cell, surface_only)
    &&& forall|j: int| 0 <= j < i ==> !crate_matches(#[trigger] crates[j], cell, surface_only)
}

/// The index of the first crate that matches, if any does.
pub open spec fn first_crate(crates: Seq<Crate>, cell: (int, int), surface_only: bool) -> Option<int> {
    if exists|i: int| is_first_crate(crates, cell, surface_only, i) {
        Some(choose|i: int| is_first_crate(crates, cell, surface_only, i))
    } else {
        None
    }
}

/// The crate a pull drags from `cell`: the first crate standing on it, or,
/// where none does, the first crate that lies there at all (one that has
/// dropped into its hole).
pub open spec fn pulled_crate(crates: Seq<Crate>, cell: (int, int)) -> Option<int> {
    match first_crate(crates, cell, true) {
        Some(i) => Some(i),
        None => first_crate(crates, cell, false),
    }
}

/// Some crate has dropped into the hole at `cell`.
pub open spec fn hole_filled(crates: Seq<Crate>, cell: (int, int)) -> bool {
    exists|i: int| 0 <= i < crates.len() && #[trigger] crate_matches(crates[i], cell, false) && crates[i].in_hole
}

/// Some crate stands on `cell` without having dropped into a hole.
pub open spec fn has_surface_crate(crates: Seq<Crate>, cell: (int, int)) -> bool {
    exists|i: int| 0 <= i < crates.len() && #[trigger] crate_matches(crates[i], cell, true)
}

/// A crate cannot be moved onto `cell`: it lies outside the map, it is solid,
/// or a crate stands on it (a crate in a hole does not count).
pub open spec fn is_obstructed(tiles: Tilemap, crates: Seq<Crate>, cell: (int, int)) -> bool {
    tiles.tile_at(cell) is None || tiles.tile_at(cell) == Some(LevelTile::Solid) || has_surface_crate(
        crates,
        cell,
    )
}

/// The player can walk onto `cell`: it is floor, or a hole that a crate has filled.
pub open spec fn is_walkable(tiles: Tilemap, crates: Seq<Crate>, cell: (int, int)) -> bool {
    match tiles.tile_at(cell) {
        Some(LevelTile::Floor) => true,
        Some(LevelTile::Hole) => hole_filled(crates, cell),
        _ => false,
    }
}

/// A crate moved onto `cell` drops into it: it is a hole that no crate has filled yet.
pub open spec fn claims_hole(tiles: Tilemap, crates: Seq<Crate>, cell: (int, int)) -> bool {
    tiles.tile_at(cell) == Some(LevelTile::Hole) && !hole_filled(crates, cell)
}

impl Layout {
    /// The player moved to `cell`, looking towards `look`.
    pub open spec fn with_player_at(self, cell: (int, int), look: Direction) -> Layout {
        Layout { player: Player { position: Position::of_cell(cell), direction: look }, ..self }
    }

    /// Crate `i` moved to `cell`, with its hole flag set to `in_hole`.
    pub open spec fn with_crate_at(self, i: int, cell: (int, int), in_hole: bool) -> Layout {
        Layout {
            crates: self.crates.update(i, Crate { position: Position::of_cell(cell), in_hole, ..self.crates[i] }),
            ..self
        }
    }
}

impl Action {
    /// What applying this action to layout `s` of a level with tiles `tiles`
    /// gives: the new layout and the reciprocal action, or `None` where the
    /// action cannot be carried out.
    pub open spec fn outcome(self, tiles: Tilemap, s: Layout) -> Option<(Layout, Action)> {
        let here = s.player.position.cell();
        let before = s.player.direction;
        match self {
            Action::Push { direction, look_direction } => {
                let target = shifted(here, direction);
                let back = direction.spec_inverse();
                if !is_walkable(tiles, s.crates, target) {
                    None
                } else {
                    match first_crate(s.crates, target, true) {
                        None => Some((
                            s.with_player_at(target, look_direction),
                            Action::Push { direction: back, look_direction: before },
                        )),
                        Some(i) => {
                            let dest = shifted(target, direction);
                            if is_obstructed(tiles, s.crates, dest) {
                                None
                            } else {
                                Some((
                                    s.with_player_at(target, look_direction).with_crate_at(
                                        i,
                                        dest,
                                        claims_hole(tiles, s.crates, dest),
                                    ),
                                    Action::Pull { direction: back, look_direction: before },
                                ))
                            }
                        },
                    }
                }
            },
            Action::Pull { direction, look_direction } => {
                let target = shifted(here, direction);
                let source = shifted_back(here, direction);
                let back = direction.spec_inverse();
                if !is_walkable(tiles, s.crates, target) {
                    None
                } else {
                    match pulled_crate(s.crates, source) {
                        None => Some((
                            s.with_player_at(target, look_direction),
                            Action::Push { direction: back, look_direction: before },
                        )),
                        Some(i) => {
                            if is_obstructed(tiles, s.crates, here) {
                                None
                            } else {
                                Some((
                                    s.with_player_at(target, look_direction).with_crate_at(
                                        i,
                                        here,
                                        claims_hole(tiles, s.crates, here),
                                    ),
                                    Action::Push { direction: back, look_direction: before },
                                ))
                            }
                        },
                    }
                }
            },
        }
    }
}

/// The first matching crate is the one that `is_first_crate` describes.
pub proof fn lemma_first_crate_is(crates: Seq<Crate>, cell: (int, int), surface_only: bool, i: int)
    requires
        is_first_crate(crates, cell, surface_only, i),
    ensures
        first_crate(crates, cell, surface_only) == Some(i),
{
    let k = choose|k: int| is_first_crate(crates, cell, surface_only, k);
    assert(is_first_crate(crates, cell, surface_only, k));
    if k < i {
        assert(!crate_matches(crates[k], cell, surface_only));
    } else if i < k {
        assert(!crate_matches(crates[i], cell, surface_only));
    }
}

/// Where some crate matches, there is a first one.
pub proof fn lemma_first_crate_some(crates: Seq<Crate>, cell: (int, int), surface_only: bool, j: int)
    requires
        0 <= j < crates.len(),
        crate_matches(crates[j], cell, surface_only),
    ensures
        first_crate(crates, cell, surface_only) is Some,
    decreases j,
{
    if exists|k: int| 0 <= k < j && crate_matches(#[trigger] crates[k], cell, surface_only) {
        let k = choose|k: int| 0 <= k < j && crate_matches(#[trigger] crates[k], cell, surface_only);
        lemma_first_crate_some(crates, cell, surface_only, k);
    } else {
        lemma_first_crate_is(crates, cell, surface_only, j);
    }
}

/// Where no crate matches, there is no first one.
pub proof fn lemma_first_crate_none(crates: Seq<Crate>, cell: (int, int), surface_only: bool)
    requires
        forall|j: int| 0 <= j < crates.len() ==> !crate_matches(#[trigger] crates[j], cell, surface_only),
    ensures
        first_crate(crates, cell, surface_only) is None,
{
}

} // verus!
