//! Runs of actions: no run ever drops two crates into one hole, and undoing
//! is exact, as applying the reciprocals of a run of moves in reverse order
//! restores the layout the run started from.
use vstd::prelude::*;
use crate::action::{
    claims_hole, crate_matches, first_crate, has_surface_crate, hole_filled, is_first_crate,
    is_obstructed, is_walkable, lemma_first_crate_is, lemma_first_crate_none, lemma_first_crate_some,
    pulled_crate, Action, Layout,
};
use crate::grid::{fits_i32, lemma_step_inverse, shifted, shifted_back, Direction, Position};
use crate::level::holes_claimed_once;
use crate::objects::Crate;
use crate::tilemap::{LevelTile, Tilemap};

verus! {

/// Applies `actions` in order, starting from layout `s`: the layout reached
/// and the reciprocals, in the order the actions were applied; `None` where
/// one of the actions fails.
pub open spec fn run(tiles: Tilemap, s: Layout, actions: Seq<Action>) -> Option<(Layout, Seq<Action>)>
    decreases actions.len(),
{
    if actions.len() == 0 {
        Some((s, Seq::empty()))
    } else {
        match actions[0].outcome(tiles, s) {
            None => None,
            Some((next, back)) => match run(tiles, next, actions.drop_first()) {
                None => None,
                Some((end, backs)) => Some((end, seq![back] + backs)),
            },
        }
    }
}

/// No crate stands on the player's cell (one that has dropped into a hole
/// beneath the player does not count).
pub open spec fn player_clear(s: Layout) -> bool {
    !has_surface_crate(s.crates, s.player.position.cell())
}

/// A layout in which every action can be undone:
/// - the player stands on a walkable cell, and no crate stands there;
/// - every crate stands on floor or on a hole, and only holes hold dropped crates;
/// - every hole holding a crate is filled;
/// - two crates on one cell differ in their hole flag: one has dropped into
///   the hole, the other stands on top of it.
pub open spec fn settled(tiles: Tilemap, s: Layout) -> bool {
    &&& player_clear(s)
    &&& is_walkable(tiles, s.crates, s.player.position.cell())
    &&& forall|i: int|
        0 <= i < s.crates.len() ==> match tiles.tile_at((#[trigger] s.crates[i]).position.cell()) {
            Some(LevelTile::Floor) | Some(LevelTile::Hole) => true,
            _ => false,
        }
    &&& forall|i: int|
        0 <= i < s.crates.len() && (#[trigger] s.crates[i]).in_hole ==> tiles.tile_at(
            s.crates[i].position.cell(),
        ) == Some(LevelTile::Hole)
    &&& forall|i: int|
        0 <= i < s.crates.len() && tiles.tile_at((#[trigger] s.crates[i]).position.cell()) == Some(
            LevelTile::Hole,
        ) ==> hole_filled(s.crates, s.crates[i].position.cell())
    &&& forall|i: int, j: int|
        0 <= i < s.crates.len() && 0 <= j < s.crates.len() && i != j && (#[trigger] s.crates[i]).position
            == (#[trigger] s.crates[j]).position ==> s.crates[i].in_hole != s.crates[j].in_hole
}

/// In every layout that the run passes through, the first and the last
/// included, no crate stands on the player's cell.
pub open spec fn stays_clear(tiles: Tilemap, s: Layout, actions: Seq<Action>) -> bool
    decreases actions.len(),
{
    &&& player_clear(s)
    &&& actions.len() > 0 ==> match actions[0].outcome(tiles, s) {
        Some((next, _)) => stays_clear(tiles, next, actions.drop_first()),
        None => true,
    }
}

/// All the actions are pushes, as the player's moves are.
pub open spec fn all_pushes(actions: Seq<Action>) -> bool {
    forall|k: int| 0 <= k < actions.len() ==> (#[trigger] actions[k]) is Push
}

/// What the crate a pull drags is: a crate on the cell, the first standing
/// one, or one in the hole where none stands there.
pub proof fn lemma_pulled_crate(crates: Seq<Crate>, cell: (int, int))
    ensures
        match pulled_crate(crates, cell) {
            Some(i) => {
                &&& 0 <= i < crates.len()
                &&& crates[i].position.cell() == cell
                &&& !crates[i].in_hole ==> is_first_crate(crates, cell, true, i)
                &&& crates[i].in_hole ==> !has_surface_crate(crates, cell) && is_first_crate(crates, cell, false, i)
            },
            None => forall|j: int| 0 <= j < crates.len() ==> !crate_matches(#[trigger] crates[j], cell, false),
        },
{
    match first_crate(crates, cell, true) {
        Some(i) => {
            assert(is_first_crate(crates, cell, true, i));
        },
        None => {
            if has_surface_crate(crates, cell) {
                let j = choose|j: int| 0 <= j < crates.len() && #[trigger] crate_matches(crates[j], cell, true);
                lemma_first_crate_some(crates, cell, true, j);
            }
            match first_crate(crates, cell, false) {
                Some(i) => {
                    assert(is_first_crate(crates, cell, false, i));
                    assert(!crate_matches(crates[i], cell, true));
                },
                None => {
                    assert forall|j: int| 0 <= j < crates.len() implies !crate_matches(#[trigger] crates[j], cell, false) by {
                        if crate_matches(crates[j], cell, false) {
                            lemma_first_crate_some(crates, cell, false, j);
                        }
                    };
                },
            }
        },
    }
}

/// A walkable cell lies in the map, so its coordinates and those of its
/// neighbours fit in an `i32`.
proof fn lemma_walkable_fits(tiles: Tilemap, crates: Seq<Crate>, c: (int, int), d: Direction)
    requires
        tiles.wf(),
        is_walkable(tiles, crates, c),
    ensures
        fits_i32(c),
        fits_i32(shifted(c, d)),
        Position::of_cell(c).cell() == c,
        Position::of_cell(shifted(c, d)).cell() == shifted(c, d),
{
    tiles.lemma_tile_in_range(c);
}

/// A position is the position of its own cell.
proof fn lemma_cell_round_trip(p: Position)
    ensures
        Position::of_cell(p.cell()) == p,
{
}

/// A step always leaves the cell.
proof fn lemma_step_moves(c: (int, int), d: Direction)
    ensures
        shifted(c, d) != c,
        shifted_back(c, d) != c,
{
}

/// Walking back undoes a step that moved no crate.
proof fn lemma_walk_undone(tiles: Tilemap, s: Layout, d: Direction, look: Direction)
    requires
        tiles.wf(),
        settled(tiles, s),
        is_walkable(tiles, s.crates, shifted(s.player.position.cell(), d)),
    ensures
        ({
            let s1 = s.with_player_at(shifted(s.player.position.cell(), d), look);
            match (Action::Push { direction: d.spec_inverse(), look_direction: s.player.direction }).outcome(tiles, s1) {
                Some((s2, _)) => s2 == s,
                None => false,
            }
        }),
{
    let here = s.player.position.cell();
    let target = shifted(here, d);
    let s1 = s.with_player_at(target, look);
    lemma_walkable_fits(tiles, s.crates, target, d);
    lemma_step_inverse(here, d);
    assert(s1.player.position.cell() == target);
    assert forall|j: int| 0 <= j < s.crates.len() implies !crate_matches(#[trigger] s.crates[j], here, true) by {
        if crate_matches(s.crates[j], here, true) {
            assert(has_surface_crate(s.crates, here));
        }
    };
    lemma_first_crate_none(s.crates, here, true);
    lemma_cell_round_trip(s.player.position);
}

/// Pulling back undoes a push that moved a crate.
proof fn lemma_push_undone(tiles: Tilemap, s: Layout, d: Direction, look: Direction, i: int)
    requires
        tiles.wf(),
        settled(tiles, s),
        is_walkable(tiles, s.crates, shifted(s.player.position.cell(), d)),
        first_crate(s.crates, shifted(s.player.position.cell(), d), true) == Some(i),
        !is_obstructed(tiles, s.crates, shifted(shifted(s.player.position.cell(), d), d)),
    ensures
        ({
            let target = shifted(s.player.position.cell(), d);
            let dest = shifted(target, d);
            let s1 = s.with_player_at(target, look).with_crate_at(i, dest, claims_hole(tiles, s.crates, dest));
            match (Action::Pull { direction: d.spec_inverse(), look_direction: s.player.direction }).outcome(tiles, s1) {
                Some((s2, _)) => s2 == s,
                None => false,
            }
        }),
{
    let here = s.player.position.cell();
    let target = shifted(here, d);
    let dest = shifted(target, d);
    let claim = claims_hole(tiles, s.crates, dest);
    let s1 = s.with_player_at(target, look).with_crate_at(i, dest, claim);
    assert(is_first_crate(s.crates, target, true, i));
    lemma_walkable_fits(tiles, s.crates, target, d);
    lemma_step_inverse(here, d);
    lemma_step_inverse(target, d);
    lemma_step_moves(here, d);
    lemma_cell_round_trip(s.player.position);
    lemma_cell_round_trip(s.crates[i].position);
    assert(s1.player.position.cell() == target);
    assert(s1.crates[i].position.cell() == dest);
    // The player can walk back: a filled hole stays filled, as its crate did not move.
    if tiles.tile_at(here) == Some(LevelTile::Hole) {
        let k = choose|k: int| 0 <= k < s.crates.len() && #[trigger] crate_matches(s.crates[k], here, false) && s.crates[k].in_hole;
        assert(k != i);
        assert(crate_matches(s1.crates[k], here, false) && s1.crates[k].in_hole);
    }
    assert(is_walkable(tiles, s1.crates, here));
    // No other crate stands where the pushed one went, and if it dropped into
    // the hole there, no other crate lies there at all.
    assert forall|j: int| 0 <= j < s1.crates.len() && j != i implies !crate_matches(#[trigger] s1.crates[j], dest, true) by {
        assert(s1.crates[j] == s.crates[j]);
        if crate_matches(s.crates[j], dest, true) {
            assert(has_surface_crate(s.crates, dest));
        }
    };
    if claim {
        assert forall|j: int| 0 <= j < s1.crates.len() implies !crate_matches(#[trigger] s1.crates[j], dest, true) by {
            if j != i {
                assert(!crate_matches(s1.crates[j], dest, true));
            }
        };
        lemma_first_crate_none(s1.crates, dest, true);
        assert forall|j: int| 0 <= j < i implies !crate_matches(#[trigger] s1.crates[j], dest, false) by {
            assert(s1.crates[j] == s.crates[j]);
            if crate_matches(s.crates[j], dest, false) {
                if !s.crates[j].in_hole {
                    assert(crate_matches(s.crates[j], dest, true));
                    assert(has_surface_crate(s.crates, dest));
                } else {
                    assert(hole_filled(s.crates, dest));
                }
            }
        };
        assert(is_first_crate(s1.crates, dest, false, i));
        lemma_first_crate_is(s1.crates, dest, false, i);
    } else {
        assert forall|j: int| 0 <= j < i implies !crate_matches(#[trigger] s1.crates[j], dest, true) by {
            assert(!crate_matches(s1.crates[j], dest, true));
        };
        assert(is_first_crate(s1.crates, dest, true, i));
        lemma_first_crate_is(s1.crates, dest, true, i);
    }
    assert(pulled_crate(s1.crates, dest) == Some(i));
    // It can be dragged back: no other crate stands on the player's cell.
    assert forall|j: int| 0 <= j < s1.crates.len() implies !crate_matches(#[trigger] s1.crates[j], target, true) by {
        if j != i && crate_matches(s1.crates[j], target, true) {
            assert(s1.crates[j] == s.crates[j]);
            assert(s.crates[j].position == s.crates[i].position);
        }
    };
    assert(!is_obstructed(tiles, s1.crates, target));
    // And it does not drop into the hole it came from.
    if tiles.tile_at(target) == Some(LevelTile::Hole) {
        let k = choose|k: int| 0 <= k < s.crates.len() && #[trigger] crate_matches(s.crates[k], target, false) && s.crates[k].in_hole;
        assert(k != i);
        assert(crate_matches(s1.crates[k], target, false) && s1.crates[k].in_hole);
    }
    assert(!claims_hole(tiles, s1.crates, target));
    let s2 = s1.with_player_at(here, s.player.direction).with_crate_at(i, target, false);
    assert(s2.crates =~= s.crates);
    assert(s2.player == s.player);
}

/// Pushing back undoes a pull that dragged a crate.
proof fn lemma_pull_undone(tiles: Tilemap, s: Layout, d: Direction, look: Direction, i: int)
    requires
        tiles.wf(),
        settled(tiles, s),
        is_walkable(tiles, s.crates, shifted(s.player.position.cell(), d)),
        pulled_crate(s.crates, shifted_back(s.player.position.cell(), d)) == Some(i),
        !is_obstructed(tiles, s.crates, s.player.position.cell()),
    ensures
        ({
            let here = s.player.position.cell();
            let s1 = s.with_player_at(shifted(here, d), look).with_crate_at(i, here, claims_hole(tiles, s.crates, here));
            match (Action::Push { direction: d.spec_inverse(), look_direction: s.player.direction }).outcome(tiles, s1) {
                Some((s2, _)) => s2 == s,
                None => false,
            }
        }),
{
    let here = s.player.position.cell();
    let target = shifted(here, d);
    let source = shifted_back(here, d);
    let claim = claims_hole(tiles, s.crates, here);
    let s1 = s.with_player_at(target, look).with_crate_at(i, here, claim);
    lemma_pulled_crate(s.crates, source);
    lemma_walkable_fits(tiles, s.crates, target, d);
    lemma_step_inverse(here, d);
    lemma_step_inverse(target, d);
    lemma_step_moves(here, d);
    lemma_cell_round_trip(s.player.position);
    lemma_cell_round_trip(s.crates[i].position);
    assert(s1.player.position.cell() == target);
    assert(s1.crates[i].position.cell() == here);
    // The player stands on floor or on a filled hole, so the dragged crate stays on the surface.
    if tiles.tile_at(here) == Some(LevelTile::Hole) {
        let k = choose|k: int| 0 <= k < s.crates.len() && #[trigger] crate_matches(s.crates[k], here, false) && s.crates[k].in_hole;
        assert(k != i);
        assert(crate_matches(s1.crates[k], here, false) && s1.crates[k].in_hole);
    }
    assert(!claim);
    assert(is_walkable(tiles, s1.crates, here));
    // The dragged crate is the only one on the surface of the player's former cell.
    assert forall|j: int| 0 <= j < i implies !crate_matches(#[trigger] s1.crates[j], here, true) by {
        if crate_matches(s1.crates[j], here, true) {
            assert(s1.crates[j] == s.crates[j]);
            assert(crate_matches(s.crates[j], here, true));
            assert(has_surface_crate(s.crates, here));
        }
    };
    assert(is_first_crate(s1.crates, here, true, i));
    lemma_first_crate_is(s1.crates, here, true, i);
    // Its former cell is free: no other crate stands there.
    assert forall|j: int| 0 <= j < s1.crates.len() implies !crate_matches(#[trigger] s1.crates[j], source, true) by {
        if crate_matches(s1.crates[j], source, true) {
            assert(j != i);
            assert(s1.crates[j] == s.crates[j]);
            assert(crate_matches(s.crates[j], source, true));
            if s.crates[i].in_hole {
                assert(has_surface_crate(s.crates, source));
            } else {
                assert(s.crates[i].position == s.crates[j].position);
            }
        }
    };
    assert(!has_surface_crate(s1.crates, source));
    assert(!is_obstructed(tiles, s1.crates, source));
    // It drops back into the hole exactly where it had dropped into it before.
    if s.crates[i].in_hole {
        if hole_filled(s1.crates, source) {
            let k = choose|k: int| 0 <= k < s1.crates.len() && #[trigger] crate_matches(s1.crates[k], source, false) && s1.crates[k].in_hole;
            assert(k != i);
            assert(s1.crates[k] == s.crates[k]);
            assert(s.crates[i].position == s.crates[k].position);
        }
        assert(claims_hole(tiles, s1.crates, source));
    } else if tiles.tile_at(source) == Some(LevelTile::Hole) {
        assert(hole_filled(s.crates, s.crates[i].position.cell()));
        let k = choose|k: int| 0 <= k < s.crates.len() && #[trigger] crate_matches(s.crates[k], source, false) && s.crates[k].in_hole;
        assert(k != i);
        assert(crate_matches(s1.crates[k], source, false) && s1.crates[k].in_hole);
        assert(!claims_hole(tiles, s1.crates, source));
    }
    assert(claims_hole(tiles, s1.crates, source) == s.crates[i].in_hole);
    let s2 = s1.with_player_at(here, s.player.direction).with_crate_at(i, source, s.crates[i].in_hole);
    assert(s2.crates =~= s.crates);
    assert(s2.player == s.player);
}

/// The reciprocal of an action undoes it, from any settled layout.
proof fn lemma_step_undone(tiles: Tilemap, s: Layout, a: Action)
    requires
        tiles.wf(),
        settled(tiles, s),
        a.outcome(tiles, s) is Some,
    ensures
        ({
            let (s1, back) = a.outcome(tiles, s).unwrap();
            match back.outcome(tiles, s1) {
                Some((s2, _)) => s2 == s,
                None => false,
            }
        }),
{
    let here = s.player.position.cell();
    match a {
        Action::Push { direction, look_direction } => {
            let target = shifted(here, direction);
            match first_crate(s.crates, target, true) {
                None => lemma_walk_undone(tiles, s, direction, look_direction),
                Some(i) => lemma_push_undone(tiles, s, direction, look_direction, i),
            }
        },
        Action::Pull { direction, look_direction } => {
            let source = shifted_back(here, direction);
            match pulled_crate(s.crates, source) {
                None => lemma_walk_undone(tiles, s, direction, look_direction),
                Some(i) => lemma_pull_undone(tiles, s, direction, look_direction, i),
            }
        },
    }
}

/// An action keeps a settled layout settled, as long as it leaves no crate
/// on the player's cell.
proof fn lemma_step_settled(tiles: Tilemap, s: Layout, a: Action)
    requires
        tiles.wf(),
        settled(tiles, s),
        a.outcome(tiles, s) is Some,
        player_clear(a.outcome(tiles, s).unwrap().0),
    ensures
        settled(tiles, a.outcome(tiles, s).unwrap().0),
{
    let here = s.player.position.cell();
    let s1 = a.outcome(tiles, s).unwrap().0;
    let (d, pushing) = match a {
        Action::Push { direction, .. } => (direction, true),
        Action::Pull { direction, .. } => (direction, false),
    };
    let target = shifted(here, d);
    let from = if pushing { target } else { shifted_back(here, d) };
    let to = if pushing { shifted(target, d) } else { here };
    let chosen = if pushing { first_crate(s.crates, from, true) } else { pulled_crate(s.crates, from) };
    lemma_walkable_fits(tiles, s.crates, target, d);
    lemma_step_moves(here, d);
    lemma_step_moves(target, d);
    lemma_step_inverse(here, d);
    lemma_pulled_crate(s.crates, from);
    assert(s1.player.position.cell() == target);
    match chosen {
        None => {
            assert(s1.crates == s.crates);
        },
        Some(i) => {
            if pushing {
                assert(is_first_crate(s.crates, from, true, i));
            }
            let claim = claims_hole(tiles, s.crates, to);
            assert(s1.crates == s.crates.update(i, Crate { position: Position::of_cell(to), in_hole: claim, ..s.crates[i] }));
            assert(tiles.tile_at(to) is Some);
            tiles.lemma_tile_in_range(to);
            assert(s1.crates[i].position.cell() == to);
            assert(s.crates[i].position.cell() == from);
            // The player's new cell stays walkable: the crate of a filled hole there did not move.
            if tiles.tile_at(target) == Some(LevelTile::Hole) {
                let k = choose|k: int| 0 <= k < s.crates.len() && #[trigger] crate_matches(s.crates[k], target, false) && s.crates[k].in_hole;
                assert(k != i);
                assert(crate_matches(s1.crates[k], target, false) && s1.crates[k].in_hole);
            }
            // A pulled crate lands on the player's former cell, which is no empty hole.
            if !pushing && tiles.tile_at(here) == Some(LevelTile::Hole) {
                let k = choose|k: int| 0 <= k < s.crates.len() && #[trigger] crate_matches(s.crates[k], here, false) && s.crates[k].in_hole;
                assert(k != i);
                assert(!claim);
            }
            assert forall|j: int|
                0 <= j < s1.crates.len() && tiles.tile_at((#[trigger] s1.crates[j]).position.cell()) == Some(LevelTile::Hole)
                    implies hole_filled(s1.crates, s1.crates[j].position.cell()) by {
                let c = s1.crates[j].position.cell();
                if j == i {
                    if !claim {
                        assert(hole_filled(s.crates, to));
                        let k = choose|k: int| 0 <= k < s.crates.len() && #[trigger] crate_matches(s.crates[k], to, false) && s.crates[k].in_hole;
                        assert(k != i);
                        assert(crate_matches(s1.crates[k], to, false) && s1.crates[k].in_hole);
                    } else {
                        assert(crate_matches(s1.crates[i], to, false) && s1.crates[i].in_hole);
                    }
                } else {
                    assert(s1.crates[j] == s.crates[j]);
                    assert(hole_filled(s.crates, c));
                    let k = choose|k: int| 0 <= k < s.crates.len() && #[trigger] crate_matches(s.crates[k], c, false) && s.crates[k].in_hole;
                    if k == i {
                        // The crate that filled this hole was dragged out, which happens
                        // only where no crate stood on it: so no other crate lay there.
                        assert(!pushing);
                        assert(c == from);
                        assert(s.crates[j].position == s.crates[i].position);
                        assert(!crate_matches(s.crates[j], from, true));
                    }
                    assert(crate_matches(s1.crates[k], c, false) && s1.crates[k].in_hole);
                }
            };
            assert forall|x: int, y: int|
                0 <= x < s1.crates.len() && 0 <= y < s1.crates.len() && x != y && (#[trigger] s1.crates[x]).position
                    == (#[trigger] s1.crates[y]).position implies s1.crates[x].in_hole != s1.crates[y].in_hole by {
                if x == i || y == i {
                    let o = if x == i { y } else { x };
                    assert(s1.crates[o] == s.crates[o]);
                    assert(crate_matches(s.crates[o], to, false));
                    if pushing {
                        if !s.crates[o].in_hole {
                            assert(crate_matches(s.crates[o], to, true));
                            assert(has_surface_crate(s.crates, to));
                        } else {
                            assert(hole_filled(s.crates, to));
                        }
                    } else {
                        if !s.crates[o].in_hole {
                            assert(crate_matches(s.crates[o], here, true));
                            assert(has_surface_crate(s.crates, here));
                        }
                    }
                } else {
                    assert(s1.crates[x] == s.crates[x]);
                    assert(s1.crates[y] == s.crates[y]);
                }
            };
        },
    }
}

/// A push never leaves a crate on the player's cell.
proof fn lemma_push_clear(tiles: Tilemap, s: Layout, a: Action)
    requires
        tiles.wf(),
        settled(tiles, s),
        a is Push,
        a.outcome(tiles, s) is Some,
    ensures
        player_clear(a.outcome(tiles, s).unwrap().0),
{
    let here = s.player.position.cell();
    let s1 = a.outcome(tiles, s).unwrap().0;
    let d = a->Push_direction;
    let target = shifted(here, d);
    lemma_walkable_fits(tiles, s.crates, target, d);
    lemma_step_moves(target, d);
    assert(s1.player.position.cell() == target);
    match first_crate(s.crates, target, true) {
        None => {
            assert forall|j: int| 0 <= j < s.crates.len() implies !crate_matches(#[trigger] s.crates[j], target, true) by {
                if crate_matches(s.crates[j], target, true) {
                    lemma_first_crate_some(s.crates, target, true, j);
                }
            };
        },
        Some(i) => {
            assert(is_first_crate(s.crates, target, true, i));
            let dest = shifted(target, d);
            tiles.lemma_tile_in_range(dest);
            assert(s1.crates[i].position.cell() == dest);
            assert forall|j: int| 0 <= j < s1.crates.len() implies !crate_matches(#[trigger] s1.crates[j], target, true) by {
                if j != i && crate_matches(s1.crates[j], target, true) {
                    assert(s1.crates[j] == s.crates[j]);
                    assert(s.crates[j].position == s.crates[i].position);
                }
            };
        },
    }
}

/// Running two sequences of actions one after the other is running their concatenation.
pub proof fn lemma_run_append(tiles: Tilemap, s: Layout, first: Seq<Action>, second: Seq<Action>)
    ensures
        run(tiles, s, first + second) == match run(tiles, s, first) {
            None => None,
            Some((mid, backs1)) => match run(tiles, mid, second) {
                None => None,
                Some((end, backs2)) => Some((end, backs1 + backs2)),
            },
        },
    decreases first.len(),
{
    if first.len() == 0 {
        assert(first + second =~= second);
        assert(Seq::<Action>::empty() + run(tiles, s, second).unwrap().1 =~= run(tiles, s, second).unwrap().1);
    } else {
        let all = first + second;
        assert(all[0] == first[0]);
        assert(all.drop_first() =~= first.drop_first() + second);
        match first[0].outcome(tiles, s) {
            None => {},
            Some((next, back)) => {
                lemma_run_append(tiles, next, first.drop_first(), second);
                match run(tiles, next, first.drop_first()) {
                    None => {},
                    Some((mid, backs1)) => match run(tiles, mid, second) {
                        None => {},
                        Some((end, backs2)) => {
                            assert(seq![back] + (backs1 + backs2) =~= (seq![back] + backs1) + backs2);
                        },
                    },
                }
            },
        }
    }
}

/// Undoing is exact. Along a run of actions that all succeed, that starts
/// from a settled layout and never leaves a crate on the player's cell,
/// applying the reciprocals in reverse order succeeds and restores exactly
/// the layout the run started from: the player's cell and direction, and the
/// position, style and hole flag of every crate.
pub proof fn lemma_undo_restores(tiles: Tilemap, s: Layout, actions: Seq<Action>)
    requires
        tiles.wf(),
        run(tiles, s, actions) is Some,
        settled(tiles, s),
        stays_clear(tiles, s, actions),
    ensures
        ({
            let (end, backs) = run(tiles, s, actions).unwrap();
            match run(tiles, end, backs.reverse()) {
                Some((restored, _)) => restored == s,
                None => false,
            }
        }),
    decreases actions.len(),
{
    if actions.len() == 0 {
        assert(Seq::<Action>::empty().reverse() =~= Seq::<Action>::empty());
    } else {
        let (s1, back) = actions[0].outcome(tiles, s).unwrap();
        let rest = actions.drop_first();
        assert(stays_clear(tiles, s1, rest));
        lemma_step_settled(tiles, s, actions[0]);
        lemma_undo_restores(tiles, s1, rest);
        let (end, backs) = run(tiles, s1, rest).unwrap();
        lemma_step_undone(tiles, s, actions[0]);
        assert((seq![back] + backs).reverse() =~= backs.reverse() + seq![back]);
        lemma_run_append(tiles, end, backs.reverse(), seq![back]);
        let (s2, back2) = back.outcome(tiles, s1).unwrap();
        assert(seq![back].drop_first() =~= Seq::<Action>::empty());
        assert(seq![back][0] == back);
        assert(run(tiles, s2, Seq::<Action>::empty()) == Some((s2, Seq::<Action>::empty())));
        assert(run(tiles, s1, seq![back]) == Some((s2, seq![back2] + Seq::<Action>::empty())));
    }
}

/// A run of pushes from a settled layout never leaves a crate on the player's cell.
proof fn lemma_pushes_stay_clear(tiles: Tilemap, s: Layout, actions: Seq<Action>)
    requires
        tiles.wf(),
        settled(tiles, s),
        all_pushes(actions),
    ensures
        stays_clear(tiles, s, actions),
    decreases actions.len(),
{
    if actions.len() > 0 {
        assert(actions[0] is Push);
        if actions[0].outcome(tiles, s) is Some {
            lemma_push_clear(tiles, s, actions[0]);
            lemma_step_settled(tiles, s, actions[0]);
            let rest = actions.drop_first();
            assert forall|k: int| 0 <= k < rest.len() implies (#[trigger] rest[k]) is Push by {
                assert(rest[k] == actions[k + 1]);
            };
            lemma_pushes_stay_clear(tiles, actions[0].outcome(tiles, s).unwrap().0, rest);
        }
    }
}

/// Undoing the player's moves is exact. Along any run of pushes that all
/// succeed, starting from a settled layout, applying the reciprocals in
/// reverse order succeeds and restores exactly the layout the run started from.
pub proof fn lemma_undo_restores_moves(tiles: Tilemap, s: Layout, actions: Seq<Action>)
    requires
        tiles.wf(),
        run(tiles, s, actions) is Some,
        settled(tiles, s),
        all_pushes(actions),
    ensures
        ({
            let (end, backs) = run(tiles, s, actions).unwrap();
            match run(tiles, end, backs.reverse()) {
                Some((restored, _)) => restored == s,
                None => false,
            }
        }),
{
    lemma_pushes_stay_clear(tiles, s, actions);
    lemma_undo_restores(tiles, s, actions);
}

/// An action never drops a second crate into a hole.
pub proof fn lemma_action_keeps_holes(tiles: Tilemap, s: Layout, a: Action)
    requires
        tiles.wf(),
        holes_claimed_once(s.crates),
        a.outcome(tiles, s) is Some,
    ensures
        holes_claimed_once(a.outcome(tiles, s).unwrap().0.crates),
{
    let here = s.player.position.cell();
    let (d, pushing) = match a {
        Action::Push { direction, .. } => (direction, true),
        Action::Pull { direction, .. } => (direction, false),
    };
    let from = if pushing { shifted(here, d) } else { shifted_back(here, d) };
    let to = if pushing { shifted(shifted(here, d), d) } else { here };
    lemma_step_moves(here, d);
    lemma_step_moves(shifted(here, d), d);
    let chosen = if pushing { first_crate(s.crates, from, true) } else { pulled_crate(s.crates, from) };
    lemma_pulled_crate(s.crates, from);
    match chosen {
        None => {},
        Some(i) => {
            if pushing {
                assert(is_first_crate(s.crates, from, true, i));
            }
            let s1 = a.outcome(tiles, s).unwrap().0;
            let cs = s1.crates;
            assert(cs == s.crates.update(i, Crate { position: Position::of_cell(to), in_hole: claims_hole(tiles, s.crates, to), ..s.crates[i] }));
            assert forall|x: int, y: int|
                0 <= x < cs.len() && 0 <= y < cs.len() && x != y && #[trigger] cs[x].in_hole
                    && #[trigger] cs[y].in_hole implies cs[x].position != cs[y].position by {
                if x == i || y == i {
                    let o = if x == i { y } else { x };
                    assert(cs[o] == s.crates[o]);
                    if cs[o].position == cs[i].position {
                        tiles.lemma_tile_in_range(to);
                        assert(cs[i].position.cell() == to);
                        assert(crate_matches(s.crates[o], to, false) && s.crates[o].in_hole);
                    }
                } else {
                    assert(cs[x] == s.crates[x]);
                    assert(cs[y] == s.crates[y]);
                }
            };
        },
    }
}

/// No run of actions ever drops two crates into one hole: where no hole holds
/// two crates at the start, none does after any run that succeeds.
pub proof fn lemma_run_keeps_holes(tiles: Tilemap, s: Layout, actions: Seq<Action>)
    requires
        tiles.wf(),
        holes_claimed_once(s.crates),
        run(tiles, s, actions) is Some,
    ensures
        holes_claimed_once(run(tiles, s, actions).unwrap().0.crates),
    decreases actions.len(),
{
    if actions.len() > 0 {
        lemma_action_keeps_holes(tiles, s, actions[0]);
        let (s1, _) = actions[0].outcome(tiles, s).unwrap();
        lemma_run_keeps_holes(tiles, s1, actions.drop_first());
    }
}

} // verus!
