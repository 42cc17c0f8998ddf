//! A level: the tiles, crates, goals and player, the moves of the player, the
//! undo history and the win condition.
use vstd::prelude::*;
use crate::action::{
    crate_matches, first_crate, has_surface_crate, hole_filled, is_obstructed, is_walkable, lemma_first_crate_is, lemma_first_crate_none, lemma_first_crate_some,
    Action, Layout,
};
use crate::grid::{fits_i32, shifted, shifted_back, Direction, Position};
use crate::load::{
    building_tiles, holds_objects, lemma_first_where_is,
    lemma_first_where_none, lemma_parse_error_prefix, map_error, map_objects, named, object_layer,
    parse_objects, tile_layer, LevelLoadError,
};
use crate::map::{string_is, Color, Layer, LayerContent, MapData, MapObjectData};
use crate::objects::{Crate, Goal, MapObject};
use crate::player::Player;
use crate::tilemap::{tile_kind, LevelTile, Tilemap};

verus! {

/// No two crates have dropped into the same hole.
pub open spec fn holes_claimed_once(crates: Seq<Crate>) -> bool {
    forall|i: int, j: int|
        0 <= i < crates.len() && 0 <= j < crates.len() && i != j && #[trigger] crates[i].in_hole
            && #[trigger] crates[j].in_hole ==> crates[i].position != crates[j].position
}

/// Crate `c` satisfies goal `g`: it stands on the goal, has not dropped into
/// a hole, and the goal accepts its style.
pub open spec fn satisfies(c: Crate, g: Goal) -> bool {
    c.position == g.position && !c.in_hole && g.accepted_style.spec_accepts(c.style)
}

/// Some crate satisfies goal `g`.
pub open spec fn goal_met(crates: Seq<Crate>, g: Goal) -> bool {
    exists|i: int| 0 <= i < crates.len() && #[trigger] satisfies(crates[i], g)
}

/// Crate `i` is the first crate that satisfies goal `g`, the one the goal marks as positioned.
pub open spec fn resolves(crates: Seq<Crate>, g: Goal, i: int) -> bool {
    &&& 0 <= i < crates.len()
    &&& satisfies(crates[i], g)
    &&& forall|j: int| 0 <= j < i ==> !satisfies(#[trigger] crates[j], g)
}

/// Crate `j` stands on the same cell as crate `i` without having dropped into a hole.
pub open spec fn on_top_of(crates: Seq<Crate>, j: int, i: int) -> bool {
    &&& 0 <= j < crates.len()
    &&& j != i
    &&& crates[j].position == crates[i].position
    &&& !crates[j].in_hole
}

/// Crate `i` has dropped into a hole and another crate stands on top of it.
pub open spec fn covered(crates: Seq<Crate>, i: int) -> bool {
    crates[i].in_hole && exists|j: int| #[trigger] on_top_of(crates, j, i)
}

/// A crate-pushing puzzle in play.
pub struct Level {
    player_spawn: Position,
    crates: Vec<Crate>,
    goals: Vec<Goal>,
    tilemap: Tilemap,
    background_color: Color,
    player: Player,
    undo_history: Vec<Action>,
}

impl Level {
    /// The player and the crates.
    pub closed spec fn layout(&self) -> Layout {
        Layout { player: self.player, crates: self.crates@ }
    }

    pub closed spec fn tiles(&self) -> Tilemap {
        self.tilemap
    }

    pub closed spec fn goal_list(&self) -> Seq<Goal> {
        self.goals@
    }

    /// The reciprocals of the actions carried out and not yet undone, oldest first.
    pub closed spec fn history(&self) -> Seq<Action> {
        self.undo_history@
    }

    pub closed spec fn spawn(&self) -> Position {
        self.player_spawn
    }

    pub closed spec fn background(&self) -> Color {
        self.background_color
    }

    /// The tilemap is well formed and no hole holds two crates.
    pub open spec fn wf(&self) -> bool {
        self.tiles().wf() && holes_claimed_once(self.layout().crates)
    }

    /// The spawn, goals, tiles and background are the same in `self` and `other`.
    pub open spec fn same_setting(&self, other: &Level) -> bool {
        &&& self.spawn() == other.spawn()
        &&& self.goal_list() == other.goal_list()
        &&& self.tiles() == other.tiles()
        &&& self.background() == other.background()
    }

    /// Everything but the player and the crates is the same in `self` and `other`.
    pub open spec fn same_but_layout(&self, other: &Level) -> bool {
        self.same_setting(other) && self.history() == other.history()
    }

    /// `self` is what `old` becomes when the player tries to move towards `d`:
    /// a push that looks towards `d`, whose reciprocal is recorded on success.
    /// `moved` tells whether it succeeded.
    pub open spec fn moved_from(&self, old: &Level, d: Direction, moved: bool) -> bool {
        &&& self.wf()
        &&& self.same_setting(old)
        &&& match (Action::Push { direction: d, look_direction: d }).outcome(old.tiles(), old.layout()) {
            Some((s, back)) => moved && self.layout() == s && self.history() == old.history().push(back),
            None => !moved && self.layout() == old.layout() && self.history() == old.history(),
        }
    }

    /// `self` is what `old` becomes when the last recorded action is undone:
    /// it is removed from the history and applied. Nothing changes where the
    /// history is empty or the action cannot be applied. `undone` tells
    /// whether an action was undone.
    pub open spec fn undone_from(&self, old: &Level, undone: bool) -> bool {
        &&& self.wf()
        &&& self.same_setting(old)
        &&& if old.history().len() == 0 {
            !undone && self.layout() == old.layout() && self.history() == old.history()
        } else {
            match old.history().last().outcome(old.tiles(), old.layout()) {
                Some((s, _)) => undone && self.layout() == s && self.history() == old.history().drop_last(),
                None => !undone && self.layout() == old.layout() && self.history() == old.history(),
            }
        }
    }

    /// Whether a crate cannot be moved onto `position`: it lies outside the
    /// map, the tile there is solid, or a crate that has not dropped into a
    /// hole stands there.
    pub fn is_cell_obstructed(&self, position: Position) -> (r: bool)
        requires
            self.wf(),
        ensures
            r == is_obstructed(self.tiles(), self.layout().crates, position.cell()),
    {
        let solid = match self.tilemap.get_tile(position) {
            Some(LevelTile::Solid) | None => true,
            Some(LevelTile::Hole) | Some(LevelTile::Floor) => false,
        };
        let mut i: usize = 0;
        while i < self.crates.len()
            invariant
                i <= self.crates@.len(),
                forall|j: int| 0 <= j < i ==> !crate_matches(#[trigger] self.crates@[j], position.cell(), true),
            decreases self.crates@.len() - i,
        {
            if self.crates[i].position == position && !self.crates[i].in_hole {
                assert(crate_matches(self.crates@[i as int], position.cell(), true));
                return true;
            }
            i = i + 1;
        }
        solid
    }

    /// Whether the player can walk onto `position`: its tile is floor, or a
    /// hole into which a crate has dropped.
    pub fn is_cell_walkable(&self, position: Position) -> (r: bool)
        requires
            self.wf(),
        ensures
            r == is_walkable(self.tiles(), self.layout().crates, position.cell()),
    {
        match self.tilemap.get_tile(position) {
            Some(LevelTile::Hole) => self.hole_is_filled(position),
            Some(LevelTile::Floor) => true,
            Some(LevelTile::Solid) => false,
            None => false,
        }
    }

    /// Whether a crate has dropped into the hole at `position`.
    fn hole_is_filled(&self, position: Position) -> (r: bool)
        ensures
            r == hole_filled(self.crates@, position.cell()),
    {
        let mut i: usize = 0;
        while i < self.crates.len()
            invariant
                i <= self.crates@.len(),
                forall|j: int|
                    0 <= j < i ==> !(crate_matches(#[trigger] self.crates@[j], position.cell(), false)
                        && self.crates@[j].in_hole),
            decreases self.crates@.len() - i,
        {
            if self.crates[i].position == position && self.crates[i].in_hole {
                assert(crate_matches(self.crates@[i as int], position.cell(), false));
                return true;
            }
            i = i + 1;
        }
        false
    }

    /// The index of the first crate standing at `position` (where
    /// `surface_only`, the first that has not dropped into a hole).
    fn find_crate(&self, position: Position, surface_only: bool) -> (r: Option<usize>)
        ensures
            match r {
                Some(i) => first_crate(self.crates@, position.cell(), surface_only) == Some(i as int),
                None => first_crate(self.crates@, position.cell(), surface_only) is None,
            },
    {
        let mut i: usize = 0;
        while i < self.crates.len()
            invariant
                i <= self.crates@.len(),
                forall|j: int| 0 <= j < i ==> !crate_matches(#[trigger] self.crates@[j], position.cell(), surface_only),
            decreases self.crates@.len() - i,
        {
            if self.crates[i].position == position && (!surface_only || !self.crates[i].in_hole) {
                proof {
                    lemma_first_crate_is(self.crates@, position.cell(), surface_only, i as int);
                }
                return Some(i);
            }
            i = i + 1;
        }
        proof {
            lemma_first_crate_none(self.crates@, position.cell(), surface_only);
        }
        None
    }

    /// Moves the player to `position`, looking towards `look`, and crate `i`
    /// (if any) to `crate_position` with its hole flag set to `in_hole`.
    fn commit(&mut self, position: Position, look: Direction, moved: Option<(usize, Position, bool)>)
        requires
            old(self).wf(),
            moved matches Some((i, p, h)) ==> {
                &&& i < old(self).crates@.len()
                &&& h ==> !hole_filled(old(self).crates@, p.cell())
            },
        ensures
            final(self).wf(),
            final(self).same_but_layout(old(self)),
            final(self).layout() == match moved {
                Some((i, p, h)) => old(self).layout().with_player_at(position.cell(), look).with_crate_at(
                    i as int,
                    p.cell(),
                    h,
                ),
                None => old(self).layout().with_player_at(position.cell(), look),
            },
    {
        self.player = Player { position, direction: look };
        match moved {
            Some((i, p, h)) => {
                let mut c = self.crates[i];
                c.position = p;
                c.in_hole = h;
                self.crates.set(i, c);
                proof {
                    let cs = self.crates@;
                    assert forall|a: int, b: int|
                        0 <= a < cs.len() && 0 <= b < cs.len() && a != b && #[trigger] cs[a].in_hole
                            && #[trigger] cs[b].in_hole implies cs[a].position != cs[b].position by {
                        if a == i || b == i {
                            let o = if a == i { b } else { a };
                            assert(cs[o] == old(self).crates@[o]);
                            assert(!(crate_matches(old(self).crates@[o], p.cell(), false) && old(self).crates@[o].in_hole));
                        } else {
                            assert(cs[a] == old(self).crates@[a]);
                            assert(cs[b] == old(self).crates@[b]);
                        }
                    };
                }
            },
            None => {},
        }
    }
}

/// The tiles of the first layer called `name`, where it is a tile layer.
fn find_tile_layer<'a>(layers: &'a Vec<Layer>, name: &str) -> (r: Option<&'a Vec<Option<u32>>>)
    ensures
        match r {
            Some(v) => tile_layer(layers@, name@) == Some(v@),
            None => tile_layer(layers@, name@) is None,
        },
{
    let mut i: usize = 0;
    while i < layers.len()
        invariant
            i <= layers@.len(),
            forall|j: int| 0 <= j < i ==> !named(name@)(#[trigger] layers@[j]),
        decreases layers@.len() - i,
    {
        if string_is(&layers[i].name, name) {
            proof {
                lemma_first_where_is(layers@, named(name@), i as int);
            }
            return match &layers[i].content {
                LayerContent::Tiles(v) => Some(v),
                _ => None,
            };
        }
        i = i + 1;
    }
    proof {
        lemma_first_where_none(layers@, named(name@));
    }
    None
}

/// The objects of the first object layer.
fn find_object_layer(layers: &Vec<Layer>) -> (r: Option<&Vec<MapObjectData>>)
    ensures
        match r {
            Some(v) => object_layer(layers@) == Some(v@),
            None => object_layer(layers@) is None,
        },
{
    let mut i: usize = 0;
    while i < layers.len()
        invariant
            i <= layers@.len(),
            forall|j: int| 0 <= j < i ==> !holds_objects()(#[trigger] layers@[j]),
        decreases layers@.len() - i,
    {
        match &layers[i].content {
            LayerContent::Objects(v) => {
                proof {
                    lemma_first_where_is(layers@, holds_objects(), i as int);
                }
                return Some(v);
            },
            _ => {},
        }
        i = i + 1;
    }
    proof {
        lemma_first_where_none(layers@, holds_objects());
    }
    None
}

impl Level {
    /// `self` is the level that map `map` describes, as it stands before any
    /// move: the player at the spawn looking south, the crates and goals of the
    /// object layer in order, the tiles of the building layer, the map's
    /// background colour (black where it has none), and no recorded action.
    pub open spec fn built_from(&self, map: MapData) -> bool {
        match parse_objects(map.tileset, map_objects(map)) {
            Ok((crates, goals, spawn)) => {
                &&& spawn is Some
                &&& self.spawn() == spawn.unwrap()
                &&& self.layout() == (Layout {
                    player: Player { position: spawn.unwrap(), direction: Direction::South },
                    crates,
                })
                &&& self.goal_list() == goals
                &&& self.history().len() == 0
                &&& self.tiles().extent() == map.size
                &&& self.tiles()@.len() == building_tiles(map).len()
                &&& forall|k: int|
                    0 <= k < self.tiles()@.len() ==> #[trigger] self.tiles()@[k] == tile_kind(
                        map.tileset,
                        building_tiles(map)[k],
                    )
                &&& self.background() == match map.background_color {
                    Some(c) => c,
                    None => Color { r: 0, g: 0, b: 0 },
                }
            },
            Err(_) => false,
        }
    }

    /// Builds a level from a map description. Fails, with the first problem
    /// found, where the map is infinite or too large, lacks its "building" or
    /// "floor" tile layer, has no object layer, holds an object that is not a
    /// valid spawn, crate or goal, has no goal or no crate, or has no spawn.
    pub fn from_map(map: &MapData) -> (r: Result<Level, LevelLoadError>)
        ensures
            match r {
                Ok(level) => map_error(*map) is None && level.wf() && level.built_from(*map),
                Err(e) => map_error(*map) == Some(e),
            },
    {
        if map.infinite || map.size.width > 0x7fff_ffff || map.size.height > 0x7fff_ffff {
            return Err(LevelLoadError::NotFinite);
        }
        let building = match find_tile_layer(&map.layers, "building") {
            Some(b) => b,
            None => return Err(LevelLoadError::InvalidLayers),
        };
        match find_tile_layer(&map.layers, "floor") {
            Some(_) => {},
            None => return Err(LevelLoadError::InvalidLayers),
        }
        let w = map.size.width as u64;
        let h = map.size.height as u64;
        assert(w * h <= 0x7fff_ffff * 0x7fff_ffff) by (nonlinear_arith)
            requires
                w <= 0x7fff_ffff,
                h <= 0x7fff_ffff,
        ;
        let area: u64 = w * h;
        if building.len() as u64 != area {
            return Err(LevelLoadError::InvalidLayers);
        }
        let tilemap = Tilemap::from_tiled_layer(map.size, building, &map.tileset);
        let objects = match find_object_layer(&map.layers) {
            Some(o) => o,
            None => return Err(LevelLoadError::InvalidObjectGroups),
        };
        let mut crates: Vec<Crate> = Vec::new();
        let mut goals: Vec<Goal> = Vec::new();
        let mut spawn: Option<Position> = None;
        let mut i: usize = 0;
        while i < objects.len()
            invariant
                !(map.infinite || map.size.width > i32::MAX || map.size.height > i32::MAX),
                tile_layer(map.layers@, "building"@) == Some(building@),
                tile_layer(map.layers@, "floor"@) is Some,
                building@.len() == map.size.width * map.size.height,
                object_layer(map.layers@) == Some(objects@),
                i <= objects@.len(),
                parse_objects(map.tileset, objects@.take(i as int)) == Ok::<_, int>((crates@, goals@, spawn)),
                forall|j: int| 0 <= j < crates@.len() ==> !(#[trigger] crates@[j]).in_hole,
            decreases objects@.len() - i,
        {
            proof {
                assert(objects@.take(i + 1).drop_last() == objects@.take(i as int));
                assert(objects@.take(i + 1).last() == objects@[i as int]);
            }
            match MapObject::from_tiled_object(&objects[i], &map.tileset) {
                Some(MapObject::Spawn { position }) => spawn = Some(position),
                Some(MapObject::Crate(c)) => crates.push(c),
                Some(MapObject::Goal(g)) => goals.push(g),
                None => {
                    proof {
                        let prefix = objects@.take(i + 1);
                        assert(prefix.len() == i + 1);
                        assert(parse_objects(map.tileset, prefix) == Err::<(Seq<Crate>, Seq<Goal>, Option<Position>), int>(i as int));
                        lemma_parse_error_prefix(map.tileset, objects@, i + 1);
                    }
                    return Err(LevelLoadError::InvalidObject(i));
                },
            }
            i = i + 1;
        }
        proof {
            assert(objects@.take(i as int) == objects@);
        }
        if goals.len() == 0 || crates.len() == 0 {
            return Err(LevelLoadError::NoGoalsOrCrates);
        }
        let player_spawn = match spawn {
            Some(p) => p,
            None => return Err(LevelLoadError::NoPlayerSpawn),
        };
        let background_color = match map.background_color {
            Some(c) => c,
            None => Color { r: 0, g: 0, b: 0 },
        };
        Ok(Level {
            player_spawn,
            crates,
            goals,
            tilemap,
            background_color,
            player: Player::new(player_spawn),
            undo_history: Vec::new(),
        })
    }
}

/// A key of the keyboard, as far as the game tells keys apart.
#[derive(Clone, Copy, Debug, PartialEq, Eq, Structural)]
pub enum Key {
    W,
    A,
    S,
    D,
    Up,
    Down,
    Left,
    Right,
    Q,
    Other,
}

/// An input event.
#[derive(Clone, Copy, Debug, PartialEq, Eq, Structural)]
pub enum Event {
    KeyPressed { code: Key },
    Other,
}

/// What an event did to a level, so that a sound can be played for it.
#[derive(Clone, Copy, Debug, PartialEq, Eq, Structural)]
pub enum Feedback {
    Moved,
    Undone,
    Nothing,
}

/// The direction a key moves the player in: WASD and the arrow keys.
pub open spec fn key_direction(k: Key) -> Option<Direction> {
    match k {
        Key::W | Key::Up => Some(Direction::North),
        Key::S | Key::Down => Some(Direction::South),
        Key::A | Key::Left => Some(Direction::West),
        Key::D | Key::Right => Some(Direction::East),
        _ => None,
    }
}

impl Level {
    /// Reacts to an input event: a movement key moves the player, Q undoes
    /// the last move, and anything else is ignored.
    pub fn handle_event(&mut self, event: Event) -> (r: Feedback)
        requires
            old(self).wf(),
        ensures
            match event {
                Event::KeyPressed { code: Key::Q } => final(self).undone_from(old(self), r == Feedback::Undone)
                    && r != Feedback::Moved,
                Event::KeyPressed { code } => match key_direction(code) {
                    Some(d) => final(self).moved_from(old(self), d, r == Feedback::Moved) && r != Feedback::Undone,
                    None => *final(self) == *old(self) && r == Feedback::Nothing,
                },
                Event::Other => *final(self) == *old(self) && r == Feedback::Nothing,
            },
    {
        let direction = match event {
            Event::KeyPressed { code: Key::W } | Event::KeyPressed { code: Key::Up } => Direction::North,
            Event::KeyPressed { code: Key::S } | Event::KeyPressed { code: Key::Down } => Direction::South,
            Event::KeyPressed { code: Key::A } | Event::KeyPressed { code: Key::Left } => Direction::West,
            Event::KeyPressed { code: Key::D } | Event::KeyPressed { code: Key::Right } => Direction::East,
            Event::KeyPressed { code: Key::Q } => {
                return if self.undo() {
                    Feedback::Undone
                } else {
                    Feedback::Nothing
                };
            },
            _ => return Feedback::Nothing,
        };
        if self.move_player(direction) {
            Feedback::Moved
        } else {
            Feedback::Nothing
        }
    }

    /// Moves the player one cell towards `direction`, pushing a crate in the
    /// way, if possible; the player then looks that way. On success the
    /// reciprocal action is recorded and `true` is returned (a cue for the
    /// move sound); otherwise nothing changes.
    pub fn move_player(&mut self, direction: Direction) -> (moved: bool)
        requires
            old(self).wf(),
        ensures
            final(self).moved_from(old(self), direction, moved),
            !is_walkable(old(self).tiles(), old(self).layout().crates, shifted(old(self).layout().player.position.cell(), direction))
                ==> final(self).layout().player == old(self).layout().player && !moved,
            ({
                let target = shifted(old(self).layout().player.position.cell(), direction);
                has_surface_crate(old(self).layout().crates, target)
                    && old(self).tiles().tile_at(shifted(target, direction)) == Some(LevelTile::Solid)
            }) ==> final(self).layout() == old(self).layout() && final(self).history() == old(self).history(),
    {
        let action = Action::Push { direction, look_direction: direction };
        proof {
            let crates = self.crates@;
            let target = shifted(self.player.position.cell(), direction);
            if has_surface_crate(crates, target) {
                let j = choose|j: int| 0 <= j < crates.len() && #[trigger] crate_matches(crates[j], target, true);
                lemma_first_crate_some(crates, target, true, j);
            }
        }
        match action.apply(self) {
            Ok(back) => {
                self.undo_history.push(back);
                true
            },
            Err(()) => false,
        }
    }

    /// Undoes the last recorded action, if any, by applying it. Returns
    /// whether an action was undone (a cue for the undo sound). Where the
    /// action cannot be applied, it stays recorded and nothing changes.
    pub fn undo(&mut self) -> (undone: bool)
        requires
            old(self).wf(),
        ensures
            final(self).undone_from(old(self), undone),
    {
        match self.undo_history.pop() {
            Some(last) => {
                match last.apply(self) {
                    Ok(_) => true,
                    Err(()) => {
                        self.undo_history.push(last);
                        proof {
                            assert(self.undo_history@ =~= old(self).undo_history@);
                        }
                        false
                    },
                }
            },
            None => false,
        }
    }

    /// Every goal is done exactly when a crate satisfies it.
    pub open spec fn goals_resolved(&self) -> bool {
        forall|k: int|
            0 <= k < self.goal_list().len() ==> (#[trigger] self.goal_list()[k]).done == goal_met(
                self.layout().crates,
                self.goal_list()[k],
            )
    }

    /// All goals are done.
    pub open spec fn spec_is_won(&self) -> bool {
        forall|k: int| 0 <= k < self.goal_list().len() ==> (#[trigger] self.goal_list()[k]).done
    }

    /// The win condition. Once the derived flags are up to date, as `update`
    /// leaves them, the level is won exactly when every goal has a crate on it
    /// that has not dropped into a hole and whose style the goal accepts.
    pub proof fn lemma_won_iff_goals_met(&self)
        requires
            self.goals_resolved(),
        ensures
            self.spec_is_won() <==> forall|k: int|
                0 <= k < self.goal_list().len() ==> goal_met(self.layout().crates, #[trigger] self.goal_list()[k]),
    {
    }

    /// Whether all goals are done.
    pub fn is_won(&self) -> (r: bool)
        ensures
            r == self.spec_is_won(),
    {
        let mut k: usize = 0;
        while k < self.goals.len()
            invariant
                k <= self.goals@.len(),
                forall|j: int| 0 <= j < k ==> (#[trigger] self.goals@[j]).done,
            decreases self.goals@.len() - k,
        {
            if !self.goals[k].done {
                return false;
            }
            k = k + 1;
        }
        true
    }

    /// Recomputes the flags derived from where the crates are; call it after
    /// every change. A crate is opaque unless it lies in a hole under another
    /// crate. A goal is done when a crate satisfies it, and the first such
    /// crate is marked positioned; no other crate is.
    pub fn update(&mut self)
        requires
            old(self).wf(),
        ensures
            final(self).wf(),
            final(self).goals_resolved(),
            final(self).tiles() == old(self).tiles(),
            final(self).spawn() == old(self).spawn(),
            final(self).history() == old(self).history(),
            final(self).background() == old(self).background(),
            final(self).layout().player == old(self).layout().player,
            final(self).layout().crates.len() == old(self).layout().crates.len(),
            forall|i: int|
                0 <= i < old(self).layout().crates.len() ==> #[trigger] final(self).layout().crates[i] == (Crate {
                    opaque: !covered(old(self).layout().crates, i),
                    positioned: exists|k: int|
                        0 <= k < old(self).goal_list().len() && resolves(
                            old(self).layout().crates,
                            #[trigger] old(self).goal_list()[k],
                            i,
                        ),
                    ..old(self).layout().crates[i]
                }),
            final(self).goal_list().len() == old(self).goal_list().len(),
            forall|k: int|
                0 <= k < old(self).goal_list().len() ==> #[trigger] final(self).goal_list()[k] == (Goal {
                    done: goal_met(old(self).layout().crates, old(self).goal_list()[k]),
                    ..old(self).goal_list()[k]
                }),
    {
        self.update_crate_opacity();
    }

    /// Whether crate `i` lies in a hole under another crate.
    fn is_covered(&self, i: usize) -> (r: bool)
        requires
            i < self.crates@.len(),
        ensures
            r == covered(self.crates@, i as int),
    {
        if !self.crates[i].in_hole {
            return false;
        }
        let mut j: usize = 0;
        while j < self.crates.len()
            invariant
                j <= self.crates@.len(),
                i < self.crates@.len(),
                self.crates@[i as int].in_hole,
                forall|m: int| 0 <= m < j ==> !#[trigger] on_top_of(self.crates@, m, i as int),
            decreases self.crates@.len() - j,
        {
            if j != i && self.crates[j].position == self.crates[i].position && !self.crates[j].in_hole {
                assert(on_top_of(self.crates@, j as int, i as int));
                return true;
            }
            j = j + 1;
        }
        assert forall|m: int| !#[trigger] on_top_of(self.crates@, m, i as int) by {
            if 0 <= m < self.crates@.len() {
                assert(!on_top_of(self.crates@, m, i as int));
            }
        };
        false
    }

    /// The index of the first crate that satisfies `g`, if any.
    fn find_goal_crate(&self, g: &Goal) -> (r: Option<usize>)
        ensures
            match r {
                Some(i) => resolves(self.crates@, *g, i as int),
                None => !goal_met(self.crates@, *g),
            },
    {
        let mut i: usize = 0;
        while i < self.crates.len()
            invariant
                i <= self.crates@.len(),
                forall|j: int| 0 <= j < i ==> !satisfies(#[trigger] self.crates@[j], *g),
            decreases self.crates@.len() - i,
        {
            let c = self.crates[i];
            if c.position == g.position && !c.in_hole && g.accepted_style.accepts(c.style) {
                return Some(i);
            }
            i = i + 1;
        }
        None
    }

    fn update_crate_opacity(&mut self)
        requires
            old(self).wf(),
        ensures
            final(self).wf(),
            final(self).goals_resolved(),
            final(self).tilemap == old(self).tilemap,
            final(self).player_spawn == old(self).player_spawn,
            final(self).undo_history@ == old(self).undo_history@,
            final(self).background_color == old(self).background_color,
            final(self).player == old(self).player,
            final(self).crates@.len() == old(self).crates@.len(),
            forall|i: int|
                0 <= i < old(self).crates@.len() ==> #[trigger] final(self).crates@[i] == (Crate {
                    opaque: !covered(old(self).crates@, i),
                    positioned: exists|k: int|
                        0 <= k < old(self).goals@.len() && resolves(old(self).crates@, #[trigger] old(self).goals@[k], i),
                    ..old(self).crates@[i]
                }),
            final(self).goals@.len() == old(self).goals@.len(),
            forall|k: int|
                0 <= k < old(self).goals@.len() ==> #[trigger] final(self).goals@[k] == (Goal {
                    done: goal_met(old(self).crates@, old(self).goals@[k]),
                    ..old(self).goals@[k]
                }),
    {
        let ghost c0 = self.crates@;
        let ghost g0 = self.goals@;
        let n = self.crates.len();
        // First find the covered crates, then mark them.
        let mut covered_flags: Vec<bool> = Vec::new();
        let mut i: usize = 0;
        while i < n
            invariant
                n == self.crates@.len(),
                self.crates@ == c0,
                i <= n,
                covered_flags@.len() == i,
                forall|j: int| 0 <= j < i ==> covered_flags@[j] == covered(c0, j),
            decreases n - i,
        {
            let cov = self.is_covered(i);
            covered_flags.push(cov);
            i = i + 1;
        }
        let mut i: usize = 0;
        while i < n
            invariant
                n == self.crates@.len(),
                n == c0.len(),
                i <= n,
                covered_flags@.len() == n,
                forall|j: int| 0 <= j < n ==> covered_flags@[j] == covered(c0, j),
                forall|j: int|
                    0 <= j < i ==> #[trigger] self.crates@[j] == (Crate {
                        opaque: !covered(c0, j),
                        positioned: false,
                        ..c0[j]
                    }),
                forall|j: int| i <= j < n ==> #[trigger] self.crates@[j] == c0[j],
                self.goals@ == g0,
                self.tilemap == old(self).tilemap,
                self.player_spawn == old(self).player_spawn,
                self.undo_history@ == old(self).undo_history@,
                self.background_color == old(self).background_color,
                self.player == old(self).player,
            decreases n - i,
        {
            let mut c = self.crates[i];
            c.opaque = !covered_flags[i];
            c.positioned = false;
            self.crates.set(i, c);
            i = i + 1;
        }
        // Then resolve the goals, each with the first crate that satisfies it.
        let m = self.goals.len();
        let mut k: usize = 0;
        while k < m
            invariant
                n == self.crates@.len(),
                n == c0.len(),
                m == self.goals@.len(),
                m == g0.len(),
                k <= m,
                forall|j: int|
                    0 <= j < n ==> #[trigger] self.crates@[j] == (Crate {
                        opaque: !covered(c0, j),
                        positioned: exists|q: int| 0 <= q < k && resolves(c0, #[trigger] g0[q], j),
                        ..c0[j]
                    }),
                forall|q: int|
                    0 <= q < k ==> #[trigger] self.goals@[q] == (Goal { done: goal_met(c0, g0[q]), ..g0[q] }),
                forall|q: int| k <= q < m ==> #[trigger] self.goals@[q] == g0[q],
                self.tilemap == old(self).tilemap,
                self.player_spawn == old(self).player_spawn,
                self.undo_history@ == old(self).undo_history@,
                self.background_color == old(self).background_color,
                self.player == old(self).player,
            decreases m - k,
        {
            let mut g = self.goals[k];
            let found = self.find_goal_crate(&g);
            proof {
                assert forall|j: int| 0 <= j < n implies satisfies(#[trigger] self.crates@[j], g) == satisfies(c0[j], g) by {
                    assert(self.crates@[j].position == c0[j].position);
                };
                if goal_met(c0, g) {
                    let w = choose|w: int| 0 <= w < c0.len() && #[trigger] satisfies(c0[w], g);
                    assert(satisfies(self.crates@[w], g));
                }
                if goal_met(self.crates@, g) {
                    let w = choose|w: int| 0 <= w < n && #[trigger] satisfies(self.crates@[w], g);
                    assert(satisfies(c0[w], g));
                }
            }
            match found {
                Some(i) => {
                    proof {
                        assert(g == g0[k as int]);
                        assert(satisfies(self.crates@[i as int], g));
                        assert forall|j: int| 0 <= j < i implies !satisfies(#[trigger] c0[j], g) by {
                            assert(!satisfies(self.crates@[j], g));
                        };
                        assert(resolves(c0, g0[k as int], i as int));
                    }
                    g.done = true;
                    let mut c = self.crates[i];
                    c.positioned = true;
                    self.crates.set(i, c);
                    proof {
                        assert forall|j: int| 0 <= j < n && j != i implies
                            !resolves(c0, g0[k as int], j) by {
                            if j < i {
                                assert(!satisfies(c0[j], g));
                            } else {
                                assert(!satisfies(c0[i as int], g) || !resolves(c0, g0[k as int], j));
                            }
                        };
                    }
                },
                None => {
                    g.done = false;
                    proof {
                        assert forall|j: int| 0 <= j < n implies !resolves(c0, g0[k as int], j) by {
                            if resolves(c0, g0[k as int], j) {
                                assert(satisfies(c0[j], g));
                            }
                        };
                    }
                },
            }
            self.goals.set(k, g);
            proof {
                assert forall|j: int| 0 <= j < n implies #[trigger] self.crates@[j] == (Crate {
                    opaque: !covered(c0, j),
                    positioned: exists|q: int| 0 <= q < k + 1 && resolves(c0, #[trigger] g0[q], j),
                    ..c0[j]
                }) by {
                    if exists|q: int| 0 <= q < k + 1 && resolves(c0, #[trigger] g0[q], j) {
                        let q = choose|q: int| 0 <= q < k + 1 && resolves(c0, #[trigger] g0[q], j);
                        if q < k {
                            assert(exists|q2: int| 0 <= q2 < k && resolves(c0, #[trigger] g0[q2], j));
                        }
                    }
                };
            }
            k = k + 1;
        }
        proof {
            assert forall|q: int| 0 <= q < m implies (#[trigger] self.goals@[q]).done == goal_met(self.crates@, self.goals@[q]) by {
                assert forall|j: int| 0 <= j < n implies satisfies(#[trigger] self.crates@[j], self.goals@[q]) == satisfies(c0[j], g0[q]) by {
                    assert(self.crates@[j].position == c0[j].position);
                };
                if goal_met(c0, g0[q]) {
                    let w = choose|w: int| 0 <= w < c0.len() && #[trigger] satisfies(c0[w], g0[q]);
                    assert(satisfies(self.crates@[w], self.goals@[q]));
                }
                if goal_met(self.crates@, self.goals@[q]) {
                    let w = choose|w: int| 0 <= w < n && #[trigger] satisfies(self.crates@[w], self.goals@[q]);
                    assert(satisfies(c0[w], g0[q]));
                }
            };
            let cs = self.crates@;
            assert forall|a: int, b: int|
                0 <= a < cs.len() && 0 <= b < cs.len() && a != b && #[trigger] cs[a].in_hole
                    && #[trigger] cs[b].in_hole implies cs[a].position != cs[b].position by {
                assert(c0[a].in_hole && c0[b].in_hole);
            };
        }
    }

    /// The number of recorded actions, which is the number of moves made and not undone.
    pub fn action_count(&self) -> (r: usize)
        ensures
            r == self.history().len(),
    {
        self.undo_history.len()
    }

    /// The tilemap of the level.
    pub fn tilemap(&self) -> (r: &Tilemap)
        ensures
            *r == self.tiles(),
    {
        &self.tilemap
    }

    /// The player.
    pub fn player(&self) -> (r: Player)
        ensures
            r == self.layout().player,
    {
        self.player
    }

    /// The crates, in the order they were placed on the map.
    pub fn crates(&self) -> (r: &Vec<Crate>)
        ensures
            r@ == self.layout().crates,
    {
        &self.crates
    }

    /// The goals, in the order they were placed on the map.
    pub fn goals(&self) -> (r: &Vec<Goal>)
        ensures
            r@ == self.goal_list(),
    {
        &self.goals
    }

    /// The colour to clear the screen with.
    pub fn background_color(&self) -> (r: Color)
        ensures
            r == self.background(),
    {
        self.background_color
    }

    /// Where the player was spawned.
    pub fn player_spawn(&self) -> (r: Position)
        ensures
            r == self.spawn(),
    {
        self.player_spawn
    }
}

/// A cell with a tile is one whose coordinates fit in an `i32`, as do those of its neighbours.
proof fn lemma_tile_cell_fits(tiles: Tilemap, c: (int, int), d: Direction)
    requires
        tiles.wf(),
        tiles.tile_at(c) is Some,
    ensures
        fits_i32(c),
        fits_i32(shifted(c, d)),
{
    tiles.lemma_tile_in_range(c);
}

impl Action {
    /// Applies this action to `level`. On success, returns the reciprocal
    /// action, which undoes it; on failure, changes nothing.
    pub fn apply(self, level: &mut Level) -> (r: Result<Action, ()>)
        requires
            old(level).wf(),
        ensures
            final(level).wf(),
            final(level).same_but_layout(old(level)),
            match self.outcome(old(level).tiles(), old(level).layout()) {
                Some((s, back)) => r == Ok::<Action, ()>(back) && final(level).layout() == s,
                None => r is Err && final(level).layout() == old(level).layout(),
            },
    {
        let here = level.player.position;
        let before = level.player.direction;
        let ghost tiles = level.tilemap;
        match self {
            Action::Push { direction, look_direction } => {
                let target = match here.step(direction) {
                    Some(t) => t,
                    None => {
                        proof {
                            if tiles.tile_at(shifted(here.cell(), direction)) is Some {
                                lemma_tile_cell_fits(tiles, shifted(here.cell(), direction), direction);
                            }
                        }
                        return Err(());
                    },
                };
                if !level.is_cell_walkable(target) {
                    return Err(());
                }
                let back = direction.inverse();
                match level.find_crate(target, true) {
                    None => {
                        level.commit(target, look_direction, None);
                        Ok(Action::Push { direction: back, look_direction: before })
                    },
                    Some(i) => {
                        proof {
                            lemma_tile_cell_fits(tiles, target.cell(), direction);
                        }
                        let dest = target.step(direction).unwrap();
                        if level.is_cell_obstructed(dest) {
                            return Err(());
                        }
                        let claims = matches!(level.tilemap.get_tile(dest), Some(LevelTile::Hole))
                            && !level.hole_is_filled(dest);
                        level.commit(target, look_direction, Some((i, dest, claims)));
                        Ok(Action::Pull { direction: back, look_direction: before })
                    },
                }
            },
            Action::Pull { direction, look_direction } => {
                let target = match here.step(direction) {
                    Some(t) => t,
                    None => {
                        proof {
                            if tiles.tile_at(shifted(here.cell(), direction)) is Some {
                                lemma_tile_cell_fits(tiles, shifted(here.cell(), direction), direction);
                            }
                        }
                        return Err(());
                    },
                };
                if !level.is_cell_walkable(target) {
                    return Err(());
                }
                let back = direction.inverse();
                let found = match here.step_back(direction) {
                    Some(source) => match level.find_crate(source, true) {
                        Some(i) => Some(i),
                        None => level.find_crate(source, false),
                    },
                    None => {
                        proof {
                            let source = shifted_back(here.cell(), direction);
                            assert forall|j: int| 0 <= j < level.crates@.len() implies !crate_matches(
                                #[trigger] level.crates@[j],
                                source,
                                false,
                            ) by {
                                assert(fits_i32(level.crates@[j].position.cell()));
                            };
                            lemma_first_crate_none(level.crates@, source, false);
                            assert forall|j: int| 0 <= j < level.crates@.len() implies !crate_matches(
                                #[trigger] level.crates@[j],
                                source,
                                true,
                            ) by {
                                assert(fits_i32(level.crates@[j].position.cell()));
                            };
                            lemma_first_crate_none(level.crates@, source, true);
                        }
                        None
                    },
                };
                match found {
                    None => {
                        level.commit(target, look_direction, None);
                        Ok(Action::Push { direction: back, look_direction: before })
                    },
                    Some(i) => {
                        if level.is_cell_obstructed(here) {
                            return Err(());
                        }
                        let claims = matches!(level.tilemap.get_tile(here), Some(LevelTile::Hole))
                            && !level.hole_is_filled(here);
                        level.commit(target, look_direction, Some((i, here, claims)));
                        Ok(Action::Push { direction: back, look_direction: before })
                    },
                }
            },
        }
    }
}

} // verus!
