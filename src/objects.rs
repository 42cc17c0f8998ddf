//! The dynamic objects of a level: crates and goals, and the parsing of the
//! objects placed on a map.
use vstd::prelude::*;
use crate::grid::Position;
use crate::map::{opt_string_is, text_is, MapObjectData, PropertyValue, Tileset};

verus! {

/// The kind of a crate (a colour, say). A goal may accept one kind only.
#[derive(Clone, Copy, Debug, PartialEq, Eq, Structural)]
pub struct CrateStyle {
    id: u32,
}

/// A crate style property that is not a non-zero integer.
#[derive(Clone, Copy, Debug, PartialEq, Eq, Structural)]
pub struct CrateStyleParseError;

impl CrateStyle {
    /// A style identifier is never zero.
    #[verifier::type_invariant]
    spec fn inv(self) -> bool {
        self.id != 0
    }

    pub closed spec fn id(self) -> u32 {
        self.id
    }

    /// The style with identifier `id`.
    pub closed spec fn of_id(id: u32) -> CrateStyle {
        CrateStyle { id }
    }

    /// A style is known by its identifier: styles of different identifiers differ.
    pub proof fn lemma_of_id(id: u32)
        ensures
            CrateStyle::of_id(id).id() == id,
    {
    }

    /// The style a property value names: a non-zero integer, read as a `u32`.
    pub open spec fn spec_from_property(v: PropertyValue) -> Option<CrateStyle> {
        match v {
            PropertyValue::IntValue(i) => if i != 0 {
                Some(CrateStyle::of_id(#[verifier::truncate] (i as u32)))
            } else {
                None
            },
            PropertyValue::Other => None,
        }
    }

    /// The style with identifier `id`, which must not be zero.
    pub fn new(id: u32) -> (r: Option<CrateStyle>)
        ensures
            r == (if id != 0 { Some(CrateStyle::of_id(id)) } else { None }),
            r matches Some(s) ==> s.id() == id,
    {
        if id != 0 {
            Some(CrateStyle { id })
        } else {
            None
        }
    }

    /// The identifier of this style.
    pub fn get(&self) -> (r: u32)
        ensures
            r == self.id(),
            r != 0,
    {
        proof {
            use_type_invariant(self);
        }
        self.id
    }

    /// Reads a style from a tile property.
    pub fn from_tiled_property(prop: &PropertyValue) -> (r: Result<CrateStyle, CrateStyleParseError>)
        ensures
            match r {
                Ok(s) => CrateStyle::spec_from_property(*prop) == Some(s),
                Err(_) => CrateStyle::spec_from_property(*prop) is None,
            },
    {
        match prop {
            PropertyValue::IntValue(i) => {
                if *i != 0 {
                    let v: i32 = *i;
                    let id: u32 = #[verifier::truncate] (v as u32);
                    assert(v != 0 ==> #[verifier::truncate] (v as u32) != 0) by (bit_vector);
                    Ok(CrateStyle { id })
                } else {
                    Err(CrateStyleParseError)
                }
            },
            PropertyValue::Other => Err(CrateStyleParseError),
        }
    }
}

/// The crates a goal accepts.
#[derive(Clone, Copy, Debug, PartialEq, Eq, Structural)]
pub enum AcceptedCrateStyle {
    Specific(CrateStyle),
    Any,
}

impl AcceptedCrateStyle {
    pub open spec fn spec_accepts(self, style: CrateStyle) -> bool {
        match self {
            AcceptedCrateStyle::Specific(s) => s == style,
            AcceptedCrateStyle::Any => true,
        }
    }

    /// Whether a crate of `style` satisfies a goal accepting `self`.
    pub fn accepts(self, style: CrateStyle) -> (r: bool)
        ensures
            r == self.spec_accepts(style),
    {
        match self {
            AcceptedCrateStyle::Specific(accepted) => accepted == style,
            AcceptedCrateStyle::Any => true,
        }
    }
}

impl Default for AcceptedCrateStyle {
    fn default() -> (r: AcceptedCrateStyle)
        ensures
            r == AcceptedCrateStyle::Any,
    {
        AcceptedCrateStyle::Any
    }
}

/// A crate the player can move around.
#[derive(Clone, Copy, Debug, PartialEq, Eq, Structural)]
pub struct Crate {
    pub position: Position,
    pub style: CrateStyle,
    /// The crate has dropped into the hole it stands on.
    pub in_hole: bool,
    /// The crate currently satisfies a goal.
    pub positioned: bool,
    /// The crate is drawn opaque: it does not lie in a hole under another crate.
    pub opaque: bool,
}

/// A place where a crate of an accepted style should be put.
#[derive(Clone, Copy, Debug, PartialEq, Eq, Structural)]
pub struct Goal {
    pub position: Position,
    pub accepted_style: AcceptedCrateStyle,
    /// A crate the goal accepts stands on it.
    pub done: bool,
}

/// The crate that a tile with local id `id` spawns at `position`: the tile
/// must exist and carry a valid "style" property.
pub open spec fn crate_from_tile(tileset: Tileset, position: Position, id: u32) -> Option<Crate> {
    match tileset.def(id) {
        Some(def) => match def.property("style"@) {
            Some(v) => match CrateStyle::spec_from_property(v) {
                Some(style) => Some(
                    Crate { position, style, in_hole: false, positioned: false, opaque: true },
                ),
                None => None,
            },
            None => None,
        },
        None => None,
    }
}

/// The goal that a tile with local id `id` places at `position`: the tile
/// must exist; it accepts the style of its "accepts" property, or any style
/// where it has none.
pub open spec fn goal_from_tile(tileset: Tileset, position: Position, id: u32) -> Option<Goal> {
    match tileset.def(id) {
        Some(def) => match def.property("accepts"@) {
            Some(v) => match CrateStyle::spec_from_property(v) {
                Some(style) => Some(
                    Goal { position, accepted_style: AcceptedCrateStyle::Specific(style), done: false },
                ),
                None => None,
            },
            None => Some(Goal { position, accepted_style: AcceptedCrateStyle::Any, done: false }),
        },
        None => None,
    }
}

impl Crate {
    /// A crate spawned at `position` by the tile with local id `id`.
    pub fn new(position: Position, tileset: &Tileset, id: u32) -> (r: Option<Crate>)
        ensures
            r == crate_from_tile(*tileset, position, id),
    {
        let tile = match tileset.get_tile(id) {
            Some(t) => t,
            None => return None,
        };
        let prop = match tile.get_property("style") {
            Some(p) => p,
            None => return None,
        };
        match CrateStyle::from_tiled_property(&prop) {
            Ok(style) => Some(Crate { position, style, in_hole: false, positioned: false, opaque: true }),
            Err(_) => None,
        }
    }

    pub fn position(&self) -> (r: Position)
        ensures
            r == self.position,
    {
        self.position
    }

    pub fn set_position(&mut self, position: Position)
        ensures
            *final(self) == (Crate { position, ..*old(self) }),
    {
        self.position = position;
    }

    pub fn in_hole(&self) -> (r: bool)
        ensures
            r == self.in_hole,
    {
        self.in_hole
    }

    pub fn set_in_hole(&mut self, in_hole: bool)
        ensures
            *final(self) == (Crate { in_hole, ..*old(self) }),
    {
        self.in_hole = in_hole;
    }

    pub fn set_opaque(&mut self, opaque: bool)
        ensures
            *final(self) == (Crate { opaque, ..*old(self) }),
    {
        self.opaque = opaque;
    }

    pub fn set_is_positioned(&mut self, positioned: bool)
        ensures
            *final(self) == (Crate { positioned, ..*old(self) }),
    {
        self.positioned = positioned;
    }

    /// The crate's style.
    pub fn style(&self) -> (r: CrateStyle)
        ensures
            r == self.style,
    {
        self.style
    }
}

impl Goal {
    /// A goal placed at `position` by the tile with local id `id`.
    pub fn new(position: Position, tileset: &Tileset, id: u32) -> (r: Option<Goal>)
        ensures
            r == goal_from_tile(*tileset, position, id),
    {
        let tile = match tileset.get_tile(id) {
            Some(t) => t,
            None => return None,
        };
        match tile.get_property("accepts") {
            Some(p) => match CrateStyle::from_tiled_property(&p) {
                Ok(style) => Some(
                    Goal { position, accepted_style: AcceptedCrateStyle::Specific(style), done: false },
                ),
                Err(_) => None,
            },
            None => Some(Goal { position, accepted_style: AcceptedCrateStyle::Any, done: false }),
        }
    }

    pub fn set_done(&mut self, done: bool)
        ensures
            *final(self) == (Goal { done, ..*old(self) }),
    {
        self.done = done;
    }

    pub fn is_done(&self) -> (r: bool)
        ensures
            r == self.done,
    {
        self.done
    }

    /// The goal's position.
    pub fn position(&self) -> (r: Position)
        ensures
            r == self.position,
    {
        self.position
    }

    /// The crate styles the goal accepts.
    pub fn accepted_style(&self) -> (r: AcceptedCrateStyle)
        ensures
            r == self.accepted_style,
    {
        self.accepted_style
    }
}

/// An object of a level map.
#[derive(Clone, Copy, Debug, PartialEq, Eq, Structural)]
pub enum MapObject {
    Spawn { position: Position },
    Crate(Crate),
    Goal(Goal),
}

/// The level object that a map object stands for, by the declared type of its
/// tile: "spawn", "crate" or "goal". `None` for an object without a tile, of
/// another type, or whose crate or goal cannot be built.
pub open spec fn map_object(tileset: Tileset, object: MapObjectData) -> Option<MapObject> {
    match object.tile {
        Some(id) => match tileset.def(id) {
            Some(def) => if text_is(def.user_type, "spawn"@) {
                Some(MapObject::Spawn { position: object.position })
            } else if text_is(def.user_type, "crate"@) {
                match crate_from_tile(tileset, object.position, id) {
                    Some(c) => Some(MapObject::Crate(c)),
                    None => None,
                }
            } else if text_is(def.user_type, "goal"@) {
                match goal_from_tile(tileset, object.position, id) {
                    Some(g) => Some(MapObject::Goal(g)),
                    None => None,
                }
            } else {
                None
            },
            None => None,
        },
        None => None,
    }
}

impl MapObject {
    /// Parses a map object into a level object, if it is a valid one.
    pub fn from_tiled_object(object: &MapObjectData, tileset: &Tileset) -> (r: Option<MapObject>)
        ensures
            r == map_object(*tileset, *object),
    {
        let id = match object.tile {
            Some(id) => id,
            None => return None,
        };
        let def = match tileset.get_tile(id) {
            Some(d) => d,
            None => return None,
        };
        if opt_string_is(&def.user_type, "spawn") {
            Some(MapObject::Spawn { position: object.position })
        } else if opt_string_is(&def.user_type, "crate") {
            match Crate::new(object.position, tileset, id) {
                Some(c) => Some(MapObject::Crate(c)),
                None => None,
            }
        } else if opt_string_is(&def.user_type, "goal") {
            match Goal::new(object.position, tileset, id) {
                Some(g) => Some(MapObject::Goal(g)),
                None => None,
            }
        } else {
            None
        }
    }
}

} // verus!
