//! What building a level from a map description yields: the checks a map
//! must pass, and the crates, goals and spawn its objects describe.
use vstd::prelude::*;
use crate::grid::Position;
use crate::map::{Layer, LayerContent, MapData, MapObjectData, Tileset};
use crate::objects::{map_object, Crate, Goal, MapObject};

verus! {

/// Why a map cannot be made into a level.
#[derive(Clone, Copy, Debug, PartialEq, Eq, Structural)]
pub enum LevelLoadError {
    /// The map has no player spawn object.
    NoPlayerSpawn,
    /// The map has no goal or no crate.
    NoGoalsOrCrates,
    /// The map is infinite, or too large to address with `i32` coordinates.
    NotFinite,
    /// The map lacks a tile layer named "building" covering the map, or one named "floor".
    InvalidLayers,
    /// The map has no object layer.
    InvalidObjectGroups,
    /// The object at this index of the object layer is not a valid spawn, crate or goal.
    InvalidObject(usize),
}

/// Element `i` is the first of `s` for which `p` holds.
pub open spec fn is_first_where<T>(s: Seq<T>, p: spec_fn(T) -> bool, i: int) -> bool {
    &&& 0 <= i < s.len()
    &&& p(s[i])
    &&& forall|j: int| 0 <= j < i ==> !p(#[trigger] s[j])
}

/// The index of the first element of `s` for which `p` holds, if any.
pub open spec fn first_where<T>(s: Seq<T>, p: spec_fn(T) -> bool) -> Option<int> {
    if exists|i: int| is_first_where(s, p, i) {
        Some(choose|i: int| is_first_where(s, p, i))
    } else {
        None
    }
}

pub proof fn lemma_first_where_is<T>(s: Seq<T>, p: spec_fn(T) -> bool, i: int)
    requires
        is_first_where(s, p, i),
    ensures
        first_where(s, p) == Some(i),
{
    let k = choose|k: int| is_first_where(s, p, k);
    assert(is_first_where(s, p, k));
    if k < i {
        assert(!p(s[k]));
    } else if i < k {
        assert(!p(s[i]));
    }
}

pub proof fn lemma_first_where_none<T>(s: Seq<T>, p: spec_fn(T) -> bool)
    requires
        forall|j: int| 0 <= j < s.len() ==> !p(#[trigger] s[j]),
    ensures
        first_where(s, p) is None,
{
}

/// The layer is called `name`.
pub open spec fn named(name: Seq<char>) -> spec_fn(Layer) -> bool {
    |l: Layer| l.name@ == name
}

/// The layer holds objects.
pub open spec fn holds_objects() -> spec_fn(Layer) -> bool {
    |l: Layer| l.content is Objects
}

/// The tiles of the first layer called `name`, where it is a tile layer.
pub open spec fn tile_layer(layers: Seq<Layer>, name: Seq<char>) -> Option<Seq<Option<u32>>> {
    match first_where(layers, named(name)) {
        Some(i) => match layers[i].content {
            LayerContent::Tiles(v) => Some(v@),
            _ => None,
        },
        None => None,
    }
}

/// The objects of the first object layer.
pub open spec fn object_layer(layers: Seq<Layer>) -> Option<Seq<MapObjectData>> {
    match first_where(layers, holds_objects()) {
        Some(i) => match layers[i].content {
            LayerContent::Objects(v) => Some(v@),
            _ => None,
        },
        None => None,
    }
}

/// The crates, the goals and the last spawn position that the objects
/// describe, in order; or the index of the first invalid object.
pub open spec fn parse_objects(tileset: Tileset, objects: Seq<MapObjectData>) -> Result<
    (Seq<Crate>, Seq<Goal>, Option<Position>),
    int,
>
    decreases objects.len(),
{
    if objects.len() == 0 {
        Ok((Seq::empty(), Seq::empty(), None))
    } else {
        match parse_objects(tileset, objects.drop_last()) {
            Err(k) => Err(k),
            Ok((crates, goals, spawn)) => match map_object(tileset, objects.last()) {
                None => Err(objects.len() - 1),
                Some(MapObject::Spawn { position }) => Ok((crates, goals, Some(position))),
                Some(MapObject::Crate(c)) => Ok((crates.push(c), goals, spawn)),
                Some(MapObject::Goal(g)) => Ok((crates, goals.push(g), spawn)),
            },
        }
    }
}

/// Once a prefix of the objects holds an invalid one, so do all the objects.
pub proof fn lemma_parse_error_prefix(tileset: Tileset, objects: Seq<MapObjectData>, n: int)
    requires
        0 <= n <= objects.len(),
        parse_objects(tileset, objects.take(n)) is Err,
    ensures
        parse_objects(tileset, objects) == parse_objects(tileset, objects.take(n)),
    decreases objects.len() - n,
{
    if n < objects.len() {
        assert(objects.take(n + 1).drop_last() == objects.take(n));
        lemma_parse_error_prefix(tileset, objects, n + 1);
    } else {
        assert(objects.take(n) == objects);
    }
}

/// The building tiles of a map.
pub open spec fn building_tiles(map: MapData) -> Seq<Option<u32>> {
    tile_layer(map.layers@, "building"@).unwrap()
}

/// The objects of a map.
pub open spec fn map_objects(map: MapData) -> Seq<MapObjectData> {
    object_layer(map.layers@).unwrap()
}

/// What is wrong with a map, checked in this order, or `None` where a level can be built from it.
pub open spec fn map_error(map: MapData) -> Option<LevelLoadError> {
    if map.infinite || map.size.width > i32::MAX || map.size.height > i32::MAX {
        Some(LevelLoadError::NotFinite)
    } else if tile_layer(map.layers@, "building"@) is None || tile_layer(map.layers@, "floor"@) is None
        || building_tiles(map).len() != map.size.width * map.size.height {
        Some(LevelLoadError::InvalidLayers)
    } else if object_layer(map.layers@) is None {
        Some(LevelLoadError::InvalidObjectGroups)
    } else {
        match parse_objects(map.tileset, map_objects(map)) {
            Err(k) => Some(LevelLoadError::InvalidObject(k as usize)),
            Ok((crates, goals, spawn)) => if goals.len() == 0 || crates.len() == 0 {
                Some(LevelLoadError::NoGoalsOrCrates)
            } else if spawn is None {
                Some(LevelLoadError::NoPlayerSpawn)
            } else {
                None
            },
        }
    }
}

} // verus!
