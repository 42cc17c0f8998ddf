//! A plain description of a level map: its size, its named layers, the
//! objects placed on it and the tile definitions of its tileset. A map
//! loader fills it in; the level is built from it.
use vstd::prelude::*;
use crate::grid::Position;
use crate::tilemap::Extent;

verus! {

/// The value of a custom property of a tile.
#[derive(Clone, Copy, Debug, PartialEq, Eq, Structural)]
pub enum PropertyValue {
    IntValue(i32),
    /// Any value that is not an integer.
    Other,
}

/// A named custom property of a tile.
pub struct Property {
    pub name: String,
    pub value: PropertyValue,
}

/// The definition of a tile of the tileset: its declared type and its
/// properties. A map file names each property of a tile once; where a name
/// repeats, the first property of that name is the one read.
pub struct TileDef {
    pub user_type: Option<String>,
    pub properties: Vec<Property>,
}

/// The tile definitions of a tileset, indexed by local tile id.
pub struct Tileset {
    pub tiles: Vec<TileDef>,
}

/// An object placed on the map, at a grid cell, drawn with a tile of the tileset.
#[derive(Clone, Copy, Debug, PartialEq, Eq, Structural)]
pub struct MapObjectData {
    pub position: Position,
    pub tile: Option<u32>,
}

/// What a layer holds.
pub enum LayerContent {
    /// Tile ids in row-major order, `None` where the cell has no tile.
    Tiles(Vec<Option<u32>>),
    Objects(Vec<MapObjectData>),
    /// Any other kind of layer (images, groups).
    Other,
}

pub struct Layer {
    pub name: String,
    pub content: LayerContent,
}

/// An RGB color.
#[derive(Clone, Copy, Debug, PartialEq, Eq, Structural)]
pub struct Color {
    pub r: u8,
    pub g: u8,
    pub b: u8,
}

/// A whole map, as read from a map file.
pub struct MapData {
    pub infinite: bool,
    pub size: Extent,
    pub layers: Vec<Layer>,
    pub tileset: Tileset,
    pub background_color: Option<Color>,
}

/// Whether an optional text holds exactly `name`.
pub open spec fn text_is(t: Option<String>, name: Seq<char>) -> bool {
    match t {
        Some(s) => s@ == name,
        None => false,
    }
}

/// The index of the first property called `name`, if any.
pub open spec fn first_property(props: Seq<Property>, name: Seq<char>) -> Option<int>
    decreases props.len(),
{
    if props.len() == 0 {
        None
    } else if props.last().name@ == name {
        match first_property(props.drop_last(), name) {
            Some(i) => Some(i),
            None => Some(props.len() - 1),
        }
    } else {
        first_property(props.drop_last(), name)
    }
}

/// Exact comparison of a `String` with a text.
pub fn string_is(s: &String, name: &str) -> (r: bool)
    ensures
        r == (s@ == name@),
{
    let t: String = name.to_owned();
    s.eq(&t)
}

/// Whether an optional text holds exactly `name`.
pub fn opt_string_is(t: &Option<String>, name: &str) -> (r: bool)
    ensures
        r == text_is(*t, name@),
{
    match t {
        Some(s) => string_is(s, name),
        None => false,
    }
}

impl TileDef {
    /// The value of the property called `name`, if the tile has one.
    pub open spec fn property(self, name: Seq<char>) -> Option<PropertyValue> {
        match first_property(self.properties@, name) {
            Some(i) => Some(self.properties@[i].value),
            None => None,
        }
    }

    /// The value of the property called `name`, if the tile has one.
    pub fn get_property(&self, name: &str) -> (r: Option<PropertyValue>)
        ensures
            r == self.property(name@),
    {
        let mut i: usize = 0;
        while i < self.properties.len()
            invariant
                i <= self.properties@.len(),
                first_property(self.properties@.take(i as int), name@) is None,
            decreases self.properties@.len() - i,
        {
            let found = string_is(&self.properties[i].name, name);
            proof {
                let next = self.properties@.take(i + 1);
                assert(next.drop_last() == self.properties@.take(i as int));
                assert(next.last() == self.properties@[i as int]);
            }
            if found {
                proof {
                    lemma_first_property_prefix(self.properties@, name@, i + 1);
                }
                return Some(self.properties[i].value);
            }
            i = i + 1;
        }
        proof {
            assert(self.properties@.take(i as int) == self.properties@);
        }
        None
    }
}

/// Where the first match lies in a prefix, it is the first match of the whole sequence.
proof fn lemma_first_property_prefix(props: Seq<Property>, name: Seq<char>, n: int)
    requires
        0 <= n <= props.len(),
        first_property(props.take(n), name) is Some,
    ensures
        first_property(props, name) == first_property(props.take(n), name),
    decreases props.len() - n,
{
    if n < props.len() {
        let next = props.take(n + 1);
        assert(next.drop_last() == props.take(n));
        assert(first_property(next, name) == first_property(props.take(n), name));
        lemma_first_property_prefix(props, name, n + 1);
    } else {
        assert(props.take(n) == props);
    }
}

impl Tileset {
    /// The definition of the tile with local id `id`, if the tileset has one.
    pub open spec fn def(self, id: u32) -> Option<TileDef> {
        if id < self.tiles@.len() {
            Some(self.tiles@[id as int])
        } else {
            None
        }
    }

    /// The definition of the tile with local id `id`, if the tileset has one.
    pub fn get_tile(&self, id: u32) -> (r: Option<&TileDef>)
        ensures
            match r {
                Some(d) => self.def(id) == Some(*d),
                None => self.def(id) is None,
            },
    {
        if (id as usize) < self.tiles.len() {
            Some(&self.tiles[id as usize])
        } else {
            None
        }
    }
}

} // verus!
