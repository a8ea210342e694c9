//! Types shared by the client and the server: identifiers, directions,
//! map layers, tiles and the small helpers that go with them.
use vstd::prelude::*;

verus! {

/// Edge length of a map tile, in pixels.
pub const TILE_SIZE: i32 = 48;

/// Edge length of a character sprite, in pixels.
pub const SPRITE_SIZE: i32 = 48;

/// A point on an integer grid.
#[derive(Clone, Copy, Debug, PartialEq, Eq, Structural)]
pub struct Point2 {
    pub x: i32,
    pub y: i32,
}

/// An offset on an integer grid.
#[derive(Clone, Copy, Debug, PartialEq, Eq, Structural)]
pub struct Vector2 {
    pub x: i32,
    pub y: i32,
}

/// Builds a point from its coordinates.
pub fn point2(x: i32, y: i32) -> (p: Point2)
    ensures
        p == (Point2 { x, y }),
{
    Point2 { x, y }
}

/// Builds a vector from its coordinates.
pub fn vector2(x: i32, y: i32) -> (v: Vector2)
    ensures
        v == (Vector2 { x, y }),
{
    Vector2 { x, y }
}

/// How a tile cycles through the frames laid out to the right of its texture.
#[derive(Clone, Copy, Debug, PartialEq, Eq, Structural)]
pub struct TileAnimation {
    /// Number of distinct frames.
    pub frames: u16,
    /// Length of one cycle in seconds, kept as the bit pattern of an `f64`:
    /// the library only carries it, the renderer reads it.
    pub duration_bits: u64,
    /// Plays the frames forward and then backward (1-2-3-2-1...).
    pub bouncy: bool,
}

impl TileAnimation {
    /// Number of frames shown in one cycle.
    pub open spec fn spec_total_frames(self) -> int {
        if self.bouncy {
            2 * self.frames - 1
        } else {
            self.frames as int
        }
    }

    /// Number of frames shown in one cycle: a bouncy animation shows every
    /// frame but the last twice.
    pub fn total_frames(&self) -> (n: u16)
        requires
            self.bouncy ==> 1 <= self.frames <= 32767,
        ensures
            n == self.spec_total_frames(),
    {
        if self.bouncy {
            self.frames * 2 - 1
        } else {
            self.frames
        }
    }
}

/// Number of steps in one back-and-forth pass over `frames` frames.
pub fn ping_pong_steps(frames: u16) -> (steps: u16)
    requires
        1 <= frames <= 32767,
    ensures
        steps == 2 * frames - 2,
{
    frames * 2 - 2
}

/// The frame shown at `step` of a back-and-forth pass over `frames`
/// frames: up to the last frame, then back down.
pub fn ping_pong(step: u16, frames: u16) -> (frame: u16)
    requires
        1 <= frames <= 32767,
        step <= 2 * frames - 2,
    ensures
        frame == (if step >= frames { 2 * frames - 2 - step } else { step as int }),
        frame < frames,
{
    let steps = ping_pong_steps(frames);
    if step >= frames {
        steps - step
    } else {
        step
    }
}

/// A tile placed on a map layer.
#[derive(Clone, Copy, Debug, PartialEq, Eq, Structural)]
pub struct Tile {
    /// Position of the tile in the tileset, in tiles.
    pub texture: Point2,
    /// Drawn from four quarter tiles chosen by its neighbours.
    pub autotile: bool,
    pub animation: Option<TileAnimation>,
}

/// The layers of a map, from the ground up.
#[derive(Clone, Copy, Debug, PartialEq, Eq, Structural)]
pub enum MapLayer {
    Ground,
    Mask,
    Mask2,
    Fringe,
    Fringe2,
}

/// Number of map layers.
pub const LAYER_COUNT: usize = 5;

impl MapLayer {
    pub open spec fn spec_index(self) -> int {
        match self {
            MapLayer::Ground => 0,
            MapLayer::Mask => 1,
            MapLayer::Mask2 => 2,
            MapLayer::Fringe => 3,
            MapLayer::Fringe2 => 4,
        }
    }

    /// The layer at position `i` in drawing order, for `i < 5`.
    pub open spec fn spec_from_index(i: int) -> MapLayer {
        if i == 0 {
            MapLayer::Ground
        } else if i == 1 {
            MapLayer::Mask
        } else if i == 2 {
            MapLayer::Mask2
        } else if i == 3 {
            MapLayer::Fringe
        } else {
            MapLayer::Fringe2
        }
    }

    /// Position of the layer in drawing order.
    pub fn index(&self) -> (i: usize)
        ensures
            i == self.spec_index(),
            i < LAYER_COUNT,
    {
        match self {
            MapLayer::Ground => 0,
            MapLayer::Mask => 1,
            MapLayer::Mask2 => 2,
            MapLayer::Fringe => 3,
            MapLayer::Fringe2 => 4,
        }
    }

    /// The layer at a position in drawing order.
    pub fn from_index(i: usize) -> (layer: MapLayer)
        requires
            i < LAYER_COUNT,
        ensures
            layer == MapLayer::spec_from_index(i as int),
            layer.spec_index() == i,
    {
        if i == 0 {
            MapLayer::Ground
        } else if i == 1 {
            MapLayer::Mask
        } else if i == 2 {
            MapLayer::Mask2
        } else if i == 3 {
            MapLayer::Fringe
        } else {
            MapLayer::Fringe2
        }
    }

    /// The layer's name as the map editor shows it.
    pub open spec fn spec_label(self) -> Seq<char> {
        match self {
            MapLayer::Ground => "Ground"@,
            MapLayer::Mask => "Mask"@,
            MapLayer::Mask2 => "Mask 2"@,
            MapLayer::Fringe => "Fringe"@,
            MapLayer::Fringe2 => "Fringe 2"@,
        }
    }

    /// The layer's name as the map editor shows it.
    pub fn label(&self) -> (s: String)
        ensures
            s@ == self.spec_label(),
    {
        proof {
            reveal_strlit("Ground");
            reveal_strlit("Mask");
            reveal_strlit("Mask 2");
            reveal_strlit("Fringe");
            reveal_strlit("Fringe 2");
        }
        match self {
            MapLayer::Ground => "Ground".to_owned(),
            MapLayer::Mask => "Mask".to_owned(),
            MapLayer::Mask2 => "Mask 2".to_owned(),
            MapLayer::Fringe => "Fringe".to_owned(),
            MapLayer::Fringe2 => "Fringe 2".to_owned(),
        }
    }

    /// Every layer, from the ground up.
    pub fn all() -> (v: Vec<MapLayer>)
        ensures
            v@.len() == LAYER_COUNT,
            forall|i: int| 0 <= i < LAYER_COUNT ==> (#[trigger] v@[i]).spec_index() == i,
    {
        let v = vec![MapLayer::Ground, MapLayer::Mask, MapLayer::Mask2, MapLayer::Fringe, MapLayer::Fringe2];
        v
    }
}

/// Every layer has its own place in drawing order.
pub proof fn law_layer_index_round_trip(layer: MapLayer)
    ensures
        0 <= layer.spec_index() < LAYER_COUNT,
        MapLayer::spec_from_index(layer.spec_index()) == layer,
{
}

/// Identifies a connected client for as long as it stays connected.
#[derive(Clone, Copy, Debug, PartialEq, Eq, Hash, Structural)]
pub struct ClientId(pub u64);

impl From<u64> for ClientId {
    fn from(id: u64) -> (r: ClientId) {
        ClientId(id)
    }
}

impl vstd::std_specs::convert::FromSpecImpl<u64> for ClientId {
    open spec fn obeys_from_spec() -> bool {
        true
    }

    open spec fn from_spec(id: u64) -> ClientId {
        ClientId(id)
    }
}

/// Identifies a map.
#[derive(Clone, Copy, Debug, PartialEq, Eq, Hash, Structural)]
pub struct MapId(pub u64);

impl From<u64> for MapId {
    fn from(id: u64) -> (r: MapId) {
        MapId(id)
    }
}

impl vstd::std_specs::convert::FromSpecImpl<u64> for MapId {
    open spec fn obeys_from_spec() -> bool {
        true
    }

    open spec fn from_spec(id: u64) -> MapId {
        MapId(id)
    }
}

impl Default for MapId {
    fn default() -> (r: MapId)
        ensures
            r == MapId(0),
    {
        MapId(0)
    }
}

impl MapId {
    /// The map that always exists, where new characters start.
    pub fn start() -> (id: MapId)
        ensures
            id == MapId(0),
    {
        MapId(0)
    }
}

/// The four directions a character can face or walk in.
#[derive(Clone, Copy, Debug, PartialEq, Eq, Structural)]
pub enum Direction {
    South,
    West,
    East,
    North,
}

impl Direction {
    pub open spec fn spec_reverse(self) -> Direction {
        match self {
            Direction::South => Direction::North,
            Direction::West => Direction::East,
            Direction::East => Direction::West,
            Direction::North => Direction::South,
        }
    }

    /// One step in this direction on the map grid, where y grows southward.
    pub open spec fn spec_offset(self) -> (int, int) {
        match self {
            Direction::South => (0, 1),
            Direction::West => (-1, 0),
            Direction::East => (1, 0),
            Direction::North => (0, -1),
        }
    }

    /// The opposite direction.
    pub fn reverse(&self) -> (d: Direction)
        ensures
            d == self.spec_reverse(),
    {
        match self {
            Direction::South => Direction::North,
            Direction::West => Direction::East,
            Direction::East => Direction::West,
            Direction::North => Direction::South,
        }
    }

    /// One step in this direction on the map grid, where y grows southward.
    pub fn offset_i32(&self) -> (v: Vector2)
        ensures
            v.x == self.spec_offset().0,
            v.y == self.spec_offset().1,
    {
        match self {
            Direction::South => Vector2 { x: 0, y: 1 },
            Direction::West => Vector2 { x: -1, y: 0 },
            Direction::East => Vector2 { x: 1, y: 0 },
            Direction::North => Vector2 { x: 0, y: -1 },
        }
    }

    /// The row of a character sheet that shows a character facing this way.
    pub fn sprite_row(&self) -> (r: u32)
        ensures
            r == (match self {
                Direction::South => 0u32,
                Direction::West => 1u32,
                Direction::East => 2u32,
                Direction::North => 3u32,
            }),
    {
        match self {
            Direction::South => 0,
            Direction::West => 1,
            Direction::East => 2,
            Direction::North => 3,
        }
    }

    /// The direction's name, as shown to players.
    pub fn name(&self) -> (s: &'static str)
        ensures
            s@ == (match self {
                Direction::South => "South"@,
                Direction::West => "West"@,
                Direction::East => "East"@,
                Direction::North => "North"@,
            }),
    {
        match self {
            Direction::South => "South",
            Direction::West => "West",
            Direction::East => "East",
            Direction::North => "North",
        }
    }
}

/// Turning around twice faces the original direction, and the step of the
/// reversed direction undoes the step of the direction.
pub proof fn law_reverse_involution(d: Direction)
    ensures
        d.spec_reverse().spec_reverse() == d,
        d.spec_reverse() != d,
        d.spec_reverse().spec_offset().0 == -d.spec_offset().0,
        d.spec_reverse().spec_offset().1 == -d.spec_offset().1,
{
}

/// Why the server refused to let a client into the game.
#[derive(Clone, Copy, Debug, PartialEq, Eq, Structural)]
pub enum FailJoinReason {
    UsernameTaken,
    CharacterNameTaken,
    LoginIncorrect,
}

impl FailJoinReason {
    /// The explanation shown to the player.
    pub fn message(&self) -> (s: String)
        ensures
            s@ == (match self {
                FailJoinReason::UsernameTaken => "username is taken"@,
                FailJoinReason::CharacterNameTaken => "character name is taken"@,
                FailJoinReason::LoginIncorrect => "username/password is incorrect"@,
            }),
    {
        match self {
            FailJoinReason::UsernameTaken => "username is taken".to_owned(),
            FailJoinReason::CharacterNameTaken => "character name is taken".to_owned(),
            FailJoinReason::LoginIncorrect => "username/password is incorrect".to_owned(),
        }
    }
}

/// Where a chat line comes from or goes to.
#[derive(Clone, Copy, Debug, PartialEq, Eq, Structural)]
pub enum ChatChannel {
    /// Shown only to the player who produced it.
    Echo,
    /// An error shown only to the player concerned.
    Error,
    /// An announcement from the server, to everybody.
    Server,
    /// Said aloud, heard on the same map.
    Say,
    /// Heard by everybody.
    Global,
}

/// A line of chat as the server sends it.
#[derive(Clone, Debug, PartialEq, Eq)]
pub enum ChatMessage {
    Server(String),
    Say(String),
}

/// Where a client stands with its server connection.
#[derive(Clone, Copy, Debug, PartialEq, Eq, Structural)]
pub enum NetworkStatus {
    NotConnected,
    Connecting,
    Connected,
    Disconnected,
}

/// The maps reached by walking off each edge of a map.
#[derive(Clone, Debug, PartialEq, Eq)]
pub struct BoundryWarps {
    pub north: Option<MapId>,
    pub east: Option<MapId>,
    pub south: Option<MapId>,
    pub west: Option<MapId>,
}

impl Default for BoundryWarps {
    fn default() -> (w: BoundryWarps)
        ensures
            w.north is None,
            w.east is None,
            w.south is None,
            w.west is None,
    {
        BoundryWarps { north: None, east: None, south: None, west: None }
    }
}

impl BoundryWarps {
    /// The map reached by walking off the edge in direction `d`.
    pub fn toward(&self, d: Direction) -> (m: Option<MapId>)
        ensures
            m == (match d {
                Direction::North => self.north,
                Direction::East => self.east,
                Direction::South => self.south,
                Direction::West => self.west,
            }),
    {
        match d {
            Direction::North => self.north,
            Direction::East => self.east,
            Direction::South => self.south,
            Direction::West => self.west,
        }
    }
}

/// Properties of a map that are not tiles.
#[derive(Clone, Debug, PartialEq, Eq)]
pub struct MapSettings {
    pub name: String,
    pub tileset: String,
    pub music: Option<String>,
    pub warps: BoundryWarps,
    pub revision: u32,
}

impl Default for MapSettings {
    fn default() -> (s: MapSettings)
        ensures
            s.name@ == Seq::<char>::empty(),
            s.tileset@ == "default.png"@,
            s.music is None,
            s.warps.north is None,
            s.warps.east is None,
            s.warps.south is None,
            s.warps.west is None,
            s.revision == 0,
    {
        MapSettings {
            name: String::new(),
            tileset: "default.png".to_owned(),
            music: None,
            warps: BoundryWarps::default(),
            revision: 0,
        }
    }
}

} // verus!
