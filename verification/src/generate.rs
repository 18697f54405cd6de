//! Buildings from a room layout: the building is planned as rectangular rooms per story;
//! the kinds of those rooms decide doors, windows and open plans, and a report says what
//! was built.

use vstd::prelude::*;

verus! {

/// What a room is for: sets its doors, windows and whether it opens into its neighbours.
#[derive(Debug, Clone, Copy, PartialEq, Eq, Structural, Hash)]
pub enum RoomKind {
    Living,
    Dining,
    Kitchen,
    Bedroom,
    Bathroom,
    Closet,
    Laundry,
    Garage,
    Corridor,
    Stair,
    Entry,
    Lobby,
    Office,
    Unit,
    GuestRoom,
    Retail,
    Amenity,
    Mechanical,
    Storage,
    Other,
}

/// How an outside wall of a room is glazed.
#[derive(Debug, Clone, Copy, PartialEq, Eq, Structural)]
pub enum Glazing {
    Punched,
    Large,
    Storefront,
}

impl RoomKind {
    /// Circulation: doors route through these.
    pub open spec fn is_circulation(self) -> bool {
        self is Corridor || self is Entry || self is Lobby || self is Living || self is Stair
    }

    /// Dead ends: a door in, never through.
    pub open spec fn is_leaf(self) -> bool {
        self is Bathroom || self is Closet || self is Laundry || self is Mechanical || self is Storage
            || self is Garage
    }

    /// Open plan: no wall between two of these.
    pub open spec fn is_open(self) -> bool {
        self is Living || self is Dining || self is Kitchen || self is Entry
    }

    /// The windows the room gets on outside walls.
    pub open spec fn glazing(self) -> Option<Glazing> {
        match self {
            RoomKind::Bedroom | RoomKind::Kitchen | RoomKind::Office | RoomKind::GuestRoom => Some(Glazing::Punched),
            RoomKind::Living | RoomKind::Dining | RoomKind::Unit | RoomKind::Amenity => Some(Glazing::Large),
            RoomKind::Lobby | RoomKind::Retail => Some(Glazing::Storefront),
            _ => None,
        }
    }

    /// Circulation: doors route through these.
    pub fn circulation(self) -> (r: bool)
        ensures
            r == self.is_circulation(),
    {
        match self {
            RoomKind::Corridor | RoomKind::Entry | RoomKind::Lobby | RoomKind::Living | RoomKind::Stair => true,
            _ => false,
        }
    }

    /// Dead ends: a door in, never through.
    pub fn leaf(self) -> (r: bool)
        ensures
            r == self.is_leaf(),
    {
        match self {
            RoomKind::Bathroom | RoomKind::Closet | RoomKind::Laundry | RoomKind::Mechanical
            | RoomKind::Storage | RoomKind::Garage => true,
            _ => false,
        }
    }

    /// Open plan: no wall between two of these.
    pub fn open(self) -> (r: bool)
        ensures
            r == self.is_open(),
    {
        match self {
            RoomKind::Living | RoomKind::Dining | RoomKind::Kitchen | RoomKind::Entry => true,
            _ => false,
        }
    }

    /// The windows the room gets on outside walls.
    pub fn windows(self) -> (r: Option<Glazing>)
        ensures
            r == self.glazing(),
    {
        match self {
            RoomKind::Bedroom | RoomKind::Kitchen | RoomKind::Office | RoomKind::GuestRoom => Some(Glazing::Punched),
            RoomKind::Living | RoomKind::Dining | RoomKind::Unit | RoomKind::Amenity => Some(Glazing::Large),
            RoomKind::Lobby | RoomKind::Retail => Some(Glazing::Storefront),
            _ => None,
        }
    }
}

/// No room is both a route for doors and a dead end.
pub proof fn lemma_dead_ends_are_not_routes(k: RoomKind)
    ensures
        !(k.is_leaf() && k.is_circulation()),
{
}

/// The shape of a generated building's roof.
#[derive(Debug, Clone, Copy, PartialEq, Eq, Structural)]
pub enum RoofKind {
    Hip,
    Gable,
    Flat,
}

impl Default for RoofKind {
    fn default() -> (r: RoofKind)
        ensures
            r == RoofKind::Hip,
    {
        RoofKind::Hip
    }
}

/// How a generated building is framed.
#[derive(Debug, Clone, Copy, PartialEq, Eq, Structural)]
pub enum Structure {
    /// Wood studs and joists (houses, walk-ups, podium upper floors).
    Wood,
    /// Masonry walls and concrete slabs.
    Masonry,
}

impl Default for Structure {
    fn default() -> (r: Structure)
        ensures
            r == Structure::Wood,
    {
        Structure::Wood
    }
}

/// Library preset ids for the building's main surfaces.
#[derive(Debug)]
pub struct MaterialSpec {
    pub exterior_walls: Option<String>,
    pub interior_walls: Option<String>,
    pub floors: Option<String>,
    pub roof: Option<String>,
}

impl Default for MaterialSpec {
    fn default() -> (m: MaterialSpec)
        ensures
            m.exterior_walls is None,
            m.interior_walls is None,
            m.floors is None,
            m.roof is None,
    {
        MaterialSpec { exterior_walls: None, interior_walls: None, floors: None, roof: None }
    }
}

/// What was built.
#[derive(Debug)]
pub struct BuildReport {
    pub name: String,
    pub levels: usize,
    pub walls: usize,
    pub doors: usize,
    pub windows: usize,
    pub floors: usize,
    pub rooms: usize,
    pub stairs: usize,
    pub roofs: usize,
    pub materials: usize,
    pub warnings: Vec<String>,
}

impl Default for BuildReport {
    fn default() -> (r: BuildReport)
        ensures
            r.name@.len() == 0,
            r.levels == 0 && r.walls == 0 && r.doors == 0 && r.windows == 0 && r.floors == 0,
            r.rooms == 0 && r.stairs == 0 && r.roofs == 0 && r.materials == 0,
            r.warnings@.len() == 0,
    {
        BuildReport {
            name: String::new(),
            levels: 0,
            walls: 0,
            doors: 0,
            windows: 0,
            floors: 0,
            rooms: 0,
            stairs: 0,
            roofs: 0,
            materials: 0,
            warnings: Vec::new(),
        }
    }
}

} // verus!
