use vstd::prelude::*;

verus! {

/// The kinds of zone aboard the station, plus the anonymous hallways between them.
#[derive(Debug, Clone, Copy, PartialEq, Eq, Structural)]
pub enum ZoneKind {
    ResearchWing,
    CommandDeck,
    MilitaryAnnex,
    SystemsCore,
    MedicalBay,
    DockingBay,
    StationExterior,
    RelayArray,
    ExcavationSite,
    Hallway,
}


/// A compass direction of a zone's doors.
#[derive(Debug, Clone, Copy, PartialEq, Eq, Structural)]
pub enum CardinalDir {
    North,
    South,
    East,
    West,
}

impl CardinalDir {
    /// The direction facing back.
    pub open spec fn spec_opposite(self) -> CardinalDir {
        match self {
            CardinalDir::North => CardinalDir::South,
            CardinalDir::South => CardinalDir::North,
            CardinalDir::East => CardinalDir::West,
            CardinalDir::West => CardinalDir::East,
        }
    }

    /// The direction facing back.
    #[verifier::when_used_as_spec(spec_opposite)]
    pub fn opposite(self) -> (d: CardinalDir)
        ensures
            d == self.spec_opposite(),
    {
        match self {
            CardinalDir::North => CardinalDir::South,
            CardinalDir::South => CardinalDir::North,
            CardinalDir::East => CardinalDir::West,
            CardinalDir::West => CardinalDir::East,
        }
    }
}

/// The zones a zone's doors lead to, by direction.
#[derive(Debug, Clone, Copy, PartialEq, Eq, Structural)]
pub struct ZoneConnections {
    pub north: Option<ZoneKind>,
    pub south: Option<ZoneKind>,
    pub east: Option<ZoneKind>,
    pub west: Option<ZoneKind>,
}

impl ZoneConnections {
    /// Where the door in direction `d` leads.
    pub open spec fn spec_get(self, d: CardinalDir) -> Option<ZoneKind> {
        match d {
            CardinalDir::North => self.north,
            CardinalDir::South => self.south,
            CardinalDir::East => self.east,
            CardinalDir::West => self.west,
        }
    }

    /// Where the door in direction `d` leads.
    #[verifier::when_used_as_spec(spec_get)]
    pub fn get(self, d: CardinalDir) -> (z: Option<ZoneKind>)
        ensures
            z == self.spec_get(d),
    {
        match d {
            CardinalDir::North => self.north,
            CardinalDir::South => self.south,
            CardinalDir::East => self.east,
            CardinalDir::West => self.west,
        }
    }
}

/// A journey between named zones through anonymous hallways.
#[derive(Debug, Clone, Copy, PartialEq, Eq, Structural)]
pub struct TravelState {
    pub origin: ZoneKind,
    pub destination: ZoneKind,
    /// The direction of travel: hallway exits on this side lead on.
    pub travel_dir: CardinalDir,
    pub hallways_traversed: u32,
}

} // verus!
