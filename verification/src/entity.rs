//! Entities and their components.
//!
//! An entity is identified by an [`EntityId`] and owns a set of components.
//! [`Component`] is a closed tagged union of every capability a simulation
//! entity can carry; [`ComponentType`] is its discriminant, used as the
//! lookup key, so an entity holds at most one component of each kind.

use vstd::prelude::*;

verus! {

/// Opaque, totally ordered entity identity. Never reused while referenced.
pub type EntityId = u64;

/// Identity of a level (one grid of the world).
pub type LevelId = u64;

/// A position on the level grid.
#[derive(Clone, Copy, Debug, PartialEq, Eq, Structural)]
pub struct Vector2 {
    pub x: isize,
    pub y: isize,
}

impl Vector2 {
    pub fn new(x: isize, y: isize) -> (r: Self)
        ensures
            r == (Vector2 { x, y }),
    {
        Vector2 { x, y }
    }

    pub fn from_tuple(coord: (isize, isize)) -> (r: Self)
        ensures
            r == (Vector2 { x: coord.0, y: coord.1 }),
    {
        Vector2 { x: coord.0, y: coord.1 }
    }

    pub fn to_tuple(self) -> (r: (isize, isize))
        ensures
            r == (self.x, self.y),
    {
        (self.x, self.y)
    }
}

/// One of the eight grid directions.
#[derive(Clone, Copy, Debug, PartialEq, Eq, Structural)]
pub enum Direction {
    North,
    South,
    East,
    West,
    NorthEast,
    NorthWest,
    SouthEast,
    SouthWest,
}

/// Whether a door lets movement and light through.
#[derive(Clone, Copy, Debug, PartialEq, Eq, Structural)]
pub enum DoorState {
    Open,
    Closed,
}

/// The bodily form an entity can take.
#[derive(Clone, Copy, Debug, PartialEq, Eq, Structural)]
pub enum Form {
    Human,
    Beast,
}

/// A counter ticking down towards a transformation.
#[derive(Clone, Copy, Debug, PartialEq, Eq, Structural)]
pub struct StatusCounter {
    pub value: i64,
}

/// The discriminant of a [`Component`]: which capability a value is.
#[derive(Clone, Copy, Debug, PartialEq, Eq, Structural)]
pub enum ComponentType {
    NullComponent,
    Position,
    Solid,
    Collider,
    DestroyOnCollision,
    Tile,
    TileDepth,
    PlayerActor,
    OnLevel,
    Door,
    DoorOpener,
    Opacity,
    VisionDistance,
    DrawableKnowledge,
    Bullet,
    AxisVelocity,
    BeastTransform,
    HumanTransform,
    FormSlot,
    Outside,
    Moon,
}

/// One typed piece of data attached to an entity. Flag capabilities carry
/// nothing; the rest carry exactly their payload.
///
/// Opacity is a light-blocking scalar in thousandths (so `500` blocks half
/// the light); keeping it integral keeps per-cell opacity sums exact. Tiles
/// and drawable knowledge are carried as handles into the presentation
/// layer's stores, which this core never reads.
#[derive(Clone, Copy, Debug, PartialEq, Eq, Structural)]
pub enum Component {
    NullComponent,
    Position(Vector2),
    Solid,
    Collider,
    DestroyOnCollision,
    Tile(u64),
    TileDepth(isize),
    PlayerActor,
    OnLevel(LevelId),
    Door(DoorState),
    DoorOpener,
    Opacity(u32),
    VisionDistance(usize),
    DrawableKnowledge(u64),
    Bullet,
    AxisVelocity { direction: Direction, speed: u64 },
    BeastTransform(StatusCounter),
    HumanTransform(StatusCounter),
    FormSlot(Form),
    Outside,
    Moon,
}

impl Component {
    /// The discriminant of a component: a pure, total function of the value.
    pub open spec fn spec_to_type(&self) -> ComponentType {
        match self {
            Component::NullComponent => ComponentType::NullComponent,
            Component::Position(_) => ComponentType::Position,
            Component::Solid => ComponentType::Solid,
            Component::Collider => ComponentType::Collider,
            Component::DestroyOnCollision => ComponentType::DestroyOnCollision,
            Component::Tile(_) => ComponentType::Tile,
            Component::TileDepth(_) => ComponentType::TileDepth,
            Component::PlayerActor => ComponentType::PlayerActor,
            Component::OnLevel(_) => ComponentType::OnLevel,
            Component::Door(_) => ComponentType::Door,
            Component::DoorOpener => ComponentType::DoorOpener,
            Component::Opacity(_) => ComponentType::Opacity,
            Component::VisionDistance(_) => ComponentType::VisionDistance,
            Component::DrawableKnowledge(_) => ComponentType::DrawableKnowledge,
            Component::Bullet => ComponentType::Bullet,
            Component::AxisVelocity { .. } => ComponentType::AxisVelocity,
            Component::BeastTransform(_) => ComponentType::BeastTransform,
            Component::HumanTransform(_) => ComponentType::HumanTransform,
            Component::FormSlot(_) => ComponentType::FormSlot,
            Component::Outside => ComponentType::Outside,
            Component::Moon => ComponentType::Moon,
        }
    }

    #[verifier::when_used_as_spec(spec_to_type)]
    pub fn to_type(&self) -> (r: ComponentType)
        ensures
            r == self.spec_to_type(),
    {
        match self {
            Component::NullComponent => ComponentType::NullComponent,
            Component::Position(_) => ComponentType::Position,
            Component::Solid => ComponentType::Solid,
            Component::Collider => ComponentType::Collider,
            Component::DestroyOnCollision => ComponentType::DestroyOnCollision,
            Component::Tile(_) => ComponentType::Tile,
            Component::TileDepth(_) => ComponentType::TileDepth,
            Component::PlayerActor => ComponentType::PlayerActor,
            Component::OnLevel(_) => ComponentType::OnLevel,
            Component::Door(_) => ComponentType::Door,
            Component::DoorOpener => ComponentType::DoorOpener,
            Component::Opacity(_) => ComponentType::Opacity,
            Component::VisionDistance(_) => ComponentType::VisionDistance,
            Component::DrawableKnowledge(_) => ComponentType::DrawableKnowledge,
            Component::Bullet => ComponentType::Bullet,
            Component::AxisVelocity { .. } => ComponentType::AxisVelocity,
            Component::BeastTransform(_) => ComponentType::BeastTransform,
            Component::HumanTransform(_) => ComponentType::HumanTransform,
            Component::FormSlot(_) => ComponentType::FormSlot,
            Component::Outside => ComponentType::Outside,
            Component::Moon => ComponentType::Moon,
        }
    }

    /// The position payload, if this is a position component.
    pub open spec fn spec_as_position(&self) -> Option<Vector2> {
        match *self {
            Component::Position(v) => Some(v),
            _ => None,
        }
    }

    #[verifier::when_used_as_spec(spec_as_position)]
    pub fn as_position(&self) -> (r: Option<Vector2>)
        ensures
            r == self.spec_as_position(),
    {
        match self {
            Component::Position(v) => Some(*v),
            _ => None,
        }
    }

    /// The opacity contribution of a component: its payload if it is an
    /// opacity component, and zero otherwise.
    pub open spec fn spec_opacity_value(&self) -> u32 {
        match *self {
            Component::Opacity(o) => o,
            _ => 0u32,
        }
    }

    #[verifier::when_used_as_spec(spec_opacity_value)]
    pub fn opacity_value(&self) -> (r: u32)
        ensures
            r == self.spec_opacity_value(),
    {
        match self {
            Component::Opacity(o) => *o,
            _ => 0u32,
        }
    }
}

} // verus!
