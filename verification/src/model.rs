//! Entity model: the components that make up a ball.

use vstd::prelude::*;

verus! {

/// Identity of a ball, the key under which every peer files what it knows
/// about that ball. The server hands identities out; a client only ever
/// learns them from messages.
#[derive(Clone, Copy, Debug, PartialEq, Eq, Hash, Structural)]
pub struct BallId(pub u32);

impl Default for BallId {
    fn default() -> (r: Self)
        ensures
            r == BallId(0),
    {
        BallId(0)
    }
}

/// A vector of the plane.
///
/// Each coordinate is carried as the 32 bits of its single-precision
/// encoding. The synchronisation rules only move coordinates around and
/// compare them bit for bit; arithmetic on them is the embedding program's
/// business. All bits clear is the encoding of zero.
#[derive(Clone, Copy, Debug, PartialEq, Eq, Hash, Structural)]
pub struct Vec2 {
    pub x: u32,
    pub y: u32,
}

impl Vec2 {
    /// The zero vector.
    pub open spec fn spec_zero() -> Vec2 {
        Vec2 { x: 0, y: 0 }
    }

    /// The zero vector.
    #[verifier::when_used_as_spec(spec_zero)]
    pub fn zero() -> (r: Vec2)
        ensures
            r == Vec2::spec_zero(),
    {
        Vec2 { x: 0, y: 0 }
    }

    /// The vector with the given coordinate encodings.
    pub fn from_bits(x: u32, y: u32) -> (r: Vec2)
        ensures
            r == (Vec2 { x, y }),
    {
        Vec2 { x, y }
    }
}

impl Default for Vec2 {
    fn default() -> (r: Self)
        ensures
            r == Vec2::zero(),
    {
        Vec2::zero()
    }
}

/// Where a ball is, in world coordinates.
#[derive(Clone, Copy, Debug, PartialEq, Eq, Hash, Structural)]
pub struct Position(pub Vec2);

impl Default for Position {
    fn default() -> (r: Self)
        ensures
            r == Position(Vec2::zero()),
    {
        Position(Vec2::zero())
    }
}

/// How fast a ball moves. Derived from the target velocity by the
/// integrator, never set by input.
#[derive(Clone, Copy, Debug, PartialEq, Eq, Hash, Structural)]
pub struct Velocity(pub Vec2);

impl Default for Velocity {
    fn default() -> (r: Self)
        ensures
            r == Velocity(Vec2::zero()),
    {
        Velocity(Vec2::zero())
    }
}

/// Where a ball wants to go and how eagerly: a heading of length at most one.
#[derive(Clone, Copy, Debug, PartialEq, Eq, Hash, Structural)]
pub struct TargetVelocity(pub Vec2);

impl Default for TargetVelocity {
    fn default() -> (r: Self)
        ensures
            r == TargetVelocity(Vec2::zero()),
    {
        TargetVelocity(Vec2::zero())
    }
}

/// The components every ball has.
#[derive(Clone, Copy, Debug, PartialEq, Eq, Structural)]
pub struct BallBundle {
    pub ball_id: BallId,
    pub position: Position,
    pub velocity: Velocity,
    pub target_velocity: TargetVelocity,
}

impl BallBundle {
    /// A ball at rest at the origin.
    pub open spec fn spec_new(ball_id: BallId) -> BallBundle {
        BallBundle {
            ball_id,
            position: Position(Vec2::zero()),
            velocity: Velocity(Vec2::zero()),
            target_velocity: TargetVelocity(Vec2::zero()),
        }
    }

    /// A ball with the given identity, at rest at the origin.
    #[verifier::when_used_as_spec(spec_new)]
    pub fn new(ball_id: BallId) -> (r: BallBundle)
        ensures
            r == BallBundle::spec_new(ball_id),
    {
        BallBundle {
            ball_id,
            position: Position(Vec2::zero()),
            velocity: Velocity(Vec2::zero()),
            target_velocity: TargetVelocity(Vec2::zero()),
        }
    }
}

} // verus!
