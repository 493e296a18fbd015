//! Shared value types of the update-loop engine.
//!
//! All scalar quantities (positions, velocities, rotations) are fixed-point
//! values held in an `i64` counting thousandths of a unit, so that the
//! integration and wrap rules are exact integer arithmetic.

use vstd::prelude::*;

verus! {

/// One full turn (two pi radians) in thousandths of a radian, rounded down.
/// The rotation wrap rule compares against this bound.
pub const TWO_PI_MILLI: i64 = 6283;

/// A two-dimensional vector in thousandths of a unit per axis.
#[derive(Clone, Copy, Debug, PartialEq, Eq, Structural)]
pub struct Vec2 {
    pub x: i64,
    pub y: i64,
}

/// The keys the input-handling system distinguishes.
#[derive(Clone, Copy, Debug, PartialEq, Eq, Structural)]
pub enum KeyKind {
    LeftArrow,
    RightArrow,
    Other,
}

/// Whether a key event is a press or a release.
#[derive(Clone, Copy, Debug, PartialEq, Eq, Structural)]
pub enum PressState {
    Pressed,
    Released,
}

/// One pending keyboard event, as appended by the event-loop driver.
#[derive(Clone, Copy, Debug, PartialEq, Eq, Structural)]
pub struct InputEvent {
    pub key: KeyKind,
    pub state: PressState,
}

/// The component types the store can register.
#[derive(Clone, Copy, Debug, PartialEq, Eq, Structural)]
pub enum ComponentKind {
    Position,
    Velocity,
    Rotation,
    RotationalVelocity,
    Player,
}

/// The behaviors a system can have; each kind carries a fixed declared
/// read-set and write-set (see the schedule module).
#[derive(Clone, Copy, Debug, PartialEq, Eq, Structural)]
pub enum SystemKind {
    /// Drains pending input events and flips the sign of the first player
    /// entity's rotational velocity once per handled arrow-key press.
    InputHandling,
    /// Adds `rotational_velocity * delta` to each rotation, wrapping past
    /// a full turn in either direction back to exactly zero.
    UpdateRotation,
    /// Adds `velocity * delta` to each position (unscaled delta rule).
    MovementRaw,
    /// Adds one twentieth of `velocity` to each position (fixed-scale rule).
    MovementScaled,
}

/// The component containers and resource slots a system may declare
/// read or write access to.
#[derive(Clone, Copy, Debug, PartialEq, Eq, Structural)]
pub enum AccessTag {
    PositionComp,
    VelocityComp,
    RotationComp,
    RotationalVelocityComp,
    PlayerComp,
    DeltaRes,
    PendingInputRes,
    ViewportRes,
}

/// Every failure the engine reports. The driver treats each as fatal,
/// matching the crash-over-fallback policy.
#[derive(Clone, Copy, Debug, PartialEq, Eq, Structural)]
pub enum EngineError {
    /// A component type was used before `register` declared it.
    NotRegistered,
    /// A component was attached to an identifier no `create_entity` returned.
    NoSuchEntity,
    /// A resource was read before it was ever set.
    MissingResource,
    /// A system expected at least one entity matching its join and found none.
    NoMatch,
    /// A tick's integration arithmetic would not fit in the fixed-point range.
    Overflow,
    /// A "runs after" edge names a system index outside the builder's list.
    UnknownDependency,
    /// The "runs after" edges contain a cycle, so no schedule exists.
    CyclicGraph,
}

} // verus!
