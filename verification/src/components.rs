//! The per-entity attribute records: position, size, colour, velocity and
//! pending growth, plus the process-wide created-entity counter.

use vstd::prelude::*;

use crate::geometry::Vec2;

verus! {

/// One whole colour channel in fixed-point form: a channel holds a value in
/// `[0, COLOR_UNIT]`, standing for the real interval `[0, 1]`.
pub const COLOR_UNIT: u32 = 1000;

/// Per-axis speed limit for a freshly spawned entity (twenty world units per
/// second, in thousandths).
pub const SPAWN_SPEED_LIMIT: i64 = 20000;

/// Radius of a freshly spawned entity (three world units, in thousandths).
pub const SPAWN_SIZE: i64 = 3000;

/// A 2-D point: where an entity stands in the arena.
#[derive(Clone, Copy, Debug, PartialEq, Eq, Structural)]
pub struct Position(pub Vec2);

impl Position {
    pub fn new(x: i64, y: i64) -> (r: Position)
        ensures
            r.0.x == x,
            r.0.y == y,
    {
        Position(Vec2 { x, y })
    }
}

/// The radius of a circular entity; never negative.
#[derive(Clone, Copy, Debug, PartialEq, Eq, Structural)]
pub struct Size(pub i64);

impl Size {
    pub fn new(size: i64) -> (r: Size)
        requires
            size >= 0,
        ensures
            r.0 == size,
    {
        Size(size)
    }
}

/// An RGBA quadruple; each channel lies in `[0, COLOR_UNIT]`.
#[derive(Clone, Copy, Debug, PartialEq, Eq, Structural)]
pub struct Rgba {
    pub red: u32,
    pub green: u32,
    pub blue: u32,
    pub alpha: u32,
}

/// Whether every channel of a colour lies in `[0, COLOR_UNIT]`.
pub open spec fn rgba_wf(c: Rgba) -> bool {
    c.red <= COLOR_UNIT && c.green <= COLOR_UNIT && c.blue <= COLOR_UNIT && c.alpha <= COLOR_UNIT
}

/// The colour an entity is drawn with; immutable after creation.
#[derive(Clone, Copy, Debug, PartialEq, Eq, Structural)]
pub struct Color {
    pub value: Rgba,
}

impl Color {
    pub fn new(red: u32, green: u32, blue: u32, alpha: u32) -> (r: Color)
        requires
            red <= COLOR_UNIT,
            green <= COLOR_UNIT,
            blue <= COLOR_UNIT,
            alpha <= COLOR_UNIT,
        ensures
            r.value == (Rgba { red, green, blue, alpha }),
            rgba_wf(r.value),
    {
        Color { value: Rgba { red, green, blue, alpha } }
    }
}

/// How far an entity travels per unit of time, along each axis.
#[derive(Clone, Copy, Debug, PartialEq, Eq, Structural)]
pub struct Velocity {
    pub velocity: Vec2,
}

impl Velocity {
    pub fn new(vx: i64, vy: i64) -> (r: Velocity)
        ensures
            r.velocity.x == vx,
            r.velocity.y == vy,
    {
        Velocity { velocity: Vec2 { x: vx, y: vy } }
    }

    /// Maps two uniformly drawn machine words onto a velocity whose axes both
    /// lie in the symmetric spawn range `[-SPAWN_SPEED_LIMIT, SPAWN_SPEED_LIMIT]`.
    pub fn from_random(rx: u64, ry: u64) -> (r: Velocity)
        ensures
            r.velocity.x == spawn_speed_of(rx),
            r.velocity.y == spawn_speed_of(ry),
            -SPAWN_SPEED_LIMIT <= r.velocity.x <= SPAWN_SPEED_LIMIT,
            -SPAWN_SPEED_LIMIT <= r.velocity.y <= SPAWN_SPEED_LIMIT,
    {
        Velocity { velocity: Vec2 { x: spawn_speed_component(rx), y: spawn_speed_component(ry) } }
    }

    pub fn get(&self) -> (r: Vec2)
        ensures
            r == self.velocity,
    {
        self.velocity
    }
}

/// The speed that a uniformly drawn machine word stands for: the word taken
/// modulo the width of the spawn range, shifted to centre the range on zero.
pub open spec fn spawn_speed_of(r: u64) -> int {
    (r as int) % (2 * SPAWN_SPEED_LIMIT + 1) - SPAWN_SPEED_LIMIT
}

fn spawn_speed_component(r: u64) -> (v: i64)
    ensures
        v == spawn_speed_of(r),
        -SPAWN_SPEED_LIMIT <= v <= SPAWN_SPEED_LIMIT,
{
    let span: u64 = (2 * SPAWN_SPEED_LIMIT + 1) as u64;
    let m: u64 = r % span;
    (m as i64) - SPAWN_SPEED_LIMIT
}

/// Growth an entity has earned this frame but not yet applied to its size;
/// never negative, and reset to zero as soon as it is applied.
#[derive(Clone, Copy, Debug, PartialEq, Eq, Structural)]
pub struct GrowBy(pub i64);

impl GrowBy {
    pub fn new(amount: i64) -> (r: GrowBy)
        requires
            amount >= 0,
        ensures
            r.0 == amount,
    {
        GrowBy(amount)
    }

    pub fn reset(&mut self)
        ensures
            final(self).0 == 0,
    {
        self.0 = 0;
    }
}

/// How many entities have been created since the simulation started;
/// incremented once per successful spawn, never reset.
#[derive(Clone, Copy, Debug, PartialEq, Eq, Structural, Default)]
pub struct EntitiesCount(pub usize);

impl EntitiesCount {
    pub fn new() -> (r: EntitiesCount)
        ensures
            r.0 == 0,
    {
        EntitiesCount(0)
    }
}

} // verus!
