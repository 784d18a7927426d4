//! Food: a still, round edible thing.
use vstd::prelude::*;

use crate::entity::{Entity, WORLD_LIMIT};
use crate::geometry::{in_box, Vec2, ONE};

verus! {

/// The radius every new piece of food gets (five pixels).
pub const FOOD_RADIUS: i64 = 5 * ONE;

/// Food radii and eating radii stay within this bound.
pub const RADIUS_LIMIT: i64 = 0x100_0000;

/// How much food there is and how large it is.
#[derive(Clone, Copy, Debug)]
pub struct FoodConfig {
    /// The amount of food in the simulation.
    pub quantity: u32,
    /// The range of radii of the food.
    pub radius_range: (i64, i64),
}

/// An edible entity for fish.
#[derive(Clone, Copy, Debug)]
pub struct Food {
    /// The radius of the piece of food.
    pub radius: i64,
    /// The position of the food's center.
    pub pos: Vec2,
    /// The RGBA color of the food, each channel in `0..=255`.
    pub color: (u8, u8, u8, u8),
}

impl Food {
    /// A well-formed piece of food lies in the world and has a radius in range.
    pub open spec fn wf(&self) -> bool {
        in_box(self.pos@, WORLD_LIMIT as int) && 0 <= self.radius <= RADIUS_LIMIT
    }

    /// A new piece of food at `pos`, of the standard radius and a translucent green.
    pub fn new(pos: Vec2) -> (r: Food)
        ensures
            r.pos == pos,
            r.radius == FOOD_RADIUS,
            r.color == (0u8, 255u8, 0u8, 204u8),
            in_box(pos@, WORLD_LIMIT as int) ==> r.wf(),
    {
        Food { radius: FOOD_RADIUS, pos, color: (0, 255, 0, 204) }
    }
}

impl Entity for Food {
    open spec fn location(&self) -> (int, int) {
        self.pos@
    }

    open spec fn extent(&self) -> int {
        self.radius as int
    }

    open spec fn well_placed(&self) -> bool {
        self.wf()
    }

    proof fn lemma_placed(&self) {
    }

    fn pos(&self) -> (r: Vec2) {
        self.pos
    }

    fn radius(&self) -> (r: i64) {
        self.radius
    }
}

} // verus!
