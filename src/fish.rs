//! Fish: steering agents that eat food and lower-tier fish, flee higher-tier
//! fish, lose health as they live and reproduce with mutation.
use vstd::prelude::*;

use rand::rngs::ThreadRng;

use crate::entity::{eligible, nearest, nearest_of, Entity, WORLD_LIMIT};
use crate::food::RADIUS_LIMIT;
use crate::random::random_range;
use crate::{inverse_map_range, inverse_mapped, lemma_inverse_mapped_in_range};
use crate::geometry::{
    dist_sq, in_box, length_sq, limit, limited, norm_sq, set_magnitude, vadd, vsub, weight,
    weighted, with_magnitude, within, Vec2, ONE,
};

verus! {

/// `max_speed` and `max_steering_force` stay within this bound.
pub const SPEED_LIMIT: i64 = 0x10_0000;

/// Each coordinate of the per-frame force accumulator saturates at this bound.
pub const ACC_LIMIT: i64 = 0x100_0000;

/// Velocity coordinates stay within this bound (it covers `SPEED_LIMIT + ACC_LIMIT`).
pub const VEL_LIMIT: i64 = 0x200_0000;

/// Each gene stays within `[-GENE_LIMIT, GENE_LIMIT]`.
pub const GENE_LIMIT: i64 = 0x100_0000;

/// The scale of a fish stays within `[0, SCALE_LIMIT]`.
pub const SCALE_LIMIT: i64 = 0x10_0000;

/// The radius of a fish is its scale times this factor.
pub const RADIUS_PER_SCALE: i64 = 12;

/// The health a living fish loses on each update (0.001).
pub const HEALTH_DECAY: i64 = 10;

/// The health a fish gains from each meal (0.01), up to full health.
pub const HEAL: i64 = 100;

/// The largest change a mutation makes to a gene (0.1).
pub const MUTATION_STEP: i64 = 1_000;

/// The genes of a fish.
#[derive(Clone, Copy, Debug, PartialEq, Eq, Structural)]
pub struct Dna {
    /// Weight of the steering force toward prey and food.
    pub prey_attraction: i64,
    /// Weight of the steering force toward the nearest predator (negative: flight).
    pub predator_attraction: i64,
    /// Radius within which prey fish are perceived.
    pub prey_perception: i64,
    /// Radius within which predators are perceived.
    pub predator_perception: i64,
}

impl Dna {
    pub open spec fn wf(&self) -> bool {
        &&& -GENE_LIMIT <= self.prey_attraction <= GENE_LIMIT
        &&& -GENE_LIMIT <= self.predator_attraction <= GENE_LIMIT
        &&& -GENE_LIMIT <= self.prey_perception <= GENE_LIMIT
        &&& -GENE_LIMIT <= self.predator_perception <= GENE_LIMIT
    }
}

/// An entity that eats food and prey, avoids predators and moves by simple physics.
#[derive(Clone, Copy, Debug)]
pub struct Fish {
    /// Which animation frame is shown (display state only).
    pub animation_index: u8,
    /// Frames shown since the animation frame last changed (display state only).
    pub frame_index: u8,
    /// The genes: weights of attraction and radii of perception.
    pub dna: Dna,
    /// The RGB color of the fish.
    pub color: (u8, u8, u8),
    /// Full health is `ONE`; the fish is dead at zero or below.
    pub health: i64,
    /// The size multiplier of the fish, in fixed point.
    pub scale: i64,
    /// The largest velocity magnitude the fish reaches.
    pub max_speed: i64,
    /// The largest steering force that can be applied to the fish.
    pub max_steering_force: i64,
    /// The position of the fish's center.
    pub pos: Vec2,
    /// The direction the fish points in; its angle is the fish's heading.
    pub heading: Vec2,
    /// The velocity.
    pub vel: Vec2,
    /// The steering forces accumulated during the current frame.
    pub acc: Vec2,
}

/// `c` clamped into `[-b, b]`.
pub open spec fn clamp_to(c: int, b: int) -> int {
    if c < -b {
        -b
    } else if c > b {
        b
    } else {
        c
    }
}

/// Both coordinates clamped into `[-b, b]`.
pub open spec fn clamp_box(v: (int, int), b: int) -> (int, int) {
    (clamp_to(v.0, b), clamp_to(v.1, b))
}

/// Adds a force to the accumulator, which saturates at `ACC_LIMIT` per coordinate.
pub open spec fn accumulate(acc: (int, int), force: (int, int)) -> (int, int) {
    clamp_box(vadd(acc, force), ACC_LIMIT as int)
}

/// Health after one update: a living fish loses `HEALTH_DECAY`, a dead one nothing.
pub open spec fn decayed(h: int) -> int {
    if h <= 0 {
        h
    } else {
        h - HEALTH_DECAY
    }
}

/// Health after a meal: `HEAL` more, but never above full health.
pub open spec fn healed(h: int) -> int {
    if h + HEAL > ONE {
        ONE as int
    } else {
        h + HEAL
    }
}

/// The steering force toward `target`: the desired velocity (full speed toward the
/// target) minus the current velocity, clamped to the maximum steering force.
pub open spec fn seek_force(f: Fish, target: (int, int)) -> (int, int) {
    limited(
        vsub(with_magnitude(vsub(target, f.pos@), f.max_speed as int), f.vel@),
        f.max_steering_force as int,
    )
}

/// The force a fish feels from the predators at `predators`: toward the nearest one,
/// weighted by the predator gene, when it is within the predator perception radius;
/// otherwise none.
pub open spec fn avoid_force(f: Fish, predators: Seq<Vec2>) -> (int, int) {
    match nearest_of(f.pos@, predators, None) {
        None => (0, 0),
        Some(i) => if within(dist_sq(predators[i]@, f.pos@), f.dna.predator_perception as int) {
            weighted(seek_force(f, predators[i]@), f.dna.predator_attraction as int)
        } else {
            (0, 0)
        },
    }
}

/// All predator positions lie in the world.
pub open spec fn points_placed(points: Seq<Vec2>) -> bool {
    forall|i: int| 0 <= i < points.len() ==> in_box(#[trigger] points[i]@, WORLD_LIMIT as int)
}

pub(crate) proof fn lemma_weighted_bound(v: (int, int), w: int)
    requires
        in_box(v, SPEED_LIMIT as int),
        -GENE_LIMIT <= w <= GENE_LIMIT,
    ensures
        in_box(weighted(v, w), 0x1000_0000_0000),
{
    assert(-0x1000_0000_0000 <= v.0 * w <= 0x1000_0000_0000) by (nonlinear_arith)
        requires
            -0x10_0000 <= v.0 <= 0x10_0000,
            -0x100_0000 <= w <= 0x100_0000,
    ;
    assert(-0x1000_0000_0000 <= v.1 * w <= 0x1000_0000_0000) by (nonlinear_arith)
        requires
            -0x10_0000 <= v.1 <= 0x10_0000,
            -0x100_0000 <= w <= 0x100_0000,
    ;
}

/// Clamps one coordinate into `[-b, b]`.
fn clamp_coord(c: i64, b: i64) -> (r: i64)
    requires
        b >= 0,
    ensures
        r == clamp_to(c as int, b as int),
{
    if c < -b {
        -b
    } else if c > b {
        b
    } else {
        c
    }
}

impl Fish {
    /// The invariant of a fish: everything lies within the bounds of the world.
    pub open spec fn wf(&self) -> bool {
        &&& in_box(self.pos@, WORLD_LIMIT as int)
        &&& in_box(self.vel@, VEL_LIMIT as int)
        &&& in_box(self.heading@, VEL_LIMIT as int)
        &&& in_box(self.acc@, ACC_LIMIT as int)
        &&& 0 <= self.max_speed <= SPEED_LIMIT
        &&& 0 <= self.max_steering_force <= SPEED_LIMIT
        &&& 0 <= self.scale <= SCALE_LIMIT
        &&& self.dna.wf()
        &&& -ONE <= self.health <= ONE
    }

    /// The fish is alive while its health is above zero.
    pub open spec fn alive(&self) -> bool {
        self.health > 0
    }

    /// Two fish agree on everything but health and acceleration.
    pub open spec fn same_body(&self, o: Fish) -> bool {
        &&& self.animation_index == o.animation_index
        &&& self.frame_index == o.frame_index
        &&& self.dna == o.dna
        &&& self.color == o.color
        &&& self.scale == o.scale
        &&& self.max_speed == o.max_speed
        &&& self.max_steering_force == o.max_steering_force
        &&& self.pos == o.pos
        &&& self.heading == o.heading
        &&& self.vel == o.vel
    }

    /// Returns whether or not this fish is alive.
    pub fn is_alive(&self) -> (r: bool)
        ensures
            r == self.alive(),
    {
        self.health > 0
    }

    /// Adds a steering force to this frame's accumulated force.
    pub(crate) fn apply_force(&mut self, force: Vec2)
        requires
            old(self).wf(),
            in_box(force@, 0x2000_0000_0000),
        ensures
            final(self).wf(),
            final(self).acc@ == accumulate(old(self).acc@, force@),
            final(self).same_body(*old(self)),
            final(self).health == old(self).health,
    {
        self.acc = Vec2 {
            x: clamp_coord(self.acc.x + force.x, ACC_LIMIT),
            y: clamp_coord(self.acc.y + force.y, ACC_LIMIT),
        };
    }

    /// Returns a force that steers the fish toward `target`, never longer than the
    /// maximum steering force.
    pub fn seek(&self, target: Vec2) -> (force: Vec2)
        requires
            self.wf(),
            in_box(target@, WORLD_LIMIT as int),
        ensures
            force@ == seek_force(*self, target@),
            norm_sq(force@) <= self.max_steering_force * self.max_steering_force,
            in_box(force@, self.max_steering_force as int),
    {
        let desired = set_magnitude(
            Vec2 { x: target.x - self.pos.x, y: target.y - self.pos.y },
            self.max_speed,
        );
        let steering = Vec2 { x: desired.x - self.vel.x, y: desired.y - self.vel.y };
        limit(steering, self.max_steering_force)
    }

    /// Advances the physics of a living fish by one frame: the velocity is clamped to
    /// the maximum speed and the accumulated force added, the fish turns along its
    /// velocity and moves by it (staying in the world), the accumulator is emptied and
    /// health decays. A dead fish is left as it is.
    pub fn update(&mut self)
        requires
            old(self).wf(),
        ensures
            final(self).wf(),
            final(self).health == decayed(old(self).health as int),
            !old(self).alive() ==> *final(self) == *old(self),
            old(self).alive() ==> final(self).vel@ == vadd(
                limited(old(self).vel@, old(self).max_speed as int),
                old(self).acc@,
            ),
            old(self).alive() ==> final(self).heading == final(self).vel,
            old(self).alive() ==> final(self).pos@ == clamp_box(
                vadd(old(self).pos@, final(self).vel@),
                WORLD_LIMIT as int,
            ),
            old(self).alive() ==> final(self).acc@ == (0int, 0int),
            old(self).alive() ==> (final(self).animation_index == old(self).animation_index
                && final(self).frame_index == old(self).frame_index && final(self).dna
                == old(self).dna && final(self).color == old(self).color && final(self).scale
                == old(self).scale && final(self).max_speed == old(self).max_speed
                && final(self).max_steering_force == old(self).max_steering_force),
            old(self).alive() && old(self).acc@ == (0int, 0int) ==> norm_sq(final(self).vel@)
                <= old(self).max_speed * old(self).max_speed,
            old(self).alive() && old(self).acc@ == (0int, 0int) && norm_sq(old(self).vel@)
                <= old(self).max_speed * old(self).max_speed ==> final(self).vel == old(self).vel,
    {
        if self.health <= 0 {
            return ;
        }
        let v = limit(self.vel, self.max_speed);
        let vel = Vec2 { x: v.x + self.acc.x, y: v.y + self.acc.y };
        self.vel = vel;
        self.heading = vel;
        self.pos = Vec2 {
            x: clamp_coord(self.pos.x + vel.x, WORLD_LIMIT),
            y: clamp_coord(self.pos.y + vel.y, WORLD_LIMIT),
        };
        self.acc = Vec2::zero();
        self.health = self.health - HEALTH_DECAY;
    }

    /// The steering force away from (or toward) the nearest predator: its seek force
    /// weighted by the predator gene when it lies within the predator perception
    /// radius, otherwise zero.
    pub fn avoid(&self, predator_positions: &Vec<Vec2>) -> (force: Vec2)
        requires
            self.wf(),
            points_placed(predator_positions@),
        ensures
            force@ == avoid_force(*self, predator_positions@),
            predator_positions@.len() == 0 ==> force@ == (0int, 0int),
            forall|i: int|
                #![auto]
                nearest_of(self.pos@, predator_positions@, None) == Some(i) && !within(
                    dist_sq(predator_positions@[i]@, self.pos@),
                    self.dna.predator_perception as int,
                ) ==> force@ == (0int, 0int),
            in_box(force@, 0x1000_0000_0000),
    {
        assert(crate::entity::all_placed(predator_positions@));
        let closest = nearest(self.pos, predator_positions, None);
        match closest {
            None => {
                assert(!eligible(self.pos@, predator_positions@, None, 0));
                Vec2::zero()
            },
            Some(i) => {
                let p = predator_positions[i];
                let d = length_sq(Vec2 { x: p.x - self.pos.x, y: p.y - self.pos.y });
                let r = self.dna.predator_perception;
                let perceived = if r < 0 {
                    false
                } else {
                    assert(r * r <= 0x1_0000_0000_0000) by (nonlinear_arith)
                        requires
                            0 <= r <= 0x100_0000,
                    ;
                    d <= r * r
                };
                if perceived {
                    let s = self.seek(p);
                    proof {
                        lemma_weighted_bound(s@, self.dna.predator_attraction as int);
                    }
                    weight(s, self.dna.predator_attraction)
                } else {
                    Vec2::zero()
                }
            },
        }
    }
}

/// The configuration of the fish.
#[derive(Clone, Copy, Debug)]
pub struct FishConfig {
    /// The number of fish in the simulation.
    pub quantity: usize,
    /// The distance, beyond a target's radius, within which a fish eats it.
    pub eating_radius: i64,
    /// The chance that a gene mutates when a fish reproduces (`ONE` is certain).
    pub mutation_rate: i64,
    /// The range of scales of the fish.
    pub scale_range: (i64, i64),
    /// The range of maximum speeds of the fish.
    pub max_speed_range: (i64, i64),
    /// The range of maximum steering forces of the fish.
    pub max_steering_force_range: (i64, i64),
    /// The number of links in the food chain, food excluded.
    pub total_food_chain_links: usize,
    /// Frames per animation frame at full speed (display only).
    pub frames_per_animation_frame: i64,
}

/// Dividing a width among `links` tiers leaves each at least one unit exactly when
/// there are no more tiers than units.
proof fn lemma_band_nonempty(width: int, links: int)
    requires
        width >= 0,
        links >= 1,
    ensures
        width / links >= 1 <==> links <= width,
{
    if links <= width {
        assert(width / links >= 1) by (nonlinear_arith)
            requires
                1 <= links <= width,
        ;
    } else {
        assert(width / links == 0) by (nonlinear_arith)
            requires
                0 <= width < links,
        ;
    }
}

impl FishConfig {
    /// Every range is ordered and in bounds, and each tier gets a nonempty band of
    /// scales: the scale range divided among the tiers is at least one unit wide.
    pub open spec fn valid(&self) -> bool {
        &&& 0 <= self.eating_radius <= RADIUS_LIMIT
        &&& 0 <= self.mutation_rate <= ONE
        &&& 1 <= self.total_food_chain_links
        &&& 0 <= self.scale_range.0 < self.scale_range.1 <= SCALE_LIMIT
        &&& (self.scale_range.1 - self.scale_range.0) / (self.total_food_chain_links as int) >= 1
        &&& 0 <= self.max_speed_range.0 <= self.max_speed_range.1 <= SPEED_LIMIT
        &&& 0 <= self.max_steering_force_range.0 <= self.max_steering_force_range.1 <= SPEED_LIMIT
    }

    /// Checks `valid`.
    pub fn is_valid(&self) -> (r: bool)
        ensures
            r == self.valid(),
    {
        if !(0 <= self.eating_radius && self.eating_radius <= RADIUS_LIMIT) {
            return false;
        }
        if !(0 <= self.mutation_rate && self.mutation_rate <= ONE) {
            return false;
        }
        if self.total_food_chain_links < 1 {
            return false;
        }
        if !(0 <= self.scale_range.0 && self.scale_range.0 < self.scale_range.1
            && self.scale_range.1 <= SCALE_LIMIT) {
            return false;
        }
        let width = self.scale_range.1 - self.scale_range.0;
        proof {
            lemma_band_nonempty(width as int, self.total_food_chain_links as int);
        }
        if self.total_food_chain_links as u64 > width as u64 {
            return false;
        }
        0 <= self.max_speed_range.0 && self.max_speed_range.0 <= self.max_speed_range.1
            && self.max_speed_range.1 <= SPEED_LIMIT && 0 <= self.max_steering_force_range.0
            && self.max_steering_force_range.0 <= self.max_steering_force_range.1
            && self.max_steering_force_range.1 <= SPEED_LIMIT
    }

    /// The width of the band of scales each tier gets.
    pub open spec fn band(&self) -> int {
        (self.scale_range.1 - self.scale_range.0) / (self.total_food_chain_links as int)
    }
}

/// A gene after reproduction: when its roll falls below the mutation rate the offset
/// is added (kept within the gene bounds), otherwise it is inherited unchanged.
pub open spec fn gene_after(gene: i64, roll: i64, offset: i64, rate: i64) -> int {
    if roll < rate {
        clamp_to(gene + offset, GENE_LIMIT as int)
    } else {
        gene as int
    }
}

/// One gene of an offspring.
fn mutate_gene(gene: i64, roll: i64, offset: i64, rate: i64) -> (r: i64)
    requires
        -GENE_LIMIT <= gene <= GENE_LIMIT,
        -MUTATION_STEP <= offset <= MUTATION_STEP,
    ensures
        r == gene_after(gene, roll, offset, rate),
{
    if roll < rate {
        clamp_coord(gene + offset, GENE_LIMIT)
    } else {
        gene
    }
}

/// Offsets and rolls drawn for reproduction are in their ranges.
pub open spec fn offsets_in_step(o: Dna) -> bool {
    &&& -MUTATION_STEP <= o.prey_attraction <= MUTATION_STEP
    &&& -MUTATION_STEP <= o.predator_attraction <= MUTATION_STEP
    &&& -MUTATION_STEP <= o.prey_perception <= MUTATION_STEP
    &&& -MUTATION_STEP <= o.predator_perception <= MUTATION_STEP
}

impl Dna {
    /// The genes of an offspring: gene by gene, `rolls` decides whether the gene
    /// mutates and `offsets` by how much.
    pub fn mutated(&self, rolls: &Dna, offsets: &Dna, mutation_rate: i64) -> (r: Dna)
        requires
            self.wf(),
            offsets_in_step(*offsets),
        ensures
            r.wf(),
            r.prey_attraction == gene_after(
                self.prey_attraction,
                rolls.prey_attraction,
                offsets.prey_attraction,
                mutation_rate,
            ),
            r.predator_attraction == gene_after(
                self.predator_attraction,
                rolls.predator_attraction,
                offsets.predator_attraction,
                mutation_rate,
            ),
            r.prey_perception == gene_after(
                self.prey_perception,
                rolls.prey_perception,
                offsets.prey_perception,
                mutation_rate,
            ),
            r.predator_perception == gene_after(
                self.predator_perception,
                rolls.predator_perception,
                offsets.predator_perception,
                mutation_rate,
            ),
    {
        Dna {
            prey_attraction: mutate_gene(
                self.prey_attraction,
                rolls.prey_attraction,
                offsets.prey_attraction,
                mutation_rate,
            ),
            predator_attraction: mutate_gene(
                self.predator_attraction,
                rolls.predator_attraction,
                offsets.predator_attraction,
                mutation_rate,
            ),
            prey_perception: mutate_gene(
                self.prey_perception,
                rolls.prey_perception,
                offsets.prey_perception,
                mutation_rate,
            ),
            predator_perception: mutate_gene(
                self.predator_perception,
                rolls.predator_perception,
                offsets.predator_perception,
                mutation_rate,
            ),
        }
    }
}

/// Draws one value per gene from `[low, high)`.
fn random_genes(rng: &mut ThreadRng, low: i64, high: i64) -> (r: Dna)
    requires
        low < high,
    ensures
        low <= r.prey_attraction < high,
        low <= r.predator_attraction < high,
        low <= r.prey_perception < high,
        low <= r.predator_perception < high,
{
    Dna {
        prey_attraction: random_range(rng, low, high),
        predator_attraction: random_range(rng, low, high),
        prey_perception: random_range(rng, low, high),
        predator_perception: random_range(rng, low, high),
    }
}

/// Draws a heading: a direction vector with coordinates in `[-ONE, ONE]`.
fn random_heading(rng: &mut ThreadRng) -> (r: Vec2)
    ensures
        in_box(r@, ONE as int),
{
    Vec2 { x: random_range(rng, -ONE, ONE + 1), y: random_range(rng, -ONE, ONE + 1) }
}

/// Draws a color channel.
fn random_channel(rng: &mut ThreadRng) -> (r: u8) {
    random_range(rng, 0, 256) as u8
}

impl Fish {
    /// A new fish of tier `group_index`, at a random place in the window.
    ///
    /// Its scale is drawn from the tier's band of the scale range (higher tiers are
    /// larger); its maximum speed and steering force are inversely proportional to
    /// its scale; its genes are drawn at random (weights in `[-2, 2)`, perception
    /// radii in `[10, 100)` pixels); it starts at rest with full health.
    pub fn new(
        fish_config: &FishConfig,
        group_index: &usize,
        window_size: &(i64, i64),
        rng: &mut ThreadRng,
    ) -> (r: Fish)
        requires
            fish_config.valid(),
            *group_index < fish_config.total_food_chain_links,
            0 < window_size.0 <= WORLD_LIMIT,
            0 < window_size.1 <= WORLD_LIMIT,
        ensures
            r.wf(),
            r.alive(),
            r.health == ONE,
            fish_config.scale_range.0 + fish_config.band() * *group_index <= r.scale
                < fish_config.scale_range.0 + fish_config.band() * (*group_index + 1),
            r.max_speed == inverse_mapped(
                r.scale as int,
                fish_config.scale_range,
                fish_config.max_speed_range,
            ),
            r.max_steering_force == inverse_mapped(
                r.scale as int,
                fish_config.scale_range,
                fish_config.max_steering_force_range,
            ),
            0 <= r.pos.x < window_size.0,
            0 <= r.pos.y < window_size.1,
            r.vel@ == (0int, 0int),
            r.acc@ == (0int, 0int),
            -2 * ONE <= r.dna.prey_attraction < 2 * ONE,
            -2 * ONE <= r.dna.predator_attraction < 2 * ONE,
            10 * ONE <= r.dna.prey_perception < 100 * ONE,
            10 * ONE <= r.dna.predator_perception < 100 * ONE,
    {
        proof {
            lemma_band_nonempty(
                fish_config.scale_range.1 - fish_config.scale_range.0,
                fish_config.total_food_chain_links as int,
            );
        }
        let links = fish_config.total_food_chain_links as i64;
        let band = (fish_config.scale_range.1 - fish_config.scale_range.0) / links;
        let g = *group_index as i64;
        assert(band * g <= band * links) by (nonlinear_arith)
            requires
                0 <= g < links,
                band >= 1,
        ;
        assert(band * links <= fish_config.scale_range.1 - fish_config.scale_range.0)
            by (nonlinear_arith)
            requires
                links >= 1,
                band == (fish_config.scale_range.1 - fish_config.scale_range.0) / (links as int),
                fish_config.scale_range.1 - fish_config.scale_range.0 >= 0,
        ;
        assert(band * (g + 1) == band * g + band) by (nonlinear_arith);
        assert(band * (g + 1) <= band * links) by (nonlinear_arith)
            requires
                0 <= g < links,
                band >= 1,
        ;
        let min_scale = band * g + fish_config.scale_range.0;
        let max_scale = min_scale + band;
        let scale = random_range(rng, min_scale, max_scale);
        proof {
            lemma_inverse_mapped_in_range(
                scale as int,
                fish_config.scale_range,
                fish_config.max_speed_range,
            );
            lemma_inverse_mapped_in_range(
                scale as int,
                fish_config.scale_range,
                fish_config.max_steering_force_range,
            );
        }
        let max_speed = inverse_map_range(
            scale,
            fish_config.scale_range,
            fish_config.max_speed_range,
        );
        let max_steering_force = inverse_map_range(
            scale,
            fish_config.scale_range,
            fish_config.max_steering_force_range,
        );
        let heading = random_heading(rng);
        let pos = Vec2 { x: random_range(rng, 0, window_size.0), y: random_range(rng, 0, window_size.1) };
        let weights = random_genes(rng, -2 * ONE, 2 * ONE);
        let radii = random_genes(rng, 10 * ONE, 100 * ONE);
        let dna = Dna {
            prey_attraction: weights.prey_attraction,
            predator_attraction: weights.predator_attraction,
            prey_perception: radii.prey_perception,
            predator_perception: radii.predator_perception,
        };
        let color = (random_channel(rng), random_channel(rng), random_channel(rng));
        Fish {
            animation_index: 0,
            frame_index: 0,
            dna,
            color,
            health: ONE,
            scale,
            max_speed,
            max_steering_force,
            pos,
            heading,
            vel: Vec2::zero(),
            acc: Vec2::zero(),
        }
    }

    /// The offspring of this fish, from the draws made for it: it inherits scale,
    /// speeds, color and position; each gene mutates as `rolls` and `offsets` say;
    /// it gets `heading`, starts at rest and has full health.
    pub fn offspring(&self, rolls: &Dna, offsets: &Dna, heading: Vec2, mutation_rate: i64) -> (r: Fish)
        requires
            self.wf(),
            offsets_in_step(*offsets),
            in_box(heading@, ONE as int),
        ensures
            r.wf(),
            r.health == ONE,
            r.dna.prey_attraction == gene_after(
                self.dna.prey_attraction,
                rolls.prey_attraction,
                offsets.prey_attraction,
                mutation_rate,
            ),
            r.dna.predator_attraction == gene_after(
                self.dna.predator_attraction,
                rolls.predator_attraction,
                offsets.predator_attraction,
                mutation_rate,
            ),
            r.dna.prey_perception == gene_after(
                self.dna.prey_perception,
                rolls.prey_perception,
                offsets.prey_perception,
                mutation_rate,
            ),
            r.dna.predator_perception == gene_after(
                self.dna.predator_perception,
                rolls.predator_perception,
                offsets.predator_perception,
                mutation_rate,
            ),
            r.scale == self.scale,
            r.max_speed == self.max_speed,
            r.max_steering_force == self.max_steering_force,
            r.color == self.color,
            r.pos == self.pos,
            r.heading == heading,
            r.vel@ == (0int, 0int),
            r.acc@ == (0int, 0int),
            r.animation_index == 0,
            r.frame_index == 0,
    {
        Fish {
            animation_index: 0,
            frame_index: 0,
            dna: self.dna.mutated(rolls, offsets, mutation_rate),
            color: self.color,
            health: ONE,
            scale: self.scale,
            max_speed: self.max_speed,
            max_steering_force: self.max_steering_force,
            pos: self.pos,
            heading,
            vel: Vec2::zero(),
            acc: Vec2::zero(),
        }
    }

    /// Creates a clone of this fish with possible mutations of its genes: each gene
    /// mutates with chance `mutation_rate` (out of `ONE`) by an offset drawn from
    /// `[-MUTATION_STEP, MUTATION_STEP)`; the heading is drawn anew.
    pub fn clone(&self, rng: &mut ThreadRng, mutation_rate: i64) -> (r: Fish)
        requires
            self.wf(),
        ensures
            r.wf(),
            r.health == ONE,
            gene_changed_by_step(self.dna.prey_attraction, r.dna.prey_attraction),
            gene_changed_by_step(self.dna.predator_attraction, r.dna.predator_attraction),
            gene_changed_by_step(self.dna.prey_perception, r.dna.prey_perception),
            gene_changed_by_step(self.dna.predator_perception, r.dna.predator_perception),
            mutation_rate <= 0 ==> r.dna == self.dna,
            in_box(r.heading@, ONE as int),
            r.scale == self.scale,
            r.max_speed == self.max_speed,
            r.max_steering_force == self.max_steering_force,
            r.color == self.color,
            r.pos == self.pos,
            r.vel@ == (0int, 0int),
            r.acc@ == (0int, 0int),
    {
        let rolls = random_genes(rng, 0, ONE);
        let offsets = random_genes(rng, -MUTATION_STEP, MUTATION_STEP);
        let heading = random_heading(rng);
        let r = self.offspring(&rolls, &offsets, heading, mutation_rate);
        proof {
            lemma_gene_after(self.dna.prey_attraction, rolls.prey_attraction, offsets.prey_attraction, mutation_rate);
            lemma_gene_after(self.dna.predator_attraction, rolls.predator_attraction, offsets.predator_attraction, mutation_rate);
            lemma_gene_after(self.dna.prey_perception, rolls.prey_perception, offsets.prey_perception, mutation_rate);
            lemma_gene_after(self.dna.predator_perception, rolls.predator_perception, offsets.predator_perception, mutation_rate);
        }
        r
    }
}

/// A gene of an offspring differs from its parent's by at most `MUTATION_STEP`.
pub open spec fn gene_changed_by_step(parent: i64, child: i64) -> bool {
    -MUTATION_STEP <= child - parent <= MUTATION_STEP
}

/// A gene whose roll does not fall below the mutation rate is inherited unchanged;
/// any gene changes by at most the offset drawn for it, so by at most
/// `MUTATION_STEP`.
pub proof fn lemma_gene_after(gene: i64, roll: i64, offset: i64, rate: i64)
    requires
        -GENE_LIMIT <= gene <= GENE_LIMIT,
        -MUTATION_STEP <= offset <= MUTATION_STEP,
    ensures
        roll >= rate ==> gene_after(gene, roll, offset, rate) == gene,
        roll < rate && -GENE_LIMIT <= gene + offset <= GENE_LIMIT ==> gene_after(
            gene,
            roll,
            offset,
            rate,
        ) == gene + offset,
        gene_changed_by_step(gene, gene_after(gene, roll, offset, rate) as i64),
        -GENE_LIMIT <= gene_after(gene, roll, offset, rate) <= GENE_LIMIT,
        offset >= 0 ==> gene <= gene_after(gene, roll, offset, rate) <= gene + offset,
        offset <= 0 ==> gene + offset <= gene_after(gene, roll, offset, rate) <= gene,
{
}

/// Health after `n` updates without a meal, from health `h`.
pub open spec fn health_after(h: int, n: nat) -> int
    decreases n,
{
    if n == 0 {
        h
    } else {
        decayed(health_after(h, (n - 1) as nat))
    }
}

/// A fish that starts at full health and never eats has, after `n` updates, health
/// `max(0, ONE - n * HEALTH_DECAY)`; it is dead exactly when that is no longer
/// positive.
pub proof fn lemma_health_after_updates(n: nat)
    ensures
        health_after(ONE as int, n) == (if ONE - n * HEALTH_DECAY > 0 {
            ONE - n * HEALTH_DECAY
        } else {
            0
        }),
        health_after(ONE as int, n) <= 0 <==> n * HEALTH_DECAY >= ONE,
    decreases n,
{
    if n > 0 {
        lemma_health_after_updates((n - 1) as nat);
    }
}

impl Entity for Fish {
    open spec fn location(&self) -> (int, int) {
        self.pos@
    }

    open spec fn extent(&self) -> int {
        self.scale * RADIUS_PER_SCALE
    }

    open spec fn well_placed(&self) -> bool {
        self.wf()
    }

    proof fn lemma_placed(&self) {
    }

    /// Returns the fish's position.
    fn pos(&self) -> (r: Vec2) {
        self.pos
    }

    /// Returns the radius around the center of the fish at which it interacts with
    /// other entities.
    fn radius(&self) -> (r: i64) {
        self.scale * RADIUS_PER_SCALE
    }
}

} // verus!
