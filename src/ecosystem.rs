//! The population manager: the food, the fish tiers of the food chain, and the
//! per-frame step that wires predators and prey together.
use rand::rngs::ThreadRng;
use vstd::prelude::*;

use crate::behavior::{
    all_food_wf, all_tiers_wf, eat_force, flight_force, food_left, health_after_meal,
    lemma_total_fish_le, lemma_total_fish_update, meal, out_of_bounds, prey_left, snapshot_view,
    tiers_view, total_fish,
};
use crate::entity::WORLD_LIMIT;
use crate::fish::{
    accumulate, clamp_box, decayed, gene_changed_by_step, points_placed, seek_force, Fish,
    FishConfig,
};
use crate::food::{Food, FoodConfig, FOOD_RADIUS};
use crate::geometry::{limited, vadd, Vec2};
use crate::random::{random_range, random_ratio};

verus! {

/// The chance, per frame, that a new piece of food appears: one in this many.
pub const FOOD_SPAWN_ODDS: u32 = 10;

/// The chance, per fish and frame, that a tier breeds: one in this many.
pub const BREED_ODDS: u32 = 1_000;

/// The configuration of the simulation.
#[derive(Clone, Copy, Debug)]
pub struct Config {
    /// The size of the window, `(width, height)`.
    pub window_size: (i64, i64),
    /// The thickness of the band along the window's edges that fish are steered out of.
    pub boundary_padding: i64,
    /// The configuration of the fish.
    pub fish: FishConfig,
    /// The configuration of the food.
    pub food: FoodConfig,
}

impl Config {
    /// The fish configuration is valid and the window, less its padding on each side,
    /// is a nonempty part of the world.
    pub open spec fn valid(&self) -> bool {
        &&& self.fish.valid()
        &&& 0 < self.window_size.0 <= WORLD_LIMIT
        &&& 0 < self.window_size.1 <= WORLD_LIMIT
        &&& 0 <= self.boundary_padding
        &&& 2 * self.boundary_padding < self.window_size.0
        &&& 2 * self.boundary_padding < self.window_size.1
    }

    /// Checks `valid`.
    pub fn is_valid(&self) -> (r: bool)
        ensures
            r == self.valid(),
    {
        self.fish.is_valid() && 0 < self.window_size.0 && self.window_size.0 <= WORLD_LIMIT
            && 0 < self.window_size.1 && self.window_size.1 <= WORLD_LIMIT && 0
            <= self.boundary_padding && self.boundary_padding < WORLD_LIMIT && 2
            * self.boundary_padding < self.window_size.0 && 2 * self.boundary_padding
            < self.window_size.1
    }
}

/// The fish of a tier that are alive.
pub open spec fn living(tier: Seq<Fish>) -> Seq<Fish> {
    tier.filter(|f: Fish| f.alive())
}

/// The positions of the fish of a tier, in order.
pub open spec fn positions(tier: Seq<Fish>) -> Seq<Vec2> {
    tier.map_values(|f: Fish| f.pos)
}

/// The predator snapshot of tier `g`: the positions of tier `g + 1`, or nothing for
/// the top tier.
pub open spec fn snapshot_of(groups: Seq<Seq<Fish>>, g: int) -> Option<Seq<Vec2>> {
    if g + 1 == groups.len() {
        None
    } else {
        Some(positions(groups[g + 1]))
    }
}

/// `child` is a clone of `parent`: same body and place, genes within one mutation
/// step of the parent's, full health.
pub open spec fn is_offspring(parent: Fish, child: Fish) -> bool {
    &&& child.scale == parent.scale
    &&& child.max_speed == parent.max_speed
    &&& child.max_steering_force == parent.max_steering_force
    &&& child.color == parent.color
    &&& child.pos == parent.pos
    &&& child.health == crate::geometry::ONE
    &&& gene_changed_by_step(parent.dna.prey_attraction, child.dna.prey_attraction)
    &&& gene_changed_by_step(parent.dna.predator_attraction, child.dna.predator_attraction)
    &&& gene_changed_by_step(parent.dna.prey_perception, child.dna.prey_perception)
    &&& gene_changed_by_step(parent.dna.predator_perception, child.dna.predator_perception)
}

/// One fish's turn in a frame, from fish `f` with the food and prey tiers as they
/// are to fish `g` with the food and prey left after it.
///
/// It eats what `meal` says (at most one thing) and its health changes accordingly;
/// the forces of feeding and of the predator snapshot are accumulated, and the
/// force back to the window's center when it is within the padding of an edge; then
/// it moves as `Fish::update` does. Its genes, size and speeds do not change.
pub open spec fn turn(
    cfg: Config,
    snapshot: Option<Seq<Vec2>>,
    f: Fish,
    food: Seq<Food>,
    prey: Seq<Seq<Fish>>,
    g: Fish,
    food2: Seq<Food>,
    prey2: Seq<Seq<Fish>>,
) -> bool {
    let m = meal(f, food, prey, cfg.fish.eating_radius as int);
    let fed = health_after_meal(f.health as int, m);
    let pushed = accumulate(f.acc@, vadd(eat_force(f, food, prey), flight_force(f, snapshot)));
    let acc = if out_of_bounds(f.pos@, cfg.window_size, cfg.boundary_padding) {
        accumulate(pushed, seek_force(f, (cfg.window_size.0 / 2, cfg.window_size.1 / 2)))
    } else {
        pushed
    };
    &&& food2 == food_left(food, m)
    &&& prey2 == prey_left(prey, m)
    &&& g.dna == f.dna
    &&& g.color == f.color
    &&& g.scale == f.scale
    &&& g.max_speed == f.max_speed
    &&& g.max_steering_force == f.max_steering_force
    &&& g.animation_index == f.animation_index
    &&& g.frame_index == f.frame_index
    &&& g.health == decayed(fed)
    &&& if fed <= 0 {
        g.pos == f.pos && g.vel == f.vel && g.heading == f.heading && g.acc@ == acc
    } else {
        &&& g.vel@ == vadd(limited(f.vel@, f.max_speed as int), acc)
        &&& g.heading == g.vel
        &&& g.pos@ == clamp_box(vadd(f.pos@, g.vel@), WORLD_LIMIT as int)
        &&& g.acc@ == (0int, 0int)
    }
}

/// The turns of a tier, in order: fish `k` goes from `before[k]` to `after[k]`
/// while the food goes from `foods[k]` to `foods[k + 1]` and the prey tiers from
/// `preys[k]` to `preys[k + 1]`.
pub open spec fn tier_chain(
    cfg: Config,
    snapshot: Option<Seq<Vec2>>,
    before: Seq<Fish>,
    after: Seq<Fish>,
    foods: Seq<Seq<Food>>,
    preys: Seq<Seq<Seq<Fish>>>,
) -> bool {
    &&& after.len() == before.len()
    &&& foods.len() == before.len() + 1
    &&& preys.len() == before.len() + 1
    &&& forall|k: int|
        0 <= k < before.len() ==> #[trigger] turn(
            cfg,
            snapshot,
            before[k],
            foods[k],
            preys[k],
            after[k],
            foods[k + 1],
            preys[k + 1],
        )
}

/// The fish of a tier took their turns, one after another, from `food` and `prey`
/// to `food2` and `prey2`.
pub open spec fn tier_ran(
    cfg: Config,
    snapshot: Option<Seq<Vec2>>,
    before: Seq<Fish>,
    food: Seq<Food>,
    prey: Seq<Seq<Fish>>,
    after: Seq<Fish>,
    food2: Seq<Food>,
    prey2: Seq<Seq<Fish>>,
) -> bool {
    exists|foods: Seq<Seq<Food>>, preys: Seq<Seq<Seq<Fish>>>|
        #[trigger] tier_chain(cfg, snapshot, before, after, foods, preys) && foods[0] == food
            && preys[0] == prey && foods[before.len() as int] == food2 && preys[before.len() as int]
            == prey2
}

/// A fish as it starts in tier `g`: at full health, with a scale in the tier's band
/// of the scale range.
pub open spec fn new_in_tier(config: Config, g: int, f: Fish) -> bool {
    &&& f.health == crate::geometry::ONE
    &&& config.fish.scale_range.0 + config.fish.band() * g <= f.scale
    &&& f.scale < config.fish.scale_range.0 + config.fish.band() * (g + 1)
}

/// A piece of food as it appears: the standard radius, inside the padded window.
pub open spec fn spawned_piece(config: Config, p: Food) -> bool {
    &&& p.radius == FOOD_RADIUS
    &&& config.boundary_padding <= p.pos.x < config.window_size.0 - config.boundary_padding
    &&& config.boundary_padding <= p.pos.y < config.window_size.1 - config.boundary_padding
}

/// Roll `i` is the first that succeeded.
pub open spec fn first_success(rolls: Seq<bool>, i: int) -> bool {
    0 <= i < rolls.len() && rolls[i] && forall|j: int| 0 <= j < i ==> !#[trigger] rolls[j]
}

/// Some fish of `tier` is the parent of `child`.
pub open spec fn has_parent(tier: Seq<Fish>, child: Fish) -> bool {
    exists|i: int| 0 <= i < tier.len() && #[trigger] is_offspring(tier[i], child)
}

/// Tier `g`'s part of a frame, from the food and tiers as the lower tiers left them
/// to the food and tiers after it: its dead fish are removed, the living take their
/// turns against the snapshot of the tier above, and at most one newborn, a clone
/// of one of the living, joins the end. Higher tiers are untouched.
pub open spec fn tier_frame(
    cfg: Config,
    food: Seq<Food>,
    groups: Seq<Seq<Fish>>,
    g: int,
    food2: Seq<Food>,
    groups2: Seq<Seq<Fish>>,
) -> bool {
    let pruned = living(groups[g]);
    let n = pruned.len() as int;
    &&& groups2.len() == groups.len()
    &&& tier_ran(
        cfg,
        snapshot_of(groups, g),
        pruned,
        food,
        groups.subrange(0, g),
        groups2[g].subrange(0, n),
        food2,
        groups2.subrange(0, g),
    )
    &&& (groups2[g].len() == n || (groups2[g].len() == n + 1 && has_parent(
        pruned,
        groups2[g].last(),
    )))
    &&& forall|h: int| g < h < groups.len() ==> #[trigger] groups2[h] == groups[h]
}

/// The food a frame starts from: as it was, or with one more piece of the standard
/// radius inside the padded window.
pub open spec fn food_spawned(cfg: Config, food: Seq<Food>, food2: Seq<Food>) -> bool {
    food2 == food || {
        &&& food2.len() == food.len() + 1
        &&& food2.subrange(0, food.len() as int) == food
        &&& food2.last().radius == FOOD_RADIUS
        &&& cfg.boundary_padding <= food2.last().pos.x < cfg.window_size.0 - cfg.boundary_padding
        &&& cfg.boundary_padding <= food2.last().pos.y < cfg.window_size.1 - cfg.boundary_padding
    }
}

/// The parts of a frame, tier after tier: tier `g` goes from `foods[g]` and
/// `groups[g]` to `foods[g + 1]` and `groups[g + 1]`.
pub open spec fn frame_chain(cfg: Config, foods: Seq<Seq<Food>>, groups: Seq<Seq<Seq<Fish>>>) -> bool {
    &&& foods.len() == groups.len()
    &&& forall|g: int|
        0 <= g < foods.len() - 1 ==> #[trigger] tier_frame(
            cfg,
            foods[g],
            groups[g],
            g,
            foods[g + 1],
            groups[g + 1],
        )
}

/// A whole frame, from `food` and `groups` to `food2` and `groups2`: food may
/// appear, then every tier from the lowest up takes its part.
pub open spec fn frame_ran(
    cfg: Config,
    food: Seq<Food>,
    groups: Seq<Seq<Fish>>,
    food2: Seq<Food>,
    groups2: Seq<Seq<Fish>>,
) -> bool {
    exists|foods: Seq<Seq<Food>>, stages: Seq<Seq<Seq<Fish>>>|
        #[trigger] frame_chain(cfg, foods, stages) && foods.len() == groups.len() + 1
            && food_spawned(cfg, food, foods[0]) && stages[0] == groups && foods.last() == food2
            && stages.last() == groups2
}

/// The simulation: all food and every tier of fish, from the lowest (index 0) to
/// the top of the food chain.
pub struct Ecosystem {
    /// The configuration the simulation was started with.
    pub config: Config,
    /// The food.
    pub food: Vec<Food>,
    /// The tiers of the food chain; tier `g` preys on food and tiers below `g`.
    pub fish_groups: Vec<Vec<Fish>>,
}

impl Ecosystem {
    /// The invariant: a valid configuration, one tier per food-chain link, and every
    /// piece of food and every fish well formed.
    pub open spec fn wf(&self) -> bool {
        &&& self.config.valid()
        &&& self.fish_groups@.len() == self.config.fish.total_food_chain_links
        &&& all_food_wf(self.food@)
        &&& all_tiers_wf(tiers_view(self.fish_groups@))
    }

    /// Adds a piece of food at a random place inside the padded window.
    pub fn add_food(food: &mut Vec<Food>, config: &Config, rng: &mut ThreadRng)
        requires
            config.valid(),
            all_food_wf(old(food)@),
        ensures
            all_food_wf(final(food)@),
            final(food)@.len() == old(food)@.len() + 1,
            final(food)@.subrange(0, old(food)@.len() as int) == old(food)@,
            final(food)@.last().radius == FOOD_RADIUS,
            config.boundary_padding <= final(food)@.last().pos.x < config.window_size.0
                - config.boundary_padding,
            config.boundary_padding <= final(food)@.last().pos.y < config.window_size.1
                - config.boundary_padding,
    {
        let pad = config.boundary_padding;
        let x = random_range(rng, pad, config.window_size.0 - pad);
        let y = random_range(rng, pad, config.window_size.1 - pad);
        let piece = Food::new(Vec2 { x, y });
        food.push(piece);
        assert(food@.subrange(0, food@.len() - 1) =~= old(food)@);
    }

    /// Starts a simulation: `config.food.quantity` pieces of food and, in each tier,
    /// `config.fish.quantity / total_food_chain_links` new fish.
    pub fn new(config: Config, rng: &mut ThreadRng) -> (r: Ecosystem)
        requires
            config.valid(),
        ensures
            r.wf(),
            r.config == config,
            r.food@.len() == config.food.quantity,
            forall|g: int|
                0 <= g < r.fish_groups@.len() ==> #[trigger] r.fish_groups@[g]@.len()
                    == config.fish.quantity / config.fish.total_food_chain_links,
            forall|g: int, i: int|
                0 <= g < r.fish_groups@.len() && 0 <= i < r.fish_groups@[g]@.len()
                    ==> #[trigger] new_in_tier(config, g, r.fish_groups@[g]@[i]),
            forall|i: int| 0 <= i < r.food@.len() ==> #[trigger] spawned_piece(config, r.food@[i]),
    {
        let mut food: Vec<Food> = Vec::new();
        let mut k: u32 = 0;
        while k < config.food.quantity
            invariant
                config.valid(),
                all_food_wf(food@),
                food@.len() == k,
                k <= config.food.quantity,
                forall|i: int| 0 <= i < food@.len() ==> #[trigger] spawned_piece(config, food@[i]),
            decreases config.food.quantity - k,
        {
            let ghost before = food@;
            Self::add_food(&mut food, &config, rng);
            assert forall|i: int| 0 <= i < food@.len() implies #[trigger] spawned_piece(config, food@[i]) by {
                if i < before.len() {
                    assert(food@[i] == food@.subrange(0, before.len() as int)[i]);
                }
            }
            k += 1;
        }
        let per_group = config.fish.quantity / config.fish.total_food_chain_links;
        let mut fish_groups: Vec<Vec<Fish>> = Vec::new();
        let mut g: usize = 0;
        while g < config.fish.total_food_chain_links
            invariant
                config.valid(),
                g <= config.fish.total_food_chain_links,
                fish_groups@.len() == g,
                all_tiers_wf(tiers_view(fish_groups@)),
                forall|h: int| 0 <= h < g ==> #[trigger] fish_groups@[h]@.len() == per_group,
                forall|h: int, j: int|
                    0 <= h < g && 0 <= j < fish_groups@[h]@.len() ==> #[trigger] new_in_tier(
                        config,
                        h,
                        fish_groups@[h]@[j],
                    ),
            decreases config.fish.total_food_chain_links - g,
        {
            let mut group: Vec<Fish> = Vec::new();
            let mut i: usize = 0;
            while i < per_group
                invariant
                    config.valid(),
                    g < config.fish.total_food_chain_links,
                    i <= per_group,
                    group@.len() == i,
                    forall|j: int| 0 <= j < i ==> #[trigger] group@[j].wf(),
                    forall|j: int| 0 <= j < i ==> #[trigger] new_in_tier(config, g as int, group@[j]),
                decreases per_group - i,
            {
                group.push(Fish::new(&config.fish, &g, &config.window_size, rng));
                i += 1;
            }
            let ghost before = fish_groups@;
            fish_groups.push(group);
            assert forall|h: int, j: int|
                0 <= h < tiers_view(fish_groups@).len() && 0 <= j < tiers_view(
                    fish_groups@,
                )[h].len() implies #[trigger] tiers_view(fish_groups@)[h][j].wf() by {
                if h < g {
                    assert(fish_groups@[h] == before[h]);
                    assert(tiers_view(before)[h][j].wf());
                }
            }
            assert(fish_groups@[g as int]@.len() == per_group);
            assert forall|h: int, j: int|
                0 <= h < g + 1 && 0 <= j < fish_groups@[h]@.len() implies #[trigger] new_in_tier(
                    config,
                    h,
                    fish_groups@[h]@[j],
                ) by {
                if h < g {
                    assert(fish_groups@[h] == before[h]);
                }
            }
            g += 1;
        }
        Ecosystem { config, food, fish_groups }
    }

    /// The positions of the predators of tier `group_index`, taken before the tier
    /// moves: those of the tier above, or `None` for the top of the food chain.
    pub fn predator_snapshot(&self, group_index: usize) -> (r: Option<Vec<Vec2>>)
        requires
            self.wf(),
            group_index < self.fish_groups@.len(),
        ensures
            r is None <==> group_index + 1 == self.fish_groups@.len(),
            snapshot_view(r) == snapshot_of(tiers_view(self.fish_groups@), group_index as int),
            r matches Some(v) ==> points_placed(v@),
    {
        if group_index + 1 == self.fish_groups.len() {
            return None;
        }
        let above = &self.fish_groups[group_index + 1];
        let ghost tv = tiers_view(self.fish_groups@);
        let mut out: Vec<Vec2> = Vec::new();
        let mut i: usize = 0;
        while i < above.len()
            invariant
                i <= above@.len(),
                above@ == tv[group_index + 1],
                all_tiers_wf(tv),
                group_index + 1 < tv.len(),
                out@ == positions(above@).subrange(0, i as int),
                points_placed(out@),
            decreases above@.len() - i,
        {
            assert(tv[group_index + 1][i as int].wf());
            out.push(above[i].pos);
            assert(out@ =~= positions(above@).subrange(0, i + 1));
            i += 1;
        }
        assert(out@ =~= positions(above@));
        Some(out)
    }

    /// Removes the dead fish of tier `group_index`, keeping the order of the others.
    pub fn prune(&mut self, group_index: usize)
        requires
            old(self).wf(),
            group_index < old(self).fish_groups@.len(),
        ensures
            final(self).wf(),
            final(self).config == old(self).config,
            final(self).food@ == old(self).food@,
            tiers_view(final(self).fish_groups@) == tiers_view(old(self).fish_groups@).update(
                group_index as int,
                living(old(self).fish_groups@[group_index as int]@),
            ),
            total_fish(tiers_view(final(self).fish_groups@)) <= total_fish(
                tiers_view(old(self).fish_groups@),
            ),
    {
        let ghost tv = tiers_view(self.fish_groups@);
        let mut kept: Vec<Fish> = Vec::new();
        let mut i: usize = 0;
        let n = self.fish_groups[group_index].len();
        while i < n
            invariant
                self.wf(),
                tv == tiers_view(self.fish_groups@),
                group_index < tv.len(),
                n == tv[group_index as int].len(),
                i <= n,
                kept@ == living(tv[group_index as int].subrange(0, i as int)),
                forall|j: int| 0 <= j < kept@.len() ==> #[trigger] kept@[j].wf(),
            decreases n - i,
        {
            let ghost s = tv[group_index as int];
            let f = self.fish_groups[group_index][i];
            assert(s.subrange(0, i + 1).drop_last() =~= s.subrange(0, i as int));
            assert(s.subrange(0, i + 1).last() == s[i as int]);
            proof {
                reveal_with_fuel(Seq::filter, 1);
            }
            assert(s[i as int].wf());
            if f.is_alive() {
                kept.push(f);
            }
            i += 1;
        }
        assert(tv[group_index as int].subrange(0, n as int) =~= tv[group_index as int]);
        let ghost before = self.fish_groups@;
        self.fish_groups.set(group_index, kept);
        assert(tiers_view(self.fish_groups@) =~= tv.update(group_index as int, kept@));
        assert forall|h: int, j: int|
            0 <= h < tiers_view(self.fish_groups@).len() && 0 <= j < tiers_view(
                self.fish_groups@,
            )[h].len() implies #[trigger] tiers_view(self.fish_groups@)[h][j].wf() by {
            if h != group_index {
                assert(tiers_view(self.fish_groups@)[h] == tv[h]);
            }
        }
        proof {
            let s = tv[group_index as int];
            s.lemma_filter_len(|f: Fish| f.alive());
            lemma_total_fish_update(tv, group_index as int, kept@);
        }
    }

    /// Runs one frame for the fish of tier `group_index`, in order: each one feeds on
    /// the food and the tiers below (`behave`), reacts to the predator snapshot, is
    /// steered back from the window's edges (`bound`) and moves (`update`); each turn
    /// sees the food and prey as the turns before it left them. Then `newborn`, if
    /// any, joins the end of the tier, so it does not act in the frame it was born
    /// in. Higher tiers are untouched.
    pub fn step_group(
        &mut self,
        group_index: usize,
        predator_positions: &Option<Vec<Vec2>>,
        newborn: Option<Fish>,
    )
        requires
            old(self).wf(),
            group_index < old(self).fish_groups@.len(),
            predator_positions matches Some(p) ==> points_placed(p@),
            newborn matches Some(f) ==> f.wf(),
        ensures
            final(self).wf(),
            final(self).config == old(self).config,
            final(self).fish_groups@.len() == old(self).fish_groups@.len(),
            tier_ran(
                old(self).config,
                snapshot_view(*predator_positions),
                old(self).fish_groups@[group_index as int]@,
                old(self).food@,
                tiers_view(old(self).fish_groups@).subrange(0, group_index as int),
                final(self).fish_groups@[group_index as int]@.subrange(
                    0,
                    old(self).fish_groups@[group_index as int]@.len() as int,
                ),
                final(self).food@,
                tiers_view(final(self).fish_groups@).subrange(0, group_index as int),
            ),
            forall|h: int|
                group_index < h < old(self).fish_groups@.len()
                    ==> #[trigger] final(self).fish_groups@[h]@ == old(self).fish_groups@[h]@,
            final(self).fish_groups@[group_index as int]@.len()
                == old(self).fish_groups@[group_index as int]@.len() + (if newborn is Some { 1int } else { 0int }),
            newborn matches Some(f) ==> final(self).fish_groups@[group_index as int]@.last() == f,
            final(self).food@.len() <= old(self).food@.len(),
            total_fish(tiers_view(final(self).fish_groups@)) <= total_fish(
                tiers_view(old(self).fish_groups@),
            ) + (if newborn is Some { 1int } else { 0int }),
    {
        let ghost old_groups = self.fish_groups@;
        let ghost ov = tiers_view(self.fish_groups@);
        let ghost food0 = self.food@;
        let ghost lower0 = ov.subrange(0, group_index as int);
        let ghost before = ov[group_index as int];
        let mut upper = self.fish_groups.split_off(group_index);
        let mut current = upper.remove(0);
        let ghost rest = upper@;
        assert(current@ == before);
        assert(forall|h: int| 0 <= h < rest.len() ==> rest[h] == old_groups[group_index + 1 + h]);
        assert(tiers_view(self.fish_groups@) =~= lower0);
        let n = current.len();
        let eating_radius = self.config.fish.eating_radius;
        let window = self.config.window_size;
        let padding = self.config.boundary_padding;
        let ghost mut foods: Seq<Seq<Food>> = seq![food0];
        let ghost mut preys: Seq<Seq<Seq<Fish>>> = seq![lower0];
        let mut i: usize = 0;
        while i < n
            invariant
                self.config == old(self).config,
                self.config.valid(),
                all_food_wf(self.food@),
                self.fish_groups@.len() == group_index,
                all_tiers_wf(tiers_view(self.fish_groups@)),
                upper@ == rest,
                i <= n,
                current@.len() == n,
                group_index < ov.len(),
                before == ov[group_index as int],
                n == before.len(),
                forall|k: int| 0 <= k < n ==> #[trigger] current@[k].wf(),
                forall|k: int| i <= k < n ==> #[trigger] current@[k] == before[k],
                predator_positions matches Some(p) ==> points_placed(p@),
                eating_radius == self.config.fish.eating_radius,
                window == self.config.window_size,
                padding == self.config.boundary_padding,
                self.food@.len() <= food0.len(),
                forall|h: int|
                    0 <= h < group_index ==> #[trigger] self.fish_groups@[h]@.len()
                        <= old_groups[h]@.len(),
                foods.len() == i + 1,
                preys.len() == i + 1,
                foods[0] == food0,
                preys[0] == lower0,
                foods[i as int] == self.food@,
                preys[i as int] == tiers_view(self.fish_groups@),
                forall|k: int|
                    0 <= k < i ==> #[trigger] turn(
                        self.config,
                        snapshot_view(*predator_positions),
                        before[k],
                        foods[k],
                        preys[k],
                        current@[k],
                        foods[k + 1],
                        preys[k + 1],
                    ),
            decreases n - i,
        {
            let mut fish = current[i];
            let ghost before_groups = self.fish_groups@;
            fish.behave(&mut self.food, &mut self.fish_groups, predator_positions, eating_radius);
            proof {
                assert forall|h: int| 0 <= h < group_index implies #[trigger] self.fish_groups@[h]@.len()
                    <= old_groups[h]@.len() by {
                    assert(self.fish_groups@[h]@.len() <= before_groups[h]@.len());
                }
            }
            fish.bound(&window, padding);
            fish.update();
            current.set(i, fish);
            proof {
                foods = foods.push(self.food@);
                preys = preys.push(tiers_view(self.fish_groups@));
                assert(turn(
                    self.config,
                    snapshot_view(*predator_positions),
                    before[i as int],
                    foods[i as int],
                    preys[i as int],
                    current@[i as int],
                    foods[i + 1],
                    preys[i + 1],
                ));
            }
            i += 1;
        }
        let ghost run = current@;
        let ghost lower1 = self.fish_groups@;
        assert(tier_chain(self.config, snapshot_view(*predator_positions), before, run, foods, preys));
        if let Some(f) = newborn {
            current.push(f);
        }
        let ghost done = current@;
        assert(done.subrange(0, n as int) =~= run);
        upper.insert(0, current);
        assert(upper@[0]@ == done);
        let ghost top = upper@;
        self.fish_groups.append(&mut upper);
        assert(self.fish_groups@ == lower1 + top);
        assert(self.fish_groups@[group_index as int]@ == done);
        assert(tiers_view(self.fish_groups@).subrange(0, group_index as int) =~= tiers_view(lower1));
        assert forall|h: int| group_index < h < self.fish_groups@.len() implies #[trigger] self.fish_groups@[h]@ == old_groups[h]@ by {
            assert(self.fish_groups@[h] == top[h - group_index]);
            assert(top[h - group_index] == rest[h - group_index - 1]);
        }
        assert forall|h: int, j: int|
            0 <= h < tiers_view(self.fish_groups@).len() && 0 <= j < tiers_view(
                self.fish_groups@,
            )[h].len() implies #[trigger] tiers_view(self.fish_groups@)[h][j].wf() by {
            if h < group_index {
                assert(self.fish_groups@[h] == lower1[h]);
                assert(tiers_view(lower1)[h][j].wf());
            } else if h > group_index {
                assert(self.fish_groups@[h]@ == ov[h]);
            }
        }
        proof {
            let fv = tiers_view(self.fish_groups@);
            let mid = ov.update(group_index as int, fv[group_index as int]);
            lemma_total_fish_update(ov, group_index as int, fv[group_index as int]);
            assert forall|h: int| 0 <= h < fv.len() implies #[trigger] fv[h].len() <= mid[h].len() by {
                if h < group_index {
                    assert(fv[h] == self.fish_groups@[h]@);
                    assert(self.fish_groups@[h] == lower1[h]);
                }
            }
            lemma_total_fish_le(fv, mid);
        }
    }

    /// The fish that breeds, given one roll per fish of the tier: the first whose roll
    /// succeeded, if any.
    pub fn first_breeder(rolls: &Vec<bool>) -> (r: Option<usize>)
        ensures
            r matches Some(i) ==> i < rolls@.len() && rolls@[i as int] && forall|j: int|
                0 <= j < i ==> !#[trigger] rolls@[j],
            r is None ==> forall|j: int| 0 <= j < rolls@.len() ==> !#[trigger] rolls@[j],
    {
        let mut i: usize = 0;
        while i < rolls.len()
            invariant
                i <= rolls@.len(),
                forall|j: int| 0 <= j < i ==> !#[trigger] rolls@[j],
            decreases rolls@.len() - i,
        {
            if rolls[i] {
                return Some(i);
            }
            i += 1;
        }
        None
    }

    /// The newborn of tier `group_index` given one roll per fish: a mutated clone of
    /// the first fish whose roll succeeded, or none when no roll did.
    pub fn breed_from(&self, group_index: usize, rolls: &Vec<bool>, rng: &mut ThreadRng) -> (r: Option<Fish>)
        requires
            self.wf(),
            group_index < self.fish_groups@.len(),
            rolls@.len() == self.fish_groups@[group_index as int]@.len(),
        ensures
            r is Some <==> exists|j: int| 0 <= j < rolls@.len() && #[trigger] rolls@[j],
            forall|i: int|
                #[trigger] first_success(rolls@, i) ==> (r matches Some(f) && is_offspring(
                    self.fish_groups@[group_index as int]@[i],
                    f,
                )),
            r matches Some(f) ==> f.wf() && has_parent(self.fish_groups@[group_index as int]@, f),
    {
        let group = &self.fish_groups[group_index];
        let ghost tv = tiers_view(self.fish_groups@);
        assert(group@ == tv[group_index as int]);
        match Self::first_breeder(rolls) {
            Some(i) => {
                assert(tv[group_index as int][i as int].wf());
                let child = group[i].clone(rng, self.config.fish.mutation_rate);
                assert(is_offspring(self.fish_groups@[group_index as int]@[i as int], child));
                assert(has_parent(self.fish_groups@[group_index as int]@, child));
                assert forall|k: int| #[trigger] first_success(rolls@, k) implies k == i by {
                    if k < i {
                        assert(!rolls@[k]);
                    } else if k > i {
                        assert(!rolls@[i as int]);
                    }
                }
                Some(child)
            },
            None => {
                assert forall|k: int| !#[trigger] first_success(rolls@, k) by {}
                None
            },
        }
    }

    /// Chooses this frame's newborn for tier `group_index`: each fish of the tier
    /// gets one chance in `BREED_ODDS`, and `breed_from` clones the first that
    /// succeeds; at most one fish per tier breeds in a frame.
    pub fn breed(&self, group_index: usize, rng: &mut ThreadRng) -> (r: Option<Fish>)
        requires
            self.wf(),
            group_index < self.fish_groups@.len(),
        ensures
            r matches Some(f) ==> f.wf() && f.health == crate::geometry::ONE,
            r matches Some(f) ==> has_parent(self.fish_groups@[group_index as int]@, f),
    {
        let n = self.fish_groups[group_index].len();
        let mut rolls: Vec<bool> = Vec::new();
        let mut k: usize = 0;
        while k < n
            invariant
                k <= n,
                rolls@.len() == k,
            decreases n - k,
        {
            rolls.push(random_ratio(rng, 1, BREED_ODDS));
            k += 1;
        }
        self.breed_from(group_index, &rolls, rng)
    }

    /// Advances the simulation by one frame.
    ///
    /// With one chance in `FOOD_SPAWN_ODDS` a piece of food appears. Then each tier,
    /// from the lowest up, takes its turn: the positions of the tier above are taken
    /// as its predator snapshot (none for the top tier), its dead fish are removed,
    /// the newborn of the frame is chosen, and `step_group` runs it.
    pub fn update(&mut self, rng: &mut ThreadRng)
        requires
            old(self).wf(),
        ensures
            final(self).wf(),
            final(self).config == old(self).config,
            frame_ran(
                old(self).config,
                old(self).food@,
                tiers_view(old(self).fish_groups@),
                final(self).food@,
                tiers_view(final(self).fish_groups@),
            ),
            final(self).food@.len() <= old(self).food@.len() + 1,
            total_fish(tiers_view(final(self).fish_groups@)) <= total_fish(
                tiers_view(old(self).fish_groups@),
            ) + old(self).config.fish.total_food_chain_links,
    {
        let ghost food0 = self.food@.len();
        let ghost fish0 = total_fish(tiers_view(self.fish_groups@));
        if random_ratio(rng, 1, FOOD_SPAWN_ODDS) {
            Self::add_food(&mut self.food, &self.config, rng);
        }
        assert(food_spawned(self.config, old(self).food@, self.food@));
        let ghost mut foods: Seq<Seq<Food>> = seq![self.food@];
        let ghost mut stages: Seq<Seq<Seq<Fish>>> = seq![tiers_view(self.fish_groups@)];
        let links = self.config.fish.total_food_chain_links;
        let mut g: usize = 0;
        while g < links
            invariant
                self.wf(),
                self.config == old(self).config,
                links == self.fish_groups@.len(),
                links == old(self).config.fish.total_food_chain_links,
                g <= links,
                self.food@.len() <= food0 + 1,
                total_fish(tiers_view(self.fish_groups@)) <= fish0 + g,
                foods.len() == g + 1,
                stages.len() == g + 1,
                food_spawned(self.config, old(self).food@, foods[0]),
                stages[0] == tiers_view(old(self).fish_groups@),
                foods[g as int] == self.food@,
                stages[g as int] == tiers_view(self.fish_groups@),
                forall|k: int|
                    0 <= k < g ==> #[trigger] tier_frame(
                        self.config,
                        foods[k],
                        stages[k],
                        k,
                        foods[k + 1],
                        stages[k + 1],
                    ),
            decreases links - g,
        {
            let ghost groups = tiers_view(self.fish_groups@);
            let predator_positions = self.predator_snapshot(g);
            self.prune(g);
            let ghost pruned_groups = tiers_view(self.fish_groups@);
            let ghost mid = self.fish_groups@;
            let newborn = self.breed(g, rng);
            self.step_group(g, &predator_positions, newborn);
            proof {
                let after = tiers_view(self.fish_groups@);
                let pruned = living(groups[g as int]);
                assert(pruned_groups[g as int] == pruned);
                assert(pruned_groups.subrange(0, g as int) =~= groups.subrange(0, g as int));
                assert(after[g as int] == self.fish_groups@[g as int]@);
                foods = foods.push(self.food@);
                stages = stages.push(after);
                assert forall|h: int| g < h < groups.len() implies #[trigger] after[h] == groups[h] by {
                    assert(after[h] == self.fish_groups@[h]@);
                    assert(self.fish_groups@[h]@ == mid[h]@);
                    assert(pruned_groups[h] == mid[h]@);
                    assert(pruned_groups[h] == groups[h]);
                }
                assert(tier_frame(self.config, foods[g as int], stages[g as int], g as int, foods[g + 1], stages[g + 1]));
            }
            g += 1;
        }
        assert(frame_chain(self.config, foods, stages));
    }
}

} // verus!
