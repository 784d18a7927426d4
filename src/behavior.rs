//! Perception and consumption: a fish finds the nearest food or prey, steers toward
//! it and eats it when close enough; it also steers relative to predators and back
//! toward the middle of the window.
use vstd::prelude::*;

use crate::entity::{eligible, is_nearest, nearest, Entity, WORLD_LIMIT};
use crate::fish::{
    accumulate, avoid_force, healed, points_placed, seek_force, Fish, HEAL, RADIUS_PER_SCALE,
};
use crate::food::{Food, RADIUS_LIMIT};
use crate::geometry::{dist_sq, in_box, length_sq, vadd, weight, weighted, within, Vec2, ONE};

verus! {

/// Something a fish can eat: a piece of food by its index, or a prey fish by its tier
/// (among the prey tiers) and its index in that tier.
#[derive(Clone, Copy, Debug, PartialEq, Eq, Structural)]
pub enum Target {
    Food(usize),
    Prey(usize, usize),
}

/// The contents of each tier.
pub open spec fn tiers_view(tiers: Seq<Vec<Fish>>) -> Seq<Seq<Fish>> {
    tiers.map_values(|t: Vec<Fish>| t@)
}

/// Every piece of food is well formed.
pub open spec fn all_food_wf(food: Seq<Food>) -> bool {
    forall|i: int| 0 <= i < food.len() ==> #[trigger] food[i].wf()
}

/// Every fish of every tier is well formed.
pub open spec fn all_tiers_wf(tiers: Seq<Seq<Fish>>) -> bool {
    forall|g: int, i: int|
        0 <= g < tiers.len() && 0 <= i < tiers[g].len() ==> #[trigger] tiers[g][i].wf()
}

/// Food comes first, then the prey tiers from the lowest up.
pub open spec fn target_rank(t: Target) -> int {
    match t {
        Target::Food(_) => 0,
        Target::Prey(g, _) => g + 1,
    }
}

/// The order in which candidates are looked at: all food in order, then each prey
/// tier in order.
pub open spec fn target_before(a: Target, b: Target) -> bool {
    match (a, b) {
        (Target::Food(i), Target::Food(j)) => i < j,
        (Target::Food(_), Target::Prey(_, _)) => true,
        (Target::Prey(_, _), Target::Food(_)) => false,
        (Target::Prey(g, i), Target::Prey(h, j)) => g < h || (g == h && i < j),
    }
}

pub open spec fn target_loc(food: Seq<Food>, prey: Seq<Seq<Fish>>, t: Target) -> (int, int) {
    match t {
        Target::Food(i) => food[i as int].pos@,
        Target::Prey(g, i) => prey[g as int][i as int].pos@,
    }
}

pub open spec fn target_size(food: Seq<Food>, prey: Seq<Seq<Fish>>, t: Target) -> int {
    match t {
        Target::Food(i) => food[i as int].radius as int,
        Target::Prey(g, i) => prey[g as int][i as int].scale * RADIUS_PER_SCALE,
    }
}

pub open spec fn target_dist(me: Fish, food: Seq<Food>, prey: Seq<Seq<Fish>>, t: Target) -> int {
    dist_sq(target_loc(food, prey, t), me.pos@)
}

/// A candidate `me` may go for: any piece of food, wherever it is; a prey fish only
/// within the prey perception radius.
pub open spec fn edible(me: Fish, food: Seq<Food>, prey: Seq<Seq<Fish>>, t: Target) -> bool {
    match t {
        Target::Food(i) => i < food.len(),
        Target::Prey(g, i) => g < prey.len() && i < prey[g as int].len() && within(
            dist_sq(prey[g as int][i as int].pos@, me.pos@),
            me.dna.prey_perception as int,
        ),
    }
}

/// `t` is the nearest candidate among those of rank below `ranks`, and the first one
/// among candidates at the same distance.
pub open spec fn nearest_among(
    me: Fish,
    food: Seq<Food>,
    prey: Seq<Seq<Fish>>,
    t: Target,
    ranks: int,
) -> bool {
    &&& edible(me, food, prey, t)
    &&& target_rank(t) < ranks
    &&& forall|c: Target|
        #[trigger] edible(me, food, prey, c) && target_rank(c) < ranks ==> target_dist(
            me,
            food,
            prey,
            t,
        ) <= target_dist(me, food, prey, c) && (target_before(c, t) ==> target_dist(
            me,
            food,
            prey,
            t,
        ) < target_dist(me, food, prey, c))
}

/// The nearest candidate over food and all prey tiers, the first found among equals.
pub open spec fn nearest_target(me: Fish, food: Seq<Food>, prey: Seq<Seq<Fish>>) -> Option<Target> {
    if exists|c: Target| edible(me, food, prey, c) {
        Some(choose|t: Target| #[trigger] nearest_among(me, food, prey, t, prey.len() as int + 1))
    } else {
        None
    }
}

/// `me` is close enough to eat `t`: the distance is at most the target's radius plus
/// the eating radius.
pub open spec fn devours(
    me: Fish,
    food: Seq<Food>,
    prey: Seq<Seq<Fish>>,
    t: Target,
    eating_radius: int,
) -> bool {
    within(target_dist(me, food, prey, t), target_size(food, prey, t) + eating_radius)
}

/// What `me` eats this frame, if anything: the nearest candidate, when close enough.
pub open spec fn meal(me: Fish, food: Seq<Food>, prey: Seq<Seq<Fish>>, eating_radius: int) -> Option<
    Target,
> {
    match nearest_target(me, food, prey) {
        Some(t) => if devours(me, food, prey, t, eating_radius) {
            Some(t)
        } else {
            None
        },
        None => None,
    }
}

/// The steering force toward the nearest candidate, weighted by the prey gene; zero
/// when there is none.
pub open spec fn eat_force(me: Fish, food: Seq<Food>, prey: Seq<Seq<Fish>>) -> (int, int) {
    match nearest_target(me, food, prey) {
        Some(t) => weighted(seek_force(me, target_loc(food, prey, t)), me.dna.prey_attraction as int),
        None => (0, 0),
    }
}

/// How many fish the tiers hold in all.
pub open spec fn total_fish(tiers: Seq<Seq<Fish>>) -> int
    decreases tiers.len(),
{
    if tiers.len() == 0 {
        0
    } else {
        total_fish(tiers.drop_last()) + tiers.last().len()
    }
}

pub proof fn lemma_total_fish_update(tiers: Seq<Seq<Fish>>, g: int, tier: Seq<Fish>)
    requires
        0 <= g < tiers.len(),
    ensures
        total_fish(tiers.update(g, tier)) == total_fish(tiers) - tiers[g].len() + tier.len(),
    decreases tiers.len(),
{
    let u = tiers.update(g, tier);
    if g == tiers.len() - 1 {
        assert(u.drop_last() =~= tiers.drop_last());
    } else {
        assert(u.drop_last() =~= tiers.drop_last().update(g, tier));
        lemma_total_fish_update(tiers.drop_last(), g, tier);
    }
}

/// Tiers that each hold no more fish than the matching tier of `b` hold no more
/// fish in all.
pub proof fn lemma_total_fish_le(a: Seq<Seq<Fish>>, b: Seq<Seq<Fish>>)
    requires
        a.len() == b.len(),
        forall|h: int| 0 <= h < a.len() ==> #[trigger] a[h].len() <= b[h].len(),
    ensures
        total_fish(a) <= total_fish(b),
    decreases a.len(),
{
    if a.len() > 0 {
        assert(a.last().len() <= b.last().len());
        let (x, y) = (a.drop_last(), b.drop_last());
        assert forall|h: int| 0 <= h < x.len() implies #[trigger] x[h].len() <= y[h].len() by {
            assert(x[h] == a[h]);
            assert(y[h] == b[h]);
        }
        lemma_total_fish_le(x, y);
    }
}

/// The food that is left after a meal.
pub open spec fn food_left(food: Seq<Food>, eaten: Option<Target>) -> Seq<Food> {
    match eaten {
        Some(Target::Food(i)) => food.remove(i as int),
        _ => food,
    }
}

/// The prey tiers as they are after a meal.
pub open spec fn prey_left(prey: Seq<Seq<Fish>>, eaten: Option<Target>) -> Seq<Seq<Fish>> {
    match eaten {
        Some(Target::Prey(g, i)) => prey.update(g as int, prey[g as int].remove(i as int)),
        _ => prey,
    }
}

/// Health after a meal, if there was one.
pub open spec fn health_after_meal(h: int, eaten: Option<Target>) -> int {
    if eaten is Some {
        healed(h)
    } else {
        h
    }
}

/// The positions a predator snapshot holds, if there is one.
pub open spec fn snapshot_view(predators: Option<Vec<Vec2>>) -> Option<Seq<Vec2>> {
    match predators {
        Some(p) => Some(p@),
        None => None,
    }
}

/// The force from the predator snapshot: none without predators.
pub open spec fn flight_force(me: Fish, predators: Option<Seq<Vec2>>) -> (int, int) {
    match predators {
        Some(p) => avoid_force(me, p),
        None => (0, 0),
    }
}

/// The fish is within `padding` of an edge of the window (or outside it).
pub open spec fn out_of_bounds(p: (int, int), window: (i64, i64), padding: i64) -> bool {
    p.0 < padding || p.0 > window.0 - padding || p.1 < padding || p.1 > window.1 - padding
}

proof fn lemma_before_total(a: Target, b: Target)
    requires
        a != b,
    ensures
        target_before(a, b) || target_before(b, a),
{
}

proof fn lemma_target_unique(
    me: Fish,
    food: Seq<Food>,
    prey: Seq<Seq<Fish>>,
    a: Target,
    b: Target,
    ranks: int,
)
    requires
        nearest_among(me, food, prey, a, ranks),
        nearest_among(me, food, prey, b, ranks),
    ensures
        a == b,
{
    if a != b {
        lemma_before_total(a, b);
        assert(edible(me, food, prey, a));
        assert(edible(me, food, prey, b));
    }
}

/// The nearest-first candidate over food and all prey tiers is the one
/// `nearest_target` names, and so the one `eat` goes for.
pub proof fn lemma_nearest_target(me: Fish, food: Seq<Food>, prey: Seq<Seq<Fish>>, t: Target)
    requires
        nearest_among(me, food, prey, t, prey.len() as int + 1),
    ensures
        nearest_target(me, food, prey) == Some(t),
{
    assert(edible(me, food, prey, t));
    let u = choose|u: Target| #[trigger] nearest_among(me, food, prey, u, prey.len() as int + 1);
    lemma_target_unique(me, food, prey, t, u, prey.len() as int + 1);
}

proof fn lemma_rank_bound(me: Fish, food: Seq<Food>, prey: Seq<Seq<Fish>>, c: Target)
    requires
        edible(me, food, prey, c),
    ensures
        target_rank(c) < prey.len() + 1,
{
}

/// Extends the search over one more prey tier.
proof fn lemma_search_step(
    me: Fish,
    food: Seq<Food>,
    prey: Seq<Seq<Fish>>,
    g: usize,
    best: Option<Target>,
    best_d: int,
    found: Option<usize>,
    next: Option<Target>,
)
    requires
        0 <= g < prey.len(),
        best is None ==> forall|c: Target| #[trigger]
            edible(me, food, prey, c) ==> target_rank(c) >= g + 1,
        best matches Some(t) ==> nearest_among(me, food, prey, t, g + 1) && best_d == target_dist(
            me,
            food,
            prey,
            t,
        ),
        found matches Some(i) ==> is_nearest(
            me.pos@,
            prey[g as int],
            Some(me.dna.prey_perception),
            i as int,
        ),
        found is None ==> forall|j: int|
            !#[trigger] eligible(me.pos@, prey[g as int], Some(me.dna.prey_perception), j),
        next == (match found {
            Some(i) => if best is None || dist_sq(prey[g as int][i as int].pos@, me.pos@) < best_d {
                Some(Target::Prey(g, i))
            } else {
                best
            },
            None => best,
        }),
    ensures
        next is None ==> forall|c: Target| #[trigger]
            edible(me, food, prey, c) ==> target_rank(c) >= g + 2,
        next matches Some(t) ==> nearest_among(me, food, prey, t, g + 2),
{
    let reach = Some(me.dna.prey_perception);
    assert forall|c: Target| #[trigger] edible(me, food, prey, c) && target_rank(c) == g + 1 implies (
    match c {
        Target::Prey(h, j) => h == g && eligible(me.pos@, prey[g as int], reach, j as int),
        _ => false,
    }) by {}
    if let Some(i) = found {
        let p = Target::Prey(g, i);
        assert(eligible(me.pos@, prey[g as int], reach, i as int));
        assert(edible(me, food, prey, p));
        assert forall|c: Target| #[trigger]
            edible(me, food, prey, c) && target_rank(c) == g + 1 implies target_dist(
            me,
            food,
            prey,
            p,
        ) <= target_dist(me, food, prey, c) && (target_before(c, p) ==> target_dist(
            me,
            food,
            prey,
            p,
        ) < target_dist(me, food, prey, c)) by {
            if let Target::Prey(h, j) = c {
                assert(eligible(me.pos@, prey[g as int], reach, j as int));
            }
        }
        if best is None || dist_sq(prey[g as int][i as int].pos@, me.pos@) < best_d {
            assert(next == Some(p));
            assert forall|c: Target| #[trigger]
                edible(me, food, prey, c) && target_rank(c) < g + 2 implies target_dist(
                me,
                food,
                prey,
                p,
            ) <= target_dist(me, food, prey, c) && (target_before(c, p) ==> target_dist(
                me,
                food,
                prey,
                p,
            ) < target_dist(me, food, prey, c)) by {
                if target_rank(c) < g + 1 {
                    assert(best is Some);
                }
            }
        } else {
            let t = best.unwrap();
            assert(next == Some(t));
            assert forall|c: Target| #[trigger]
                edible(me, food, prey, c) && target_rank(c) < g + 2 implies target_dist(
                me,
                food,
                prey,
                t,
            ) <= target_dist(me, food, prey, c) && (target_before(c, t) ==> target_dist(
                me,
                food,
                prey,
                t,
            ) < target_dist(me, food, prey, c)) by {
                if target_rank(c) == g + 1 {
                    assert(target_rank(t) < g + 1);
                    assert(!target_before(c, t));
                }
            }
        }
    } else {
        assert forall|c: Target| #[trigger] edible(me, food, prey, c) implies target_rank(c) != g
            + 1 by {
            if let Target::Prey(h, j) = c {
                if h == g {
                    assert(eligible(me.pos@, prey[g as int], reach, j as int));
                }
            }
        }
    }
}

impl Fish {
    /// Finds the nearest candidate over `food` (at any distance) and the `prey` tiers
    /// (within the prey perception radius), the first found among equals.
    fn nearest_meal(&self, food: &Vec<Food>, prey: &Vec<Vec<Fish>>) -> (r: (Option<Target>, i64))
        requires
            self.wf(),
            all_food_wf(food@),
            all_tiers_wf(tiers_view(prey@)),
        ensures
            r.0 == nearest_target(*self, food@, tiers_view(prey@)),
            r.0 matches Some(t) ==> r.1 == target_dist(*self, food@, tiers_view(prey@), t)
                && edible(*self, food@, tiers_view(prey@), t),
    {
        let ghost pv = tiers_view(prey@);
        let ghost me = *self;
        assert(crate::entity::all_placed(food@));
        let f = nearest(self.pos, food, None);
        let mut best: Option<Target> = None;
        let mut best_d: i64 = 0;
        if let Some(i) = f {
            best = Some(Target::Food(i));
            assert(food@[i as int].wf());
            let p = food[i].pos;
            best_d = length_sq(Vec2 { x: p.x - self.pos.x, y: p.y - self.pos.y });
            assert(eligible(me.pos@, food@, None, i as int));
            assert forall|c: Target| #[trigger]
                edible(me, food@, pv, c) && target_rank(c) < 1 implies target_dist(
                me,
                food@,
                pv,
                Target::Food(i),
            ) <= target_dist(me, food@, pv, c) && (target_before(c, Target::Food(i))
                ==> target_dist(me, food@, pv, Target::Food(i)) < target_dist(me, food@, pv, c)) by {
                if let Target::Food(j) = c {
                    assert(eligible(me.pos@, food@, None, j as int));
                }
            }
        } else {
            assert forall|c: Target| #[trigger] edible(me, food@, pv, c) implies target_rank(c)
                >= 1 by {
                if let Target::Food(j) = c {
                    assert(eligible(me.pos@, food@, None, j as int));
                }
            }
        }
        let mut g: usize = 0;
        while g < prey.len()
            invariant
                g <= prey.len(),
                me == *self,
                pv == tiers_view(prey@),
                self.wf(),
                all_tiers_wf(pv),
                best is None ==> forall|c: Target| #[trigger]
                    edible(me, food@, pv, c) ==> target_rank(c) >= g + 1,
                best matches Some(t) ==> nearest_among(me, food@, pv, t, g + 1) && best_d
                    == target_dist(me, food@, pv, t),
            decreases prey.len() - g,
        {
            assert(pv[g as int] == prey@[g as int]@);
            assert(crate::entity::all_placed(prey@[g as int]@));
            let found = nearest(self.pos, &prey[g], Some(self.dna.prey_perception));
            let ghost old_best = best;
            let ghost old_d = best_d;
            if let Some(i) = found {
                assert(pv[g as int][i as int].wf());
                let p = prey[g][i].pos;
                let d = length_sq(Vec2 { x: p.x - self.pos.x, y: p.y - self.pos.y });
                let better = match best {
                    None => true,
                    Some(_) => d < best_d,
                };
                if better {
                    best = Some(Target::Prey(g, i));
                    best_d = d;
                }
            }
            proof {
                lemma_search_step(me, food@, pv, g, old_best, old_d as int, found, best);
            }
            g += 1;
        }
        proof {
            if let Some(t) = best {
                lemma_nearest_target(me, food@, pv, t);
            } else {
                assert forall|c: Target| !#[trigger] edible(me, food@, pv, c) by {
                    if edible(me, food@, pv, c) {
                        lemma_rank_bound(me, food@, pv, c);
                    }
                }
            }
        }
        (best, best_d)
    }
}

impl Fish {
    /// Steers toward the nearest food or prey and eats it when close enough.
    ///
    /// The nearest candidate is searched over all of `food` and over the fish of the
    /// `prey` tiers within the prey perception radius; the first found wins among
    /// candidates at the same distance. Returns the seek force toward it weighted by
    /// the prey gene (zero when there is no candidate). When the distance is at most
    /// the candidate's radius plus `eating_radius`, the candidate is removed from its
    /// collection and the fish gains `HEAL` health, up to full health.
    pub fn eat(&mut self, food: &mut Vec<Food>, prey: &mut Vec<Vec<Fish>>, eating_radius: i64) -> (force: Vec2)
        requires
            old(self).wf(),
            all_food_wf(old(food)@),
            all_tiers_wf(tiers_view(old(prey)@)),
            0 <= eating_radius <= RADIUS_LIMIT,
        ensures
            force@ == eat_force(*old(self), old(food)@, tiers_view(old(prey)@)),
            final(food)@ == food_left(
                old(food)@,
                meal(*old(self), old(food)@, tiers_view(old(prey)@), eating_radius as int),
            ),
            tiers_view(final(prey)@) == prey_left(
                tiers_view(old(prey)@),
                meal(*old(self), old(food)@, tiers_view(old(prey)@), eating_radius as int),
            ),
            final(self).health == health_after_meal(
                old(self).health as int,
                meal(*old(self), old(food)@, tiers_view(old(prey)@), eating_radius as int),
            ),
            final(self).same_body(*old(self)),
            final(self).acc == old(self).acc,
            final(self).wf(),
            all_food_wf(final(food)@),
            all_tiers_wf(tiers_view(final(prey)@)),
            final(prey)@.len() == old(prey)@.len(),
            final(food)@.len() <= old(food)@.len(),
            forall|h: int|
                0 <= h < final(prey)@.len() ==> #[trigger] final(prey)@[h]@.len() <= old(prey)@[h]@.len(),
            final(food)@.len() + total_fish(tiers_view(final(prey)@)) + (if meal(*old(self), old(food)@, tiers_view(old(prey)@), eating_radius as int) is Some { 1int } else { 0int })
                == old(food)@.len() + total_fish(tiers_view(old(prey)@)),
            in_box(force@, 0x1000_0000_0000),
    {
        let ghost me = *self;
        let ghost f0 = food@;
        let ghost p0 = tiers_view(prey@);
        let (best, best_d) = self.nearest_meal(food, prey);
        match best {
            None => Vec2::zero(),
            Some(t) => {
                let (loc, size) = match t {
                    Target::Food(i) => {
                        assert(f0[i as int].wf());
                        (food[i].pos, food[i].radius)
                    },
                    Target::Prey(g, i) => {
                        assert(p0[g as int] == prey@[g as int]@);
                        assert(p0[g as int][i as int].wf());
                        (prey[g][i].pos, prey[g][i].radius())
                    },
                };
                let s = self.seek(loc);
                proof {
                    crate::fish::lemma_weighted_bound(s@, self.dna.prey_attraction as int);
                }
                let steer = weight(s, self.dna.prey_attraction);
                let reach = size + eating_radius;
                assert(0 <= reach * reach <= 0x4_0000_0000_0000) by (nonlinear_arith)
                    requires
                        0 <= reach <= 0x200_0000,
                ;
                if best_d <= reach * reach {
                    if self.health + HEAL > ONE {
                        self.health = ONE;
                    } else {
                        self.health = self.health + HEAL;
                    }
                    match t {
                        Target::Food(i) => {
                            food.remove(i);
                            assert forall|k: int| 0 <= k < food@.len() implies #[trigger] food@[k].wf() by {
                                if k < i {
                                    assert(food@[k] == f0[k]);
                                } else {
                                    assert(food@[k] == f0[k + 1]);
                                }
                            }
                        },
                        Target::Prey(g, i) => {
                            let ghost before = prey@;
                            prey[g].remove(i);
                            assert forall|h: int| 0 <= h < prey@.len() implies #[trigger] prey@[h]@.len() <= before[h]@.len() by {
                                if h != g {
                                    assert(prey@[h] == before[h]);
                                }
                            }
                            assert(tiers_view(prey@) =~= p0.update(g as int, p0[g as int].remove(i as int)));
                            proof {
                                lemma_total_fish_update(p0, g as int, p0[g as int].remove(i as int));
                            }
                            assert forall|h: int, k: int|
                                0 <= h < tiers_view(prey@).len() && 0 <= k < tiers_view(prey@)[h].len() implies #[trigger] tiers_view(prey@)[h][k].wf() by {
                                if h == g {
                                    if k < i {
                                        assert(tiers_view(prey@)[h][k] == p0[h][k]);
                                    } else {
                                        assert(tiers_view(prey@)[h][k] == p0[h][k + 1]);
                                    }
                                } else {
                                    assert(tiers_view(prey@)[h] == p0[h]);
                                }
                            }
                        },
                    }
                } else {
                    assert(!devours(me, f0, p0, t, eating_radius as int));
                }
                steer
            },
        }
    }

    /// Applies this frame's feeding and predator forces: the force from `eat` plus
    /// the force from `avoid` against the predator snapshot (none when there is no
    /// snapshot) are added to the accumulated force.
    pub fn behave(
        &mut self,
        food: &mut Vec<Food>,
        prey: &mut Vec<Vec<Fish>>,
        predator_positions: &Option<Vec<Vec2>>,
        eating_radius: i64,
    )
        requires
            old(self).wf(),
            all_food_wf(old(food)@),
            all_tiers_wf(tiers_view(old(prey)@)),
            0 <= eating_radius <= RADIUS_LIMIT,
            predator_positions matches Some(p) ==> points_placed(p@),
        ensures
            final(food)@ == food_left(
                old(food)@,
                meal(*old(self), old(food)@, tiers_view(old(prey)@), eating_radius as int),
            ),
            tiers_view(final(prey)@) == prey_left(
                tiers_view(old(prey)@),
                meal(*old(self), old(food)@, tiers_view(old(prey)@), eating_radius as int),
            ),
            final(self).health == health_after_meal(
                old(self).health as int,
                meal(*old(self), old(food)@, tiers_view(old(prey)@), eating_radius as int),
            ),
            final(self).acc@ == accumulate(
                old(self).acc@,
                vadd(
                    eat_force(*old(self), old(food)@, tiers_view(old(prey)@)),
                    flight_force(*old(self), snapshot_view(*predator_positions)),
                ),
            ),
            final(self).same_body(*old(self)),
            final(self).wf(),
            all_food_wf(final(food)@),
            all_tiers_wf(tiers_view(final(prey)@)),
            final(prey)@.len() == old(prey)@.len(),
            final(food)@.len() <= old(food)@.len(),
            forall|h: int|
                0 <= h < final(prey)@.len() ==> #[trigger] final(prey)@[h]@.len() <= old(prey)@[h]@.len(),
    {
        let predator_steer = match predator_positions {
            Some(p) => self.avoid(p),
            None => Vec2::zero(),
        };
        let food_steer = self.eat(food, prey, eating_radius);
        self.apply_force(Vec2 { x: food_steer.x + predator_steer.x, y: food_steer.y + predator_steer.y });
    }

    /// Steers a fish that is within `boundary_padding` of an edge of the window back
    /// toward the window's center, by adding that seek force to the accumulated force.
    pub fn bound(&mut self, window_size: &(i64, i64), boundary_padding: i64)
        requires
            old(self).wf(),
            0 <= window_size.0 <= WORLD_LIMIT,
            0 <= window_size.1 <= WORLD_LIMIT,
            -WORLD_LIMIT <= boundary_padding <= WORLD_LIMIT,
        ensures
            final(self).acc@ == (if out_of_bounds(old(self).pos@, *window_size, boundary_padding) {
                accumulate(
                    old(self).acc@,
                    seek_force(*old(self), (window_size.0 / 2, window_size.1 / 2)),
                )
            } else {
                old(self).acc@
            }),
            final(self).same_body(*old(self)),
            final(self).health == old(self).health,
            final(self).wf(),
    {
        let out_of_bounds = if self.pos.x < boundary_padding {
            true
        } else if self.pos.x > window_size.0 - boundary_padding {
            true
        } else if self.pos.y < boundary_padding {
            true
        } else if self.pos.y > window_size.1 - boundary_padding {
            true
        } else {
            false
        };
        if out_of_bounds {
            let center_steer = self.seek(Vec2 { x: window_size.0 / 2, y: window_size.1 / 2 });
            self.apply_force(center_steer);
        }
    }
}

} // verus!
