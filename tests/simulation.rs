use evolution::ecosystem::{Config, Ecosystem};
use evolution::fish::{Dna, Fish, FishConfig, HEALTH_DECAY, HEAL, MUTATION_STEP};
use evolution::food::{Food, FoodConfig, FOOD_RADIUS};
use evolution::geometry::{ceil_sqrt, limit, set_magnitude, Vec2, ONE};
use evolution::{inverse_map_range, Entity};

fn v(x: i64, y: i64) -> Vec2 {
    Vec2::new(x, y)
}

fn fish_at(x: i64, y: i64) -> Fish {
    Fish {
        animation_index: 0,
        frame_index: 0,
        dna: Dna {
            prey_attraction: ONE,
            predator_attraction: -ONE,
            prey_perception: 50 * ONE,
            predator_perception: 50 * ONE,
        },
        color: (10, 20, 30),
        health: ONE,
        scale: ONE,
        max_speed: 4 * ONE,
        max_steering_force: ONE / 10,
        pos: v(x, y),
        heading: v(0, 0),
        vel: v(0, 0),
        acc: v(0, 0),
    }
}

fn fish_config(links: usize) -> FishConfig {
    FishConfig {
        quantity: 6,
        eating_radius: 2 * ONE,
        mutation_rate: ONE / 10,
        scale_range: (ONE, 4 * ONE),
        max_speed_range: (ONE, 5 * ONE),
        max_steering_force_range: (ONE / 100, ONE / 10),
        total_food_chain_links: links,
        frames_per_animation_frame: 10 * ONE,
    }
}

fn config(links: usize) -> Config {
    Config {
        window_size: (800 * ONE, 600 * ONE),
        boundary_padding: 20 * ONE,
        fish: fish_config(links),
        food: FoodConfig { quantity: 5, radius_range: (5 * ONE, 5 * ONE) },
    }
}

fn norm_sq(f: Vec2) -> i64 {
    f.x * f.x + f.y * f.y
}

#[test]
fn test_inverse_map_range() {
    // The inverse of 1/3 onto 3..12 is 2/3 of the span past the offset of 3: 9.
    let value = inverse_map_range(ONE, (0, 3 * ONE), (3 * ONE, 12 * ONE));
    assert_eq!(value, 9 * ONE);
}

#[test]
fn inverse_map_range_ends_swap() {
    assert_eq!(inverse_map_range(0, (0, 10), (100, 200)), 200);
    assert_eq!(inverse_map_range(10, (0, 10), (100, 200)), 100);
    assert_eq!(inverse_map_range(5, (0, 10), (100, 200)), 150);
}

#[test]
fn ceil_sqrt_rounds_up() {
    assert_eq!(ceil_sqrt(0), 0);
    assert_eq!(ceil_sqrt(1), 1);
    assert_eq!(ceil_sqrt(2), 2);
    assert_eq!(ceil_sqrt(16), 4);
    assert_eq!(ceil_sqrt(17), 5);
    assert_eq!(ceil_sqrt(2_500_000_000), 50_000);
}

#[test]
fn set_magnitude_of_zero_is_zero() {
    assert_eq!(set_magnitude(v(0, 0), 7 * ONE), v(0, 0));
    assert_eq!(set_magnitude(v(3, 4), 10), v(6, 8));
}

#[test]
fn limit_keeps_short_vectors() {
    assert_eq!(limit(v(3, 4), 5), v(3, 4));
    assert_eq!(limit(v(30, 40), 5), v(3, 4));
}

#[test]
fn seek_force_is_bounded_by_max_steering_force() {
    let mut f = fish_at(100 * ONE, 100 * ONE);
    f.vel = v(-3 * ONE, 2 * ONE);
    for target in [v(0, 0), v(700 * ONE, 20 * ONE), v(100 * ONE, 100 * ONE), v(101 * ONE, 99 * ONE)] {
        let force = f.seek(target);
        let m = f.max_steering_force;
        assert!(norm_sq(force) <= m * m);
    }
}

#[test]
fn seek_from_rest_points_at_target() {
    let mut f = fish_at(0, 0);
    f.max_steering_force = 10 * ONE;
    // Desired velocity is (4, 0) at full speed; at rest that is the whole force.
    assert_eq!(f.seek(v(100 * ONE, 0)), v(4 * ONE, 0));
    // The target at the fish's own position gives zero desired velocity.
    assert_eq!(f.seek(v(0, 0)), v(0, 0));
}

#[test]
fn update_clamps_velocity_keeping_direction() {
    let mut f = fish_at(100 * ONE, 100 * ONE);
    f.vel = v(3 * ONE, 4 * ONE);
    f.max_speed = 4 * ONE;
    f.update();
    assert_eq!(f.vel, v(24_000, 32_000));
    assert_eq!(f.heading, f.vel);
    assert_eq!(f.pos, v(100 * ONE + 24_000, 100 * ONE + 32_000));
    assert_eq!(f.acc, v(0, 0));
}

#[test]
fn update_keeps_velocity_within_bound() {
    let mut f = fish_at(0, 0);
    f.vel = v(ONE, -2 * ONE);
    f.update();
    assert_eq!(f.vel, v(ONE, -2 * ONE));
    assert_eq!(f.health, ONE - HEALTH_DECAY);
}

#[test]
fn update_adds_acceleration_then_clears_it() {
    let mut f = fish_at(0, 0);
    f.acc = v(ONE / 10, 0);
    f.update();
    assert_eq!(f.vel, v(ONE / 10, 0));
    assert_eq!(f.acc, v(0, 0));
}

#[test]
fn health_decays_to_death_after_enough_updates() {
    let mut f = fish_at(0, 0);
    for _ in 0..999 {
        f.update();
    }
    assert_eq!(f.health, ONE - 999 * HEALTH_DECAY);
    assert!(f.is_alive());
    f.update();
    assert_eq!(f.health, 0);
    assert!(!f.is_alive());
    f.update();
    assert_eq!(f.health, 0);
}

#[test]
fn eat_consumes_food_in_reach_and_heals() {
    let mut f = fish_at(100 * ONE, 100 * ONE);
    f.health = ONE / 2;
    let mut food = vec![Food::new(v(100 * ONE, 100 * ONE))];
    assert_eq!(food[0].radius, FOOD_RADIUS);
    let mut prey: Vec<Vec<Fish>> = Vec::new();
    f.eat(&mut food, &mut prey, 2 * ONE);
    assert!(food.is_empty());
    assert_eq!(f.health, ONE / 2 + HEAL);
}

#[test]
fn eat_heal_is_capped_at_full_health() {
    let mut f = fish_at(100 * ONE, 100 * ONE);
    f.health = ONE - HEAL / 2;
    let mut food = vec![Food::new(v(100 * ONE, 100 * ONE))];
    let mut prey: Vec<Vec<Fish>> = Vec::new();
    f.eat(&mut food, &mut prey, 2 * ONE);
    assert!(food.is_empty());
    assert_eq!(f.health, ONE);
}

#[test]
fn eat_out_of_reach_steers_without_eating() {
    let mut f = fish_at(0, 0);
    let mut food = vec![Food::new(v(200 * ONE, 0))];
    let mut prey: Vec<Vec<Fish>> = Vec::new();
    let force = f.eat(&mut food, &mut prey, 2 * ONE);
    assert_eq!(food.len(), 1);
    assert_eq!(f.health, ONE);
    assert_eq!(force, v(ONE / 10, 0));
}

#[test]
fn eat_removes_at_most_one_entity() {
    let mut f = fish_at(100 * ONE, 100 * ONE);
    let mut food = vec![
        Food::new(v(101 * ONE, 100 * ONE)),
        Food::new(v(100 * ONE, 101 * ONE)),
        Food::new(v(100 * ONE, 100 * ONE)),
    ];
    let mut prey = vec![vec![fish_at(100 * ONE, 100 * ONE)]];
    f.eat(&mut food, &mut prey, 2 * ONE);
    assert_eq!(food.len() + prey[0].len(), 3);
    // The exact match at distance zero goes first; the prey at the same distance
    // comes later in the search order and stays.
    assert_eq!(food[0].pos, v(101 * ONE, 100 * ONE));
    assert_eq!(food[1].pos, v(100 * ONE, 101 * ONE));
    assert_eq!(prey[0].len(), 1);
}

#[test]
fn eat_tie_goes_to_first_found() {
    let mut f = fish_at(100 * ONE, 100 * ONE);
    let mut food = vec![Food::new(v(103 * ONE, 100 * ONE)), Food::new(v(97 * ONE, 100 * ONE))];
    let mut prey: Vec<Vec<Fish>> = Vec::new();
    f.eat(&mut food, &mut prey, 2 * ONE);
    assert_eq!(food.len(), 1);
    assert_eq!(food[0].pos, v(97 * ONE, 100 * ONE));
}

#[test]
fn eat_hunts_prey_within_perception() {
    let mut f = fish_at(100 * ONE, 100 * ONE);
    let mut food: Vec<Food> = Vec::new();
    let mut prey = vec![vec![fish_at(400 * ONE, 400 * ONE), fish_at(101 * ONE, 100 * ONE)]];
    f.eat(&mut food, &mut prey, 2 * ONE);
    assert_eq!(prey[0].len(), 1);
    assert_eq!(prey[0][0].pos, v(400 * ONE, 400 * ONE));
    assert_eq!(f.health, ONE);
}

#[test]
fn eat_ignores_prey_beyond_perception_but_not_food() {
    let mut f = fish_at(0, 0);
    let mut prey = vec![vec![fish_at(60 * ONE, 0)]];
    let mut none: Vec<Food> = Vec::new();
    let force = f.eat(&mut none, &mut prey, 2 * ONE);
    assert_eq!(force, v(0, 0));
    assert_eq!(prey[0].len(), 1);
    let mut food = vec![Food::new(v(500 * ONE, 0))];
    let force = f.eat(&mut food, &mut prey, 2 * ONE);
    assert_eq!(force, v(ONE / 10, 0));
    assert_eq!(food.len(), 1);
}

#[test]
fn eat_with_nothing_gives_zero() {
    let mut f = fish_at(0, 0);
    let mut food: Vec<Food> = Vec::new();
    let mut prey: Vec<Vec<Fish>> = vec![Vec::new()];
    assert_eq!(f.eat(&mut food, &mut prey, 2 * ONE), v(0, 0));
}

#[test]
fn avoid_without_predators_is_zero() {
    let f = fish_at(0, 0);
    assert_eq!(f.avoid(&Vec::new()), v(0, 0));
}

#[test]
fn avoid_ignores_predators_beyond_perception() {
    let f = fish_at(0, 0);
    assert_eq!(f.avoid(&vec![v(51 * ONE, 0), v(0, 300 * ONE)]), v(0, 0));
}

#[test]
fn avoid_flees_nearest_perceived_predator() {
    let f = fish_at(0, 0);
    // Seek toward (10, 0) at rest is (0.1, 0); the weight -1 turns it around.
    assert_eq!(f.avoid(&vec![v(0, 40 * ONE), v(10 * ONE, 0)]), v(-ONE / 10, 0));
}

#[test]
fn behave_adds_feeding_and_flight_forces() {
    let mut f = fish_at(0, 0);
    let mut food = vec![Food::new(v(0, 200 * ONE))];
    let mut prey: Vec<Vec<Fish>> = Vec::new();
    f.behave(&mut food, &mut prey, &Some(vec![v(10 * ONE, 0)]), 2 * ONE);
    assert_eq!(f.acc, v(-ONE / 10, ONE / 10));
    let mut g = fish_at(0, 0);
    g.behave(&mut food, &mut prey, &None, 2 * ONE);
    assert_eq!(g.acc, v(0, ONE / 10));
}

#[test]
fn bound_steers_back_to_center_near_edges() {
    let mut f = fish_at(5 * ONE, 300 * ONE);
    f.bound(&(800 * ONE, 600 * ONE), 20 * ONE);
    assert_eq!(f.acc, v(ONE / 10, 0));
    let mut g = fish_at(400 * ONE, 300 * ONE);
    g.bound(&(800 * ONE, 600 * ONE), 20 * ONE);
    assert_eq!(g.acc, v(0, 0));
}

#[test]
fn offspring_mutates_only_rolled_genes() {
    let parent = fish_at(10 * ONE, 20 * ONE);
    let rolls = Dna { prey_attraction: 0, predator_attraction: ONE, prey_perception: 500, predator_perception: 999 };
    let offsets = Dna { prey_attraction: MUTATION_STEP, predator_attraction: -MUTATION_STEP, prey_perception: -300, predator_perception: 7 };
    let child = parent.offspring(&rolls, &offsets, v(ONE, 0), 600);
    assert_eq!(child.dna.prey_attraction, ONE + MUTATION_STEP);
    assert_eq!(child.dna.predator_attraction, -ONE);
    assert_eq!(child.dna.prey_perception, 50 * ONE - 300);
    assert_eq!(child.dna.predator_perception, 50 * ONE);
    assert_eq!(child.health, ONE);
    assert_eq!(child.pos, parent.pos);
    assert_eq!(child.heading, v(ONE, 0));
    assert_eq!(child.vel, v(0, 0));
}

#[test]
fn clone_keeps_body_and_bounds_mutations() {
    let mut rng = rand::thread_rng();
    let mut parent = fish_at(10 * ONE, 20 * ONE);
    parent.health = ONE / 3;
    for _ in 0..50 {
        let child = parent.clone(&mut rng, ONE);
        assert_eq!(child.health, ONE);
        assert_eq!(child.scale, parent.scale);
        assert_eq!(child.pos, parent.pos);
        assert!((child.dna.prey_attraction - parent.dna.prey_attraction).abs() <= MUTATION_STEP);
        assert!((child.dna.prey_perception - parent.dna.prey_perception).abs() <= MUTATION_STEP);
        let same = parent.clone(&mut rng, 0);
        assert_eq!(same.dna, parent.dna);
    }
}

#[test]
fn new_fish_respects_configuration() {
    let mut rng = rand::thread_rng();
    let cfg = fish_config(3);
    for g in 0..3usize {
        for _ in 0..20 {
            let f = Fish::new(&cfg, &g, &(800 * ONE, 600 * ONE), &mut rng);
            let lo = ONE + ONE * g as i64;
            assert!(lo <= f.scale && f.scale < lo + ONE);
            assert_eq!(f.max_speed, inverse_map_range(f.scale, cfg.scale_range, cfg.max_speed_range));
            assert!(0 <= f.pos.x && f.pos.x < 800 * ONE);
            assert!(0 <= f.pos.y && f.pos.y < 600 * ONE);
            assert_eq!(f.health, ONE);
            assert!(10 * ONE <= f.dna.prey_perception && f.dna.prey_perception < 100 * ONE);
            assert_eq!(f.radius(), f.scale * 12);
        }
    }
}

#[test]
fn degenerate_configuration_is_rejected() {
    let mut cfg = config(2);
    assert!(cfg.is_valid());
    cfg.fish.scale_range = (2 * ONE, 2 * ONE);
    assert!(!cfg.is_valid());
    let mut cfg = config(2);
    cfg.boundary_padding = 400 * ONE;
    assert!(!cfg.is_valid());
}

#[test]
fn new_ecosystem_has_food_and_tiers() {
    let mut rng = rand::thread_rng();
    let eco = Ecosystem::new(config(3), &mut rng);
    assert_eq!(eco.food.len(), 5);
    assert_eq!(eco.fish_groups.len(), 3);
    for group in eco.fish_groups.iter() {
        assert_eq!(group.len(), 2);
    }
    for piece in eco.food.iter() {
        assert!(20 * ONE <= piece.pos.x && piece.pos.x < 780 * ONE);
        assert!(20 * ONE <= piece.pos.y && piece.pos.y < 580 * ONE);
    }
}

#[test]
fn apex_tier_gets_no_predator_snapshot() {
    let mut rng = rand::thread_rng();
    let eco = Ecosystem::new(config(3), &mut rng);
    assert!(eco.predator_snapshot(2).is_none());
    let below = eco.predator_snapshot(0).unwrap();
    let above: Vec<Vec2> = eco.fish_groups[1].iter().map(|f| f.pos).collect();
    assert_eq!(below, above);
}

#[test]
fn dying_fish_goes_inert_and_is_pruned() {
    let mut rng = rand::thread_rng();
    let mut eco = Ecosystem::new(config(1), &mut rng);
    let mut f = fish_at(400 * ONE, 300 * ONE);
    f.health = 5;
    f.update();
    assert!(!f.is_alive());
    let before = f;
    f.update();
    assert_eq!(f.pos, before.pos);
    assert_eq!(f.health, before.health);
    eco.fish_groups[0] = vec![f];
    eco.prune(0);
    assert!(eco.fish_groups[0].is_empty());
}

#[test]
fn step_group_appends_newborn_after_the_frame() {
    let mut rng = rand::thread_rng();
    let mut eco = Ecosystem::new(config(2), &mut rng);
    eco.food.clear();
    eco.fish_groups[0] = vec![fish_at(400 * ONE, 300 * ONE)];
    let newborn = fish_at(100 * ONE, 100 * ONE);
    eco.step_group(0, &None, Some(newborn));
    assert_eq!(eco.fish_groups[0].len(), 2);
    assert_eq!(eco.fish_groups[0][1].pos, newborn.pos);
    assert_eq!(eco.fish_groups[0][1].health, ONE);
    assert_eq!(eco.fish_groups[0][0].health, ONE - HEALTH_DECAY);
}

#[test]
fn predators_eat_lower_tiers_during_a_step() {
    let mut rng = rand::thread_rng();
    let mut eco = Ecosystem::new(config(2), &mut rng);
    eco.food.clear();
    eco.fish_groups[0] = vec![fish_at(400 * ONE, 300 * ONE)];
    eco.fish_groups[1] = vec![fish_at(401 * ONE, 300 * ONE)];
    eco.step_group(1, &None, None);
    assert!(eco.fish_groups[0].is_empty());
    assert_eq!(eco.fish_groups[1].len(), 1);
}

#[test]
fn frames_keep_the_food_chain_intact() {
    let mut rng = rand::thread_rng();
    let mut eco = Ecosystem::new(config(3), &mut rng);
    for _ in 0..200 {
        eco.update(&mut rng);
    }
    assert_eq!(eco.fish_groups.len(), 3);
    for group in eco.fish_groups.iter() {
        for f in group.iter() {
            assert!(f.health <= ONE);
        }
    }
}

#[test]
fn add_food_places_food_inside_padding() {
    let mut rng = rand::thread_rng();
    let cfg = config(1);
    let mut food = Vec::new();
    for _ in 0..50 {
        Ecosystem::add_food(&mut food, &cfg, &mut rng);
    }
    assert_eq!(food.len(), 50);
    for piece in food.iter() {
        assert!(20 * ONE <= piece.pos.x && piece.pos.x < 780 * ONE);
        assert_eq!(piece.radius, FOOD_RADIUS);
    }
}

#[test]
fn new_fish_are_spread_over_the_window() {
    let mut rng = rand::thread_rng();
    let cfg = fish_config(1);
    let fish: Vec<Fish> = (0..40).map(|_| Fish::new(&cfg, &0, &(800 * ONE, 600 * ONE), &mut rng)).collect();
    assert!(fish.iter().any(|f| f.pos.x != 0));
    assert!(fish.iter().any(|f| f.pos.y != 0));
    assert!(fish.iter().any(|f| f.scale != cfg.scale_range.0));
}

#[test]
fn food_is_spread_over_the_padded_window() {
    let mut rng = rand::thread_rng();
    let cfg = config(1);
    let mut food = Vec::new();
    for _ in 0..40 {
        Ecosystem::add_food(&mut food, &cfg, &mut rng);
    }
    assert!(food.iter().any(|p| p.pos.x != cfg.boundary_padding));
    assert!(food.iter().any(|p| p.pos.y != cfg.boundary_padding));
}

#[test]
fn mutation_offsets_stay_within_a_step() {
    let parent = fish_at(0, 0);
    let rolls = Dna { prey_attraction: 0, predator_attraction: 0, prey_perception: 0, predator_perception: 0 };
    let offsets = Dna { prey_attraction: -MUTATION_STEP, predator_attraction: MUTATION_STEP, prey_perception: 0, predator_perception: -1 };
    let child = parent.offspring(&rolls, &offsets, v(0, ONE), ONE);
    assert_eq!(child.dna.prey_attraction, ONE - MUTATION_STEP);
    assert_eq!(child.dna.predator_attraction, -ONE + MUTATION_STEP);
    assert_eq!(child.dna.prey_perception, 50 * ONE);
    assert_eq!(child.dna.predator_perception, 50 * ONE - 1);
}

#[test]
fn first_breeder_is_the_first_success() {
    assert_eq!(Ecosystem::first_breeder(&vec![false, true, true]), Some(1));
    assert_eq!(Ecosystem::first_breeder(&vec![true, false]), Some(0));
    assert_eq!(Ecosystem::first_breeder(&vec![false, false]), None);
    assert_eq!(Ecosystem::first_breeder(&Vec::new()), None);
}

#[test]
fn breed_from_clones_the_first_breeder() {
    let mut rng = rand::thread_rng();
    let mut eco = Ecosystem::new(config(1), &mut rng);
    eco.fish_groups[0] = vec![fish_at(10 * ONE, 10 * ONE), fish_at(20 * ONE, 20 * ONE), fish_at(30 * ONE, 30 * ONE)];
    let child = eco.breed_from(0, &vec![false, true, true], &mut rng).unwrap();
    assert_eq!(child.pos, v(20 * ONE, 20 * ONE));
    assert_eq!(child.health, ONE);
    assert!(eco.breed_from(0, &vec![false, false, false], &mut rng).is_none());
}

#[test]
fn new_ecosystem_fish_start_healthy_in_their_band() {
    let mut rng = rand::thread_rng();
    let cfg = config(3);
    let eco = Ecosystem::new(cfg, &mut rng);
    for (g, group) in eco.fish_groups.iter().enumerate() {
        for f in group.iter() {
            assert_eq!(f.health, ONE);
            let lo = ONE + ONE * g as i64;
            assert!(lo <= f.scale && f.scale < lo + ONE);
        }
    }
    for piece in eco.food.iter() {
        assert_eq!(piece.radius, FOOD_RADIUS);
    }
}

#[test]
fn new_food_is_translucent_green() {
    let piece = Food::new(v(100 * ONE, 100 * ONE));
    assert_eq!(piece.pos, v(100 * ONE, 100 * ONE));
    assert_eq!(piece.radius, 5 * ONE);
    assert_eq!(piece.color, (0, 255, 0, 204));
}

#[test]
fn more_tiers_than_scale_units_is_rejected() {
    let mut cfg = config(1);
    cfg.fish.scale_range = (ONE, ONE + 3);
    cfg.fish.total_food_chain_links = 3;
    assert!(cfg.is_valid());
    cfg.fish.total_food_chain_links = 4;
    assert!(!cfg.is_valid());
}
