use rand::{Rng, SeedableRng};
use rand_pcg::Pcg64;

use robby::action::Action;
use robby::agent::{
    agent_from_actions, create_random_agent, crossover_agents, offspring_from_draws, state_from_code,
    Agent,
};
use robby::color::{get_color_code, Color};
use robby::config::Config;
use robby::evolution::{create_population, evolve, final_evaluation, next_generation, sort_by_score};
use robby::object::Object;
use robby::random::{draw_fraction, get_random_action, get_random_move, Gen, FRACTION_SCALE};
use robby::rollout::{evaluate_agent, resolve_action, run_trial, update_world};
use robby::state::{State, N_CODES};
use robby::world::{
    apply_move, create_random_world, get_random_location, get_state, place_goal, World,
};

fn seeded(seed: u64) -> Gen {
    Pcg64::seed_from_u64(seed)
}

/// A walled grid with the given goals.
fn walled(rows: usize, cols: usize, goals: &[(usize, usize)]) -> World {
    let mut cells = Vec::new();
    for r in 0..rows {
        for c in 0..cols {
            if r == 0 || r == rows - 1 || c == 0 || c == cols - 1 {
                cells.push(Object::Wall);
            } else if goals.contains(&(r, c)) {
                cells.push(Object::Goal);
            } else {
                cells.push(Object::Empty);
            }
        }
    }
    World { rows, cols, cells }
}

/// A policy giving `action` in every reachable state.
fn constant_agent(action: Action) -> Agent {
    let policy = (0..N_CODES)
        .map(|i| {
            if state_from_code(i).is_reachable() {
                Some(action)
            } else {
                None
            }
        })
        .collect();
    Agent { id: 0, policy, score: 0 }
}

fn small_config() -> Config {
    Config {
        width: 6,
        height: 5,
        n_goals: 4,
        n_generations: 3,
        n_trials: 2,
        n_steps: 20,
        population_size: 12,
        selection_size: 3,
        mutation_threshold: 83887,
    }
}

fn count(world: &World, o: Object) -> usize {
    world.cells.iter().filter(|x| **x == o).count()
}

#[test]
fn color_codes_are_ansi_sequences() {
    assert_eq!(get_color_code(Color::Blue), "\x1B[34m");
    assert_eq!(get_color_code(Color::Default), "\x1B[0m");
    assert_eq!(get_color_code(Color::Red), "\x1B[31m");
}

#[test]
fn symbols_of_objects_and_actions() {
    assert_eq!(Object::Empty.symbol(), '_');
    assert_eq!(Object::Goal.symbol(), 'O');
    assert_eq!(Object::Wall.symbol(), '#');
    let letters: String = [
        Action::MoveUp,
        Action::MoveDown,
        Action::MoveLeft,
        Action::MoveRight,
        Action::MoveRandom,
        Action::PickUp,
    ]
    .iter()
    .map(|a| a.symbol())
    .collect();
    assert_eq!(letters, "UDLR?P");
}

#[test]
fn state_codes_round_trip() {
    let s = State {
        up: Object::Wall,
        down: Object::Empty,
        left: Object::Goal,
        right: Object::Empty,
        center: Object::Goal,
    };
    assert_eq!(s.code_of(), 2 * 81 + 9 + 1);
    assert_eq!(state_from_code(s.code_of()), s);
    for i in 0..N_CODES {
        assert_eq!(state_from_code(i).code_of(), i);
    }
}

#[test]
fn generated_grid_has_walls_and_goals() {
    let mut rng = seeded(0);
    for _ in 0..20 {
        let world = create_random_world(&mut rng, 15, 15, 90);
        assert_eq!(world.cells.len(), 225);
        for r in 0..15 {
            for c in 0..15 {
                let border = r == 0 || r == 14 || c == 0 || c == 14;
                assert_eq!(world.get(r, c) == Object::Wall, border);
            }
        }
        assert_eq!(count(&world, Object::Goal), 90);
        assert_eq!(count(&world, Object::Empty), 13 * 13 - 90);
    }
}

#[test]
fn generated_grid_can_fill_the_interior() {
    let mut rng = seeded(3);
    let world = create_random_world(&mut rng, 4, 5, 6);
    assert_eq!(count(&world, Object::Goal), 6);
    assert_eq!(count(&world, Object::Empty), 0);
}

#[test]
fn encoded_center_is_never_a_wall() {
    let mut rng = seeded(1);
    let world = create_random_world(&mut rng, 7, 9, 10);
    for r in 1..6 {
        for c in 1..8 {
            let s = get_state(&world, (r, c));
            assert_ne!(s.center, Object::Wall);
            assert!(s.is_reachable());
            assert_eq!(s.up, world.get(r - 1, c));
            assert_eq!(s.down, world.get(r + 1, c));
            assert_eq!(s.left, world.get(r, c - 1));
            assert_eq!(s.right, world.get(r, c + 1));
            assert_eq!(s.center, world.get(r, c));
        }
    }
}

#[test]
fn policy_domain_is_the_reachable_states() {
    let mut rng = seeded(2);
    let a = create_random_agent(&mut rng, 7);
    let b = create_random_agent(&mut rng, 8);
    let child = crossover_agents(&mut rng, &a, &b, 9, 83887);
    for agent in [&a, &b, &child] {
        assert_eq!(agent.policy.len(), 243);
        assert_eq!(agent.policy.iter().filter(|e| e.is_some()).count(), 128);
        for i in 0..N_CODES {
            let s = state_from_code(i);
            assert_eq!(agent.policy[i].is_some(), s.is_reachable());
            assert_eq!(agent.get_action(&s), agent.policy[i]);
        }
    }
    assert_eq!(a.id, 7);
    assert_eq!(child.id, 9);
    assert_eq!(child.score, 0);
}

#[test]
fn move_up_blocked_by_wall() {
    let mut world = walled(5, 5, &[]);
    let (loc, reward) = apply_move(&mut world, (1, 2), Action::MoveUp);
    assert_eq!(loc, (1, 2));
    assert_eq!(reward, 0);
}

#[test]
fn move_up_into_open_cell() {
    let mut world = walled(5, 5, &[(2, 2)]);
    let (loc, reward) = apply_move(&mut world, (3, 2), Action::MoveUp);
    assert_eq!(loc, (2, 2));
    assert_eq!(reward, 0);
    assert_eq!(world.get(2, 2), Object::Goal);
    let (loc, _) = apply_move(&mut world, (2, 1), Action::MoveLeft);
    assert_eq!(loc, (2, 1));
    let (loc, _) = apply_move(&mut world, (2, 1), Action::MoveRight);
    assert_eq!(loc, (2, 2));
    let (loc, _) = apply_move(&mut world, (2, 2), Action::MoveDown);
    assert_eq!(loc, (3, 2));
}

#[test]
fn pick_up_twice() {
    let mut world = walled(5, 5, &[(2, 3)]);
    let (loc, reward) = apply_move(&mut world, (2, 3), Action::PickUp);
    assert_eq!((loc, reward), ((2, 3), 1));
    assert_eq!(world.get(2, 3), Object::Empty);
    let snapshot = world.cells.clone();
    let (loc, reward) = apply_move(&mut world, (2, 3), Action::PickUp);
    assert_eq!((loc, reward), ((2, 3), 0));
    assert_eq!(world.cells, snapshot);
}

#[test]
fn random_move_resolves_to_a_direction() {
    let mut rng = seeded(4);
    let mut twin = seeded(4);
    for _ in 0..50 {
        let m = resolve_action(&mut rng, Action::MoveRandom);
        let expected = match twin.gen_range(0..4u32) {
            0 => Action::MoveUp,
            1 => Action::MoveDown,
            2 => Action::MoveLeft,
            _ => Action::MoveRight,
        };
        assert_eq!(m, expected);
    }
    let before = rng.clone();
    assert_eq!(resolve_action(&mut rng, Action::PickUp), Action::PickUp);
    assert!(rng == before);
}

#[test]
fn update_world_with_random_move_stays_inside() {
    let mut rng = seeded(5);
    let mut world = walled(4, 4, &[]);
    let mut loc = (1, 1);
    for _ in 0..100 {
        let (next, reward) = update_world(&mut rng, &mut world, loc, Action::MoveRandom);
        assert_eq!(reward, 0);
        assert!(next.0 >= 1 && next.0 <= 2 && next.1 >= 1 && next.1 <= 2);
        let dr = (next.0 as i64 - loc.0 as i64).abs();
        let dc = (next.1 as i64 - loc.1 as i64).abs();
        assert!(dr + dc <= 1);
        loc = next;
    }
}

#[test]
fn wedged_trial_ends_at_once() {
    // Without the early end this trial would take billions of steps.
    let mut rng = seeded(6);
    let before = rng.clone();
    let world = walled(5, 5, &[(3, 3)]);
    let score = run_trial(&mut rng, world, (1, 1), &constant_agent(Action::MoveUp), 4_000_000_000);
    assert_eq!(score, 0);
    assert!(rng == before);
}

#[test]
fn random_moves_do_not_end_a_trial() {
    let mut rng = seeded(7);
    let mut twin = seeded(7);
    let world = walled(4, 4, &[]);
    let score = run_trial(&mut rng, world, (1, 1), &constant_agent(Action::MoveRandom), 25);
    assert_eq!(score, 0);
    for _ in 0..25 {
        get_random_move(&mut twin);
    }
    assert!(rng == twin);
}

#[test]
fn trial_collects_goals_on_its_way() {
    // Pick up where a goal lies, else move right.
    let mut agent = constant_agent(Action::MoveRight);
    for i in 0..N_CODES {
        if state_from_code(i).center == Object::Goal && agent.policy[i].is_some() {
            agent.policy[i] = Some(Action::PickUp);
        }
    }
    let mut rng = seeded(8);
    let world = walled(4, 7, &[(1, 2), (1, 4), (2, 3)]);
    assert_eq!(run_trial(&mut rng, world.clone(), (1, 1), &agent, 100), 2);
    assert_eq!(run_trial(&mut rng, world.clone(), (1, 1), &agent, 3), 1);
}

#[test]
fn crossover_is_reproducible() {
    let mut rng = seeded(9);
    let a = create_random_agent(&mut rng, 0);
    let b = create_random_agent(&mut rng, 1);
    let mut r1 = seeded(10);
    let mut r2 = seeded(10);
    let c1 = crossover_agents(&mut r1, &a, &b, 2, 83887);
    let c2 = crossover_agents(&mut r2, &a, &b, 2, 83887);
    assert_eq!(c1.policy, c2.policy);
    assert!(r1 == r2);
}

#[test]
fn crossover_follows_the_draws() {
    let mut rng = seeded(11);
    let a = create_random_agent(&mut rng, 0);
    let b = create_random_agent(&mut rng, 1);
    let child = crossover_agents(&mut rng.clone(), &a, &b, 2, 0);
    let mut replay = rng.clone();
    let fraction = draw_fraction(&mut replay);
    for i in 0..N_CODES {
        match a.policy[i] {
            Some(action_a) => {
                let inherit = draw_fraction(&mut replay);
                let _mutate = draw_fraction(&mut replay);
                let expected = if inherit < fraction { action_a } else { b.policy[i].unwrap() };
                assert_eq!(child.policy[i], Some(expected));
            }
            None => assert_eq!(child.policy[i], None),
        }
    }
}

#[test]
fn full_mutation_draws_fresh_actions() {
    let mut rng = seeded(13);
    let a = constant_agent(Action::PickUp);
    let b = constant_agent(Action::PickUp);
    let child = crossover_agents(&mut rng, &a, &b, 5, FRACTION_SCALE);
    let fresh = child
        .policy
        .iter()
        .filter(|e| matches!(e, Some(x) if *x != Action::PickUp))
        .count();
    assert!(fresh > 0);
}

#[test]
fn fraction_matches_standard_float_draw() {
    let mut rng = seeded(14);
    let mut twin = seeded(14);
    for _ in 0..100 {
        let k = draw_fraction(&mut rng);
        let x: f32 = twin.gen();
        assert!(k < FRACTION_SCALE);
        assert_eq!(k as f32 / FRACTION_SCALE as f32, x);
    }
}

#[test]
fn random_action_matches_the_stream() {
    let mut rng = seeded(15);
    let mut twin = seeded(15);
    for _ in 0..60 {
        let a = get_random_action(&mut rng);
        let expected = match twin.gen_range(0..6) {
            0 => Action::MoveUp,
            1 => Action::MoveDown,
            2 => Action::MoveLeft,
            3 => Action::MoveRight,
            4 => Action::MoveRandom,
            _ => Action::PickUp,
        };
        assert_eq!(a, expected);
    }
}

#[test]
fn random_location_is_interior_and_row_first() {
    let mut rng = seeded(16);
    let mut twin = seeded(16);
    for _ in 0..100 {
        let (r, c) = get_random_location(&mut rng, 6, 9);
        assert!((1..=4).contains(&r) && (1..=7).contains(&c));
        let er: usize = twin.gen_range(1..=4);
        let ec: usize = twin.gen_range(1..=7);
        assert_eq!((r, c), (er, ec));
    }
}

#[test]
fn single_pick_up_scenario() {
    let config = Config {
        width: 5,
        height: 5,
        n_goals: 1,
        n_generations: 1,
        n_trials: 1,
        n_steps: 5,
        population_size: 1,
        selection_size: 1,
        mutation_threshold: 0,
    };
    let agent = constant_agent(Action::PickUp);
    let mut rng = seeded(42);
    let score = evaluate_agent(&mut rng, &agent, &config);
    let mut replay = seeded(42);
    let world = create_random_world(&mut replay, 5, 5, 1);
    let start = get_random_location(&mut replay, 5, 5);
    let expected = if world.get(start.0, start.1) == Object::Goal { 1 } else { 0 };
    assert!(score == 0 || score == 1);
    assert_eq!(score, expected);
}

#[test]
fn evaluation_is_bounded_by_trials_and_steps() {
    let config = small_config();
    let mut rng = seeded(17);
    for _ in 0..10 {
        let agent = create_random_agent(&mut rng, 0);
        let total = evaluate_agent(&mut rng, &agent, &config);
        assert!(total <= config.n_trials * config.n_steps);
        assert!(total as usize <= config.n_trials as usize * config.n_goals);
    }
}

#[test]
fn sort_is_descending_and_stable() {
    let mut population: Vec<Agent> = [3u32, 7, 3, 9, 0, 7]
        .iter()
        .enumerate()
        .map(|(i, s)| {
            let mut a = constant_agent(Action::PickUp);
            a.id = i as i32;
            a.score = *s;
            a
        })
        .collect();
    sort_by_score(&mut population);
    let order: Vec<(i32, u32)> = population.iter().map(|a| (a.id, a.score)).collect();
    assert_eq!(order, vec![(3, 9), (1, 7), (5, 7), (0, 3), (2, 3), (4, 0)]);
}

#[test]
fn generation_keeps_population_size() {
    let config = small_config();
    let mut rng = seeded(18);
    let mut next_id = 0;
    let mut population = create_population(&mut rng, &config, &mut next_id);
    assert_eq!(population.len(), 12);
    assert_eq!(next_id, 12);
    for g in 0..4 {
        let best = next_generation(&mut rng, &mut population, &config, &mut next_id);
        assert_eq!(population.len(), 12);
        assert_eq!(best, population[0].id);
        assert_eq!(next_id, 12 + 9 * (g + 1));
        for k in 0..2 {
            assert!(population[k].score >= population[k + 1].score);
        }
        for (k, agent) in population.iter().enumerate().skip(3) {
            assert_eq!(agent.id, 12 + 9 * g + (k as i32 - 3));
            assert_eq!(agent.score, 0);
        }
    }
}

#[test]
fn evolve_reports_every_generation() {
    let config = small_config();
    let mut rng = seeded(19);
    let (population, history) = evolve(&mut rng, &config);
    assert_eq!(population.len(), config.population_size);
    assert_eq!(history.len(), 3);
    assert_eq!(history[2], (population[0].id, population[0].score));
    let best = history[2].0;
    let again = final_evaluation(&mut rng, &population, best, &config);
    assert!(again.is_some());
    assert!(again.unwrap() <= config.n_trials * config.n_steps);
    assert_eq!(final_evaluation(&mut rng, &population, -1, &config), None);
}

#[test]
fn evolution_is_deterministic_for_a_seed() {
    let config = small_config();
    let (first, h1) = evolve(&mut seeded(20), &config);
    let (second, h2) = evolve(&mut seeded(20), &config);
    assert_eq!(h1, h2);
    for (a, b) in first.iter().zip(second.iter()) {
        assert_eq!(a.id, b.id);
        assert_eq!(a.policy, b.policy);
    }
}

#[test]
fn config_validation() {
    let good = small_config();
    assert!(good.is_valid());
    assert!(!Config { width: 3, ..good }.is_valid());
    assert!(!Config { height: 3, ..good }.is_valid());
    assert!(!Config { n_goals: 13, ..good }.is_valid());
    assert!(Config { n_goals: 12, ..good }.is_valid());
    assert!(!Config { n_trials: 0, ..good }.is_valid());
    assert!(!Config { selection_size: 0, ..good }.is_valid());
    assert!(!Config { selection_size: 13, ..good }.is_valid());
    assert!(!Config { mutation_threshold: FRACTION_SCALE + 1, ..good }.is_valid());
    assert!(!Config { n_trials: 70000, n_steps: 70000, ..good }.is_valid());
    assert!(!Config { width: usize::MAX, height: 4, ..good }.is_valid());
}

#[test]
fn offspring_follows_given_draws() {
    let a = constant_agent(Action::MoveUp);
    let b = constant_agent(Action::MoveDown);
    let inherit: Vec<u32> = (0..N_CODES as u32).map(|i| if i % 2 == 0 { 50 } else { 150 }).collect();
    let mutate: Vec<u32> = (0..N_CODES as u32).map(|i| if i == 4 { 10 } else { 1000 }).collect();
    let fresh = vec![Action::PickUp; N_CODES];
    let child = offspring_from_draws(&a, &b, 3, 100, &inherit, &mutate, &fresh, 20);
    assert_eq!(child.id, 3);
    assert_eq!(child.score, 0);
    for i in 0..N_CODES {
        let expected = if !state_from_code(i).is_reachable() {
            None
        } else if i == 4 {
            Some(Action::PickUp)
        } else if i % 2 == 0 {
            Some(Action::MoveUp)
        } else {
            Some(Action::MoveDown)
        };
        assert_eq!(child.policy[i], expected);
    }
    assert!(state_from_code(4).is_reachable());
}

#[test]
fn crossing_a_policy_with_itself_without_mutation_gives_it_back() {
    let mut rng = seeded(21);
    let a = create_random_agent(&mut rng, 0);
    let child = crossover_agents(&mut rng, &a, &a, 1, 0);
    assert_eq!(child.policy, a.policy);
}

#[test]
fn agent_from_actions_fills_reachable_states() {
    let actions: Vec<Action> = (0..N_CODES)
        .map(|i| if i % 3 == 0 { Action::MoveLeft } else { Action::MoveRandom })
        .collect();
    let agent = agent_from_actions(4, &actions);
    assert_eq!(agent.id, 4);
    for i in 0..N_CODES {
        if state_from_code(i).is_reachable() {
            assert_eq!(agent.policy[i], Some(actions[i]));
        } else {
            assert_eq!(agent.policy[i], None);
        }
    }
}

#[test]
fn random_agent_takes_successive_draws() {
    let mut rng = seeded(22);
    let mut twin = seeded(22);
    let agent = create_random_agent(&mut rng, 0);
    for i in 0..N_CODES {
        if state_from_code(i).is_reachable() {
            assert_eq!(agent.policy[i], Some(get_random_action(&mut twin)));
        }
    }
    assert!(rng == twin);
}

#[test]
fn place_goal_only_on_empty_cells() {
    let mut world = walled(5, 5, &[(2, 2)]);
    assert!(!place_goal(&mut world, (2, 2)));
    assert_eq!(count(&world, Object::Goal), 1);
    assert!(place_goal(&mut world, (3, 1)));
    assert_eq!(world.get(3, 1), Object::Goal);
    assert_eq!(count(&world, Object::Goal), 2);
}

#[test]
fn directional_update_leaves_stream_untouched() {
    let mut rng = seeded(23);
    let before = rng.clone();
    let mut world = walled(5, 5, &[]);
    let (loc, reward) = update_world(&mut rng, &mut world, (1, 2), Action::MoveUp);
    assert_eq!((loc, reward), ((1, 2), 0));
    let (loc, _) = update_world(&mut rng, &mut world, (2, 2), Action::MoveRight);
    assert_eq!(loc, (2, 3));
    assert!(rng == before);
}

#[test]
fn random_walk_policy_scores_nothing() {
    let config = small_config();
    let mut rng = seeded(24);
    let agent = constant_agent(Action::MoveRandom);
    assert_eq!(evaluate_agent(&mut rng, &agent, &config), 0);
}
