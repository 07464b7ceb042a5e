use cgbot::ext::rng_from_seed;
use cgbot::maps::{ExplorationMap, ScoreMap};
use cgbot::pathfinding::{Action, GameState, Gene, Pathfinding, Simulation};
use cgbot::strategy::Strategy;
use cgbot::tracker::Tracker;
use cgbot::vec2::Vec2;
use cgbot::world::{Creature, Drone, Player, World};

fn drone(id: i32, x: i64, y: i64, emergency: i32) -> Drone {
    Drone {
        id,
        pos: Vec2 { x, y },
        bat: 30,
        emergency,
        blips: vec![],
        scans: vec![],
    }
}

fn world(creatures: Vec<Creature>, emergency: i32) -> World {
    World {
        creatures,
        me: Player {
            score: 0,
            scans: vec![],
            drones: vec![drone(20, 2000, 5000, emergency), drone(21, 7000, 5000, emergency)],
        },
        opponent: Player {
            score: 0,
            scans: vec![],
            drones: vec![drone(22, 2000, 8000, 0), drone(23, 7000, 8000, 0)],
        },
        iter: 1,
    }
}

fn straight_gene() -> Gene {
    let up = Action { dir: Vec2 { x: 0, y: -1000 }, light: false };
    Gene { ticks: vec![(up, up); 25] }
}

#[test]
fn gene_with_both_drones_dead_scores_exactly_the_penalty() {
    // Both drones dead from tick 1 onward: the rollout scores exactly
    // -1000 points x 2 drones x 25 ticks, and nothing from any other term.
    let w = world(vec![], 1);
    let tracker = Tracker::new();
    let em = ExplorationMap::new();
    let sm = ScoreMap::new();
    let mut sim = Simulation::new(&tracker, &em, &sm);
    let mut state = GameState::new(&w);
    assert!(state.drones[0].dead && state.drones[1].dead);
    let mut gene = straight_gene();
    sim.simulate_all(&mut state, &mut gene);
    // Scores are held in millionths of a point: -1000 * 2 * 25 points.
    assert_eq!(state.score.dead_score, -50_000_000_000);
    assert_eq!(state.score.exploration_score, 0);
    assert_eq!(state.score.saving_scans_score, 0);
    assert_eq!(state.score.saving_urgent_scans_score, 0);
    assert_eq!(state.score.value(), -50_000_000_000);
}

#[test]
fn live_rollout_counts_no_dead_penalty() {
    let w = world(vec![], 0);
    let tracker = Tracker::new();
    let em = ExplorationMap::new();
    let sm = ScoreMap::new();
    let mut sim = Simulation::new(&tracker, &em, &sm);
    let mut state = GameState::new(&w);
    let mut gene = straight_gene();
    sim.simulate_all(&mut state, &mut gene);
    assert_eq!(state.score.dead_score, 0);
    assert_eq!(sim.total_simulations, 1);
    assert_eq!(sim.dead_simulations, 0);
}

#[test]
fn surfacing_banks_the_scan_profit_front_loaded() {
    // A drone just below the surface holding one type-1 scan the opponent
    // lacks: rising straight up banks in tick 1, so the ordinary part scores
    // value / 1 and the urgent part value / 1^2, both 2 points.
    let mut w = world(vec![Creature::new(1, 0, 1, None, None)], 0);
    w.me.drones[0].pos = Vec2 { x: 2000, y: 700 };
    w.me.drones[0].scans = vec![1];
    let tracker = Tracker::new();
    let em = ExplorationMap::new();
    let sm = ScoreMap::new();
    let mut sim = Simulation::new(&tracker, &em, &sm);
    let mut state = GameState::new(&w);
    assert_eq!(state.drones[0].base_scans_cost, 2);
    assert_eq!(state.drones[0].urgent_scans_cost, 2);
    let mut gene = straight_gene();
    sim.simulate_all(&mut state, &mut gene);
    assert_eq!(state.score.saving_scans_score, 2_000_000);
    assert_eq!(state.score.saving_urgent_scans_score, 2_000_000);
    assert_eq!(state.score.dead_score, 0);
    assert_eq!(state.drones[0].base_scans_cost, 0);
}

#[test]
fn search_population_is_sorted_best_first() {
    // After one turn's search the population is sorted by total score, best
    // first: the head is the elitist survivor no later truncation can lose.
    let w = world(
        vec![
            Creature::new(1, 0, 0, None, None),
            Creature::new(2, 1, 1, None, None),
            Creature::new(3, 2, 2, None, None),
        ],
        0,
    );
    let tracker = Tracker::new();
    let em = ExplorationMap::new();
    let sm = ScoreMap::new();
    let mut rng = rng_from_seed(7);
    let mut pf = Pathfinding::new();
    let _ = pf.search(&w, &tracker, &em, &sm, &mut rng);
    assert_eq!(pf.population.len(), 30);
    let best = pf.population[0].0.value();
    for e in pf.population.iter() {
        assert!(best >= e.0.value());
    }
}

#[test]
fn end_to_end_fixed_seed_returns_in_play_targets() {
    // A synthetic world with two owned drones, three trackable entities and
    // zero hazards: the search terminates within its budget and each drone
    // gets a target inside the play area.
    let mut w = world(
        vec![
            Creature::new(1, 0, 0, None, None),
            Creature::new(2, 1, 1, None, None),
            Creature::new(3, 2, 2, None, None),
        ],
        0,
    );
    w.me.drones[0].blips = vec![
        (1, cgbot::world::BlipDirection::BR),
        (2, cgbot::world::BlipDirection::BR),
        (3, cgbot::world::BlipDirection::BR),
    ];
    let mut rng = rng_from_seed(42);
    let mut strategy = Strategy::new();
    let commands = strategy.play(&w, &mut rng);
    assert_eq!(commands.len(), 2);
    for c in commands.iter() {
        assert!(0 <= c.x && c.x < 10000, "target x {}", c.x);
        assert!(0 <= c.y && c.y < 10000, "target y {}", c.y);
    }
}

#[test]
fn surrounded_drone_dies_and_accrues_the_penalty() {
    // A hazard sitting on the first drone leaves no safe heading among the
    // candidates: the drone is dead from tick 1 and pays the penalty for all
    // 25 ticks; the second drone stays clear.
    let w = world(vec![], 0);
    let mut tracker = Tracker::new();
    tracker.monsters.push(cgbot::tracker::Monster {
        id: 7,
        pos: Vec2 { x: 2000, y: 5000 },
        vel: Vec2 { x: 0, y: 0 },
        target: None,
    });
    let em = ExplorationMap::new();
    let sm = ScoreMap::new();
    let mut sim = Simulation::new(&tracker, &em, &sm);
    let mut state = GameState::new(&w);
    let mut gene = straight_gene();
    sim.simulate_all(&mut state, &mut gene);
    assert!(state.drones[0].dead);
    assert!(!state.drones[1].dead);
    assert_eq!(state.score.dead_score, -25_000_000_000);
    assert_eq!(sim.dead_simulations, 1);
}

#[test]
fn nearby_hazard_forces_a_detour_not_death() {
    // A hazard 1000 units above the first drone blocks the straight-up
    // heading, but a fallback rotation keeps the drone clear: nobody dies.
    let w = world(vec![], 0);
    let mut tracker = Tracker::new();
    tracker.monsters.push(cgbot::tracker::Monster {
        id: 7,
        pos: Vec2 { x: 2000, y: 4000 },
        vel: Vec2 { x: 0, y: 0 },
        target: None,
    });
    let em = ExplorationMap::new();
    let sm = ScoreMap::new();
    let mut sim = Simulation::new(&tracker, &em, &sm);
    let mut state = GameState::new(&w);
    let mut gene = straight_gene();
    sim.simulate_all(&mut state, &mut gene);
    assert!(!state.drones[0].dead);
    assert!(!state.drones[1].dead);
    assert_eq!(state.score.dead_score, 0);
}

#[test]
fn generations_never_lose_the_best_score() {
    // Across successive generations the best score in the population never
    // decreases: selection is elitist.
    let w = world(
        vec![
            Creature::new(1, 0, 0, None, None),
            Creature::new(2, 1, 1, None, None),
            Creature::new(3, 2, 2, None, None),
        ],
        0,
    );
    let tracker = Tracker::new();
    let em = ExplorationMap::new();
    let sm = ScoreMap::new();
    let mut rng = rng_from_seed(11);
    let mut pf = Pathfinding::new();
    let _ = pf.search(&w, &tracker, &em, &sm, &mut rng);
    let proto = GameState::new(&w);
    let mut sim = Simulation::new(&tracker, &em, &sm);
    let mut best = pf.population[0].0.value();
    for _ in 0..5 {
        pf.evolve_generation(&mut sim, &proto, &mut rng);
        let new_best = pf.population[0].0.value();
        assert!(new_best >= best);
        best = new_best;
    }
}

#[test]
fn seeded_generators_repeat_their_draws() {
    let mut a = rng_from_seed(123);
    let mut b = rng_from_seed(123);
    for _ in 0..32 {
        let x = cgbot::ext::rng_below(&mut a, 1000);
        let y = cgbot::ext::rng_below(&mut b, 1000);
        assert_eq!(x, y);
        assert!(x < 1000);
    }
}
