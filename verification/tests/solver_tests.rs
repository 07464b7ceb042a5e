use cgbot::ext::rng_from_seed;
use cgbot::meta_strategy::MetaStrategy;
use cgbot::simulation::{simulate, Action, SimulationState, Solver};
use cgbot::vec2::Vec2;
use cgbot::world::{Creature, Drone, Player, World};

fn drone(id: i32, x: i64, y: i64) -> Drone {
    Drone {
        id,
        pos: Vec2 { x, y },
        bat: 30,
        emergency: 0,
        blips: vec![],
        scans: vec![],
    }
}

fn base_world(creatures: Vec<Creature>) -> World {
    World {
        creatures,
        me: Player {
            score: 0,
            scans: vec![],
            drones: vec![drone(20, 2000, 5000), drone(21, 7000, 5000)],
        },
        opponent: Player {
            score: 0,
            scans: vec![],
            drones: vec![drone(22, 2000, 8000), drone(23, 7000, 8000)],
        },
        iter: 1,
    }
}

#[test]
fn solver_state_copies_the_snapshot() {
    let mut w = base_world(vec![
        Creature::new(1, 0, 0, None, None),
        Creature::new(2, 1, 0, None, None),
    ]);
    w.me.score = 11;
    w.me.scans = vec![1, 2];
    let s = SimulationState::new(&w);
    assert_eq!(s.my_score, 11);
    assert_eq!(s.my_scans, vec![1, 2]);
    assert_eq!(s.my_fishes_of_type[0], 2);
    assert_eq!(s.my_fishes_of_type[1], 0);
    assert_eq!(s.my_fishes_of_color[0], 1);
    assert_eq!(s.my_fishes_of_color[1], 1);
    assert_eq!(s.my_drones[0].pos, Vec2 { x: 2000, y: 5000 });
}

#[test]
fn banking_scores_held_scans_with_doubling() {
    // The first drone holds a scan of a type-1 entity the opponent lacks:
    // surfacing banks (1 + 1) * 2 = 4 points and clears the held list.
    let mut w = base_world(vec![Creature::new(1, 0, 1, None, None)]);
    w.me.drones[0].scans = vec![1];
    let mut s = SimulationState::new(&w);
    s.evaluate_scans(&w, 0, true);
    assert_eq!(s.my_score, 4);
    assert_eq!(s.my_scans, vec![1]);
    assert_eq!(s.my_drones[0].scans.len(), 0);
    assert_eq!(s.my_fishes_of_type[1], 1);
}

#[test]
fn plan_simulation_marks_cells_and_banks_above_the_surface() {
    let mut w = base_world(vec![Creature::new(1, 0, 1, None, None)]);
    w.me.drones[0].pos = Vec2 { x: 2000, y: 700 };
    w.me.drones[0].scans = vec![1];
    let mut s = SimulationState::new(&w);
    let up = Action { mov: Some(Vec2 { x: 0, y: -600 }), light: false };
    let stay = Action { mov: Some(Vec2 { x: 0, y: 0 }), light: false };
    simulate(&w, &mut s, (up, stay), (stay, stay), 1);
    // The first drone rose to y = 100, above the banking depth.
    assert_eq!(s.my_drones[0].pos, Vec2 { x: 2000, y: 100 });
    assert_eq!(s.my_score, 4);
    assert_eq!(s.my_drones[0].scans.len(), 0);
}

#[test]
fn solver_returns_one_action_per_drone() {
    let w = base_world(vec![
        Creature::new(1, 0, 0, None, None),
        Creature::new(2, 1, 1, None, None),
    ]);
    let cells = vec![0i64; 400];
    let mut rng = rng_from_seed(5);
    let mut solver = Solver::new(&mut rng);
    let actions = solver.find_best_action(&w, &cells, &mut rng);
    assert_eq!(actions.len(), 2);
    assert_eq!(solver.prev_best.len(), 10);
    assert!(actions[0].mov.is_some());
}

#[test]
fn meta_strategy_tabulates_entity_values() {
    let w = base_world(vec![
        Creature::new(1, 0, 2, None, None),
        Creature::new(9, 3, -1, None, None),
    ]);
    let mut meta = MetaStrategy::new();
    meta.update(&w);
    // Only the economic entity is tabulated, at its doubled base value.
    assert_eq!(meta.fish_cost.len(), 1);
    assert_eq!(meta.get_fish_cost(1), 6);
}

#[test]
fn diagnostics_buffer_frames() {
    let mut d = cgbot::debug::Debug::new();
    d.options(2, true);
    d.message("turn begins");
    d.message("two hazards tracked");
    assert_eq!(d.messages.len(), 2);
    assert_eq!(d.layer, 2);
    d.end_frame();
    assert_eq!(d.messages.len(), 0);
}
