use cgbot::bounds_detector::BoundsDetector;
use cgbot::maps::{calculate_creature_cost, position_to_grid_cell, ExplorationMap, ScoreMap};
use cgbot::vec2::Vec2;
use cgbot::world::{BlipDirection, Creature, Drone, Player, World};

fn drone(id: i32, x: i64, y: i64) -> Drone {
    Drone {
        id,
        pos: Vec2 { x, y },
        bat: 30,
        emergency: 0,
        blips: vec![],
        scans: vec![],
    }
}

fn base_world(creatures: Vec<Creature>) -> World {
    World {
        creatures,
        me: Player { score: 0, scans: vec![], drones: vec![drone(20, 250, 250), drone(21, 9750, 250)] },
        opponent: Player {
            score: 0,
            scans: vec![],
            drones: vec![drone(22, 2000, 8000), drone(23, 7000, 8000)],
        },
        iter: 1,
    }
}

#[test]
fn grid_cell_of_position() {
    assert_eq!(position_to_grid_cell(Vec2 { x: 999, y: 1500 }, 500), (1, 3));
    assert_eq!(position_to_grid_cell(Vec2 { x: 0, y: 0 }, 500), (0, 0));
    assert_eq!(position_to_grid_cell(Vec2 { x: 9999, y: 9999 }, 500), (19, 19));
}

#[test]
fn exploration_starts_fully_stale_and_visits_reset() {
    let w = base_world(vec![]);
    let mut m = ExplorationMap::new();
    assert_eq!(m.get_score_by_idx(0, 0), 1000);
    m.update(&w);
    // The cells under both drones are fresh; everything else is still at the
    // stale cap.
    assert_eq!(m.get_score_by_idx(0, 0), 0);
    assert_eq!(m.get_score_by_idx(19, 0), 0);
    assert_eq!(m.get_score_by_idx(5, 5), 1000);
}

#[test]
fn exploration_values_stay_within_unit_range_and_decay() {
    let w = base_world(vec![]);
    let mut m = ExplorationMap::new();
    m.update(&w);
    assert_eq!(m.get_score_by_idx(0, 0), 0);
    // One more turn: the freed cell decays one step up, every cell stays in
    // [0, 1000].
    let mut w2 = base_world(vec![]);
    w2.me.drones[0].pos = Vec2 { x: 5250, y: 5250 };
    w2.me.drones[1].pos = Vec2 { x: 5250, y: 5250 };
    m.update(&w2);
    assert_eq!(m.get_score_by_idx(0, 0), 10);
    assert_eq!(m.get_score_by_idx(10, 10), 0);
    for x in 0..20 {
        for y in 0..20 {
            let v = m.get_score_by_idx(x, y);
            assert!(0 <= v && v <= 1000);
        }
    }
}

#[test]
fn light_resets_the_neighborhood_exactly() {
    let w = base_world(vec![]);
    let mut m = ExplorationMap::new();
    m.update(&w);
    m.use_light(Vec2 { x: 5250, y: 5250 });
    for x in 0..20i64 {
        for y in 0..20i64 {
            let v = m.get_score_by_idx(x as usize, y as usize);
            let in_neighborhood = (9..=11).contains(&x) && (9..=11).contains(&y);
            let drone_cell = (x, y) == (0, 0) || (x, y) == (19, 0);
            if in_neighborhood || drone_cell {
                assert_eq!(v, 0, "cell {} {}", x, y);
            } else {
                assert_eq!(v, 1000, "cell {} {}", x, y);
            }
        }
    }
}

#[test]
fn type_two_unbanked_entity_is_worth_six() {
    // A type-2 entity the opponent has not banked, with no set-completion
    // bonuses active, evaluates to (2 + 1) * 2 = 6 points.
    let w = base_world(vec![Creature::new(1, 0, 2, None, None)]);
    let c = w.creatures[0];
    assert_eq!(calculate_creature_cost(&c, &w), 6);
}

#[test]
fn completing_the_class_quartet_earns_the_bonus() {
    // Three of the class are already banked, so this entity would be the
    // player's fourth: +4, and +4 again while the opponent's quartet is
    // still open. Colors are all distinct, so no color bonus fires.
    let mut w = base_world(vec![
        Creature::new(1, 0, 0, None, None),
        Creature::new(2, 1, 0, None, None),
        Creature::new(3, 2, 0, None, None),
        Creature::new(4, 3, 0, None, None),
    ]);
    w.me.scans = vec![1, 2, 3];
    let c = w.creatures[3];
    assert_eq!(calculate_creature_cost(&c, &w), 1 * 2 + 4 + 4);
}

#[test]
fn completing_the_color_triple_earns_the_bonus() {
    // Two of the color are already banked, so this entity would be the
    // player's third: +3, and +3 again while the opponent's triple is still
    // open. Class counts stay below the quartet threshold.
    let mut w = base_world(vec![
        Creature::new(1, 1, 0, None, None),
        Creature::new(2, 1, 1, None, None),
        Creature::new(3, 1, 2, None, None),
    ]);
    w.me.scans = vec![1, 2];
    let c = w.creatures[2];
    assert_eq!(calculate_creature_cost(&c, &w), 3 * 2 + 3 + 3);
}

#[test]
fn opponent_banked_entity_loses_the_doubling() {
    let mut w = base_world(vec![Creature::new(1, 0, 2, None, None)]);
    w.opponent.scans = vec![1];
    let c = w.creatures[0];
    assert_eq!(calculate_creature_cost(&c, &w), 3);
}

#[test]
fn value_grid_spreads_cost_over_the_bound_rectangle() {
    // One tracked, unscanned type-0 entity: its band rectangle covers the 20
    // columns and rows 5..=10, 120 cells; the value 2 spreads as
    // 2 * 1000 / 120 = 16 per cell.
    let mut w = base_world(vec![Creature::new(1, 0, 0, None, None)]);
    w.me.drones[0].pos = Vec2 { x: 0, y: 0 };
    w.me.drones[0].blips = vec![(1, BlipDirection::BR)];
    let mut bd = BoundsDetector::new();
    bd.update(&w);
    let mut sm = ScoreMap::new();
    sm.update(&w, &bd);
    assert_eq!(sm.get_score_by_idx(0, 5), 16);
    assert_eq!(sm.get_score_by_idx(19, 10), 16);
    assert_eq!(sm.get_score_by_idx(0, 0), 0);
    assert_eq!(sm.get_score_by_idx(0, 12), 0);
}

#[test]
fn untracked_entities_spread_no_value() {
    let w = base_world(vec![Creature::new(1, 0, 0, None, None)]);
    let mut bd = BoundsDetector::new();
    bd.update(&w);
    let mut sm = ScoreMap::new();
    sm.update(&w, &bd);
    for x in 0..20 {
        for y in 0..20 {
            assert_eq!(sm.get_score_by_idx(x, y), 0);
        }
    }
}
