use cgbot::bounds_detector::{get_bounds_for_type, get_directional_bounds, Bounds, BoundsDetector};
use cgbot::tracker::Tracker;
use cgbot::vec2::Vec2;
use cgbot::world::{BlipDirection, Creature, Drone, Player, World};

fn drone(id: i32, x: i64, y: i64) -> Drone {
    Drone {
        id,
        pos: Vec2 { x, y },
        bat: 30,
        emergency: 0,
        blips: vec![],
        scans: vec![],
    }
}

fn base_world(creatures: Vec<Creature>) -> World {
    World {
        creatures,
        me: Player { score: 0, scans: vec![], drones: vec![drone(20, 4000, 4000), drone(21, 8000, 4000)] },
        opponent: Player {
            score: 0,
            scans: vec![],
            drones: vec![drone(22, 2000, 8000), drone(23, 7000, 8000)],
        },
        iter: 1,
    }
}

#[test]
fn type_bands_partition_the_depth() {
    let hazard = get_bounds_for_type(-1);
    assert_eq!(hazard.top_left, Vec2 { x: 0, y: 0 });
    assert_eq!(hazard.bot_right, Vec2 { x: 10000, y: 10000 });
    let shallow = get_bounds_for_type(0);
    assert_eq!(shallow.top_left, Vec2 { x: 0, y: 2500 });
    assert_eq!(shallow.bot_right, Vec2 { x: 10000, y: 5000 });
    let deep = get_bounds_for_type(2);
    assert_eq!(deep.top_left, Vec2 { x: 0, y: 7500 });
    assert_eq!(deep.bot_right, Vec2 { x: 10000, y: 10000 });
}

#[test]
fn directional_bounds_are_quadrants() {
    let p = Vec2 { x: 4000, y: 3000 };
    let tl = get_directional_bounds(BlipDirection::TL, p);
    assert_eq!(tl.top_left, Vec2 { x: 0, y: 0 });
    assert_eq!(tl.bot_right, p);
    let br = get_directional_bounds(BlipDirection::BR, p);
    assert_eq!(br.top_left, p);
    assert_eq!(br.bot_right, Vec2 { x: 10000, y: 10000 });
}

#[test]
fn bounds_center() {
    let b = Bounds::new(0, 2500, 10000, 5000);
    let c = b.get_center();
    assert_eq!(c, Vec2 { x: 5000, y: 3750 });
}

#[test]
fn first_update_initializes_type_bands() {
    let w = base_world(vec![Creature::new(1, 0, 0, None, None)]);
    let mut bd = BoundsDetector::new();
    bd.update(&w);
    let b = bd.get_bounds(1);
    assert_eq!(b.top_left, Vec2 { x: 0, y: 2500 });
    assert_eq!(b.bot_right, Vec2 { x: 10000, y: 5000 });
}

#[test]
fn hint_shrinks_and_motion_margin_regrows() {
    // Turn 1: a top-left hint from the drone at (4000, 4000) cuts the band.
    let mut w = base_world(vec![Creature::new(1, 0, 0, None, None)]);
    w.me.drones[0].blips = vec![(1, BlipDirection::TL)];
    let mut bd = BoundsDetector::new();
    bd.update(&w);
    {
        let b = bd.get_bounds(1);
        assert_eq!(b.top_left, Vec2 { x: 0, y: 2500 });
        assert_eq!(b.bot_right, Vec2 { x: 4000, y: 4000 });
    }
    // Turn 2, no hints: the rectangle widens by the motion margin and is
    // clamped back into the type band.
    w.me.drones[0].blips = vec![];
    bd.update(&w);
    let b = bd.get_bounds(1);
    assert_eq!(b.top_left, Vec2 { x: 0, y: 2500 });
    assert_eq!(b.bot_right, Vec2 { x: 4200, y: 4200 });
}

#[test]
fn sighted_hazard_is_tracked_and_dead_reckoned() {
    // Turn 1: the hazard is visible and is registered with ground truth.
    let mut w = base_world(vec![Creature::new(
        7,
        -1,
        -1,
        Some(Vec2 { x: 5000, y: 5000 }),
        Some(Vec2 { x: 0, y: 0 }),
    )]);
    // Keep every drone far away so no target is acquired.
    w.me.drones[0].pos = Vec2 { x: 100, y: 100 };
    w.me.drones[1].pos = Vec2 { x: 9000, y: 100 };
    let mut t = Tracker::new();
    t.update(&w);
    assert_eq!(t.monsters.len(), 1);
    assert_eq!(t.monsters[0].pos, Vec2 { x: 5000, y: 5000 });
    assert!(t.monsters[0].target.is_none());
    // Turn 2: not visible; with no target and no neighbor the hazard keeps
    // its (zero) velocity and stays in place.
    w.creatures[0].pos = None;
    w.creatures[0].speed = None;
    t.update(&w);
    assert_eq!(t.monsters[0].pos, Vec2 { x: 5000, y: 5000 });
}

#[test]
fn hazard_chases_a_close_drone() {
    let mut w = base_world(vec![Creature::new(
        7,
        -1,
        -1,
        Some(Vec2 { x: 5000, y: 5000 }),
        Some(Vec2 { x: 0, y: 0 }),
    )]);
    w.me.drones[0].pos = Vec2 { x: 5000, y: 4600 };
    w.me.drones[1].pos = Vec2 { x: 9000, y: 100 };
    let mut t = Tracker::new();
    t.update(&w);
    // Within the 800-unit aggression radius: the hazard aims at the drone.
    assert_eq!(t.monsters[0].target, Some(Vec2 { x: 5000, y: 4600 }));
    // Next turn, unseen: it moves toward the remembered target at chase
    // speed (540 per tick), clamped into the hazard band.
    w.creatures[0].pos = None;
    w.creatures[0].speed = None;
    t.update(&w);
    assert_eq!(t.monsters[0].pos, Vec2 { x: 5000, y: 4460 });
}

#[test]
fn battery_drop_widens_aggression() {
    // Far drone at distance 1500: out of the normal radius, inside the
    // widened one after its battery dropped.
    let mut w = base_world(vec![Creature::new(
        7,
        -1,
        -1,
        Some(Vec2 { x: 5000, y: 5000 }),
        Some(Vec2 { x: 0, y: 0 }),
    )]);
    w.me.drones[0].pos = Vec2 { x: 5000, y: 3500 };
    w.me.drones[1].pos = Vec2 { x: 9999, y: 100 };
    w.opponent.drones[0].pos = Vec2 { x: 100, y: 9000 };
    w.opponent.drones[1].pos = Vec2 { x: 9000, y: 9000 };
    let mut t = Tracker::new();
    t.update(&w);
    assert!(t.monsters[0].target.is_none());
    // Battery fell from 30 to 20: inferred light, radius widens to 2000.
    w.me.drones[0].bat = 20;
    t.update(&w);
    assert_eq!(t.monsters[0].target, Some(Vec2 { x: 5000, y: 3500 }));
}
