use cgbot::vec2::Vec2;
use cgbot::world::{BlipDirection, Creature, Drone, Player, World};

fn drone(id: i32, x: i64, y: i64) -> Drone {
    Drone {
        id,
        pos: Vec2 { x, y },
        bat: 30,
        emergency: 0,
        blips: vec![],
        scans: vec![],
    }
}

fn world_with(creatures: Vec<Creature>) -> World {
    World {
        creatures,
        me: Player { score: 0, scans: vec![], drones: vec![drone(20, 2000, 3000), drone(21, 7000, 3000)] },
        opponent: Player {
            score: 0,
            scans: vec![],
            drones: vec![drone(22, 2000, 8000), drone(23, 7000, 8000)],
        },
        iter: 1,
    }
}

#[test]
fn from_str_decodes_all_quadrants() {
    assert_eq!(BlipDirection::from_str("TL"), BlipDirection::TL);
    assert_eq!(BlipDirection::from_str("TR"), BlipDirection::TR);
    assert_eq!(BlipDirection::from_str("BL"), BlipDirection::BL);
    assert_eq!(BlipDirection::from_str("BR"), BlipDirection::BR);
}

#[test]
fn default_blip_direction() {
    assert_eq!(BlipDirection::default(), BlipDirection::BL);
}

#[test]
fn creature_clear_drops_visibility() {
    let mut c = Creature::new(1, 0, 2, Some(Vec2 { x: 1, y: 2 }), Some(Vec2 { x: 3, y: 4 }));
    c.clear();
    assert!(c.pos.is_none());
    assert!(c.speed.is_none());
    assert_eq!(c.id, 1);
    assert_eq!(c.typ, 2);
}

#[test]
fn world_clear_keeps_scores_and_creatures() {
    let mut w = world_with(vec![Creature::new(1, 0, 0, None, None)]);
    w.me.score = 17;
    w.clear();
    assert_eq!(w.me.score, 17);
    assert_eq!(w.me.drones.len(), 0);
    assert_eq!(w.me.scans.len(), 0);
    assert_eq!(w.creatures.len(), 1);
}

#[test]
fn find_creature_by_id() {
    let w = world_with(vec![
        Creature::new(4, 1, 0, None, None),
        Creature::new(9, 2, 1, None, None),
    ]);
    let c = w.find_creature(9).unwrap();
    assert_eq!(c.typ, 1);
    assert!(w.find_creature(5).is_none());
}

#[test]
fn counting_scans_by_class_and_color() {
    let w = World {
        creatures: vec![
            Creature::new(1, 0, 0, None, None),
            Creature::new(2, 1, 0, None, None),
            Creature::new(3, 0, 2, None, None),
        ],
        me: Player {
            score: 0,
            scans: vec![1, 2, 3],
            drones: vec![drone(20, 0, 0), drone(21, 1, 1)],
        },
        opponent: Player { score: 0, scans: vec![3], drones: vec![drone(22, 0, 0), drone(23, 1, 1)] },
        iter: 0,
    };
    assert_eq!(w.count_scans_of_typ(&w.me.scans, 0), 2);
    assert_eq!(w.count_scans_of_typ(&w.me.scans, 2), 1);
    assert_eq!(w.count_scans_of_typ(&w.opponent.scans, 0), 0);
    assert_eq!(w.count_scans_of_col(&w.me.scans, 0), 2);
    assert_eq!(w.count_scans_of_col(&w.me.scans, 1), 1);
}
