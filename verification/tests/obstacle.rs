use dino_game::obstacle::{choose_obstacle_kind, kind_for_roll, spawn_step, ObstacleKind, SpawnStep};
use rand::rngs::StdRng;
use rand::SeedableRng;

#[test]
fn birds_do_not_spawn_before_threshold() {
    let mut rng = StdRng::seed_from_u64(4);
    for _ in 0..20 {
        let kind = choose_obstacle_kind(&mut rng, 100);
        assert!(!matches!(
            kind,
            ObstacleKind::BirdLow | ObstacleKind::BirdHigh
        ));
    }
}

#[test]
fn roll_thresholds_pick_the_kind() {
    assert_eq!(kind_for_roll(0, 0), ObstacleKind::SmallCactus);
    assert_eq!(kind_for_roll(19, 500), ObstacleKind::SmallCactus);
    assert_eq!(kind_for_roll(20, 500), ObstacleKind::LargeCactus);
    assert_eq!(kind_for_roll(47, 500), ObstacleKind::LargeCactus);
    assert_eq!(kind_for_roll(48, 500), ObstacleKind::CactusCluster);
    assert_eq!(kind_for_roll(73, 500), ObstacleKind::CactusCluster);
    assert_eq!(kind_for_roll(74, 180), ObstacleKind::BirdLow);
    assert_eq!(kind_for_roll(75, 180), ObstacleKind::BirdHigh);
    assert_eq!(kind_for_roll(99, 179), ObstacleKind::CactusCluster);
}

#[test]
fn birds_can_come_after_threshold() {
    let mut rng = StdRng::seed_from_u64(9);
    let mut saw_bird = false;
    for _ in 0..200 {
        let kind = choose_obstacle_kind(&mut rng, 1000);
        if matches!(kind, ObstacleKind::BirdLow | ObstacleKind::BirdHigh) {
            saw_bird = true;
        }
    }
    assert!(saw_bird);
}

#[test]
fn spawner_steps_in_order() {
    assert_eq!(spawn_step(true, true, true, true), SpawnStep::NotYet);
    assert_eq!(spawn_step(false, true, true, true), SpawnStep::WaitForGap);
    assert_eq!(spawn_step(false, false, true, true), SpawnStep::StarBurst);
    assert_eq!(spawn_step(false, false, true, false), SpawnStep::Single);
    assert_eq!(spawn_step(false, false, false, true), SpawnStep::Single);
}
