use tower_defense::coord::{Offset, WorldPosition};
use tower_defense::currency::Currency;
use tower_defense::enemy::{enemy_destroy, Enemy};
use tower_defense::health::Health;
use tower_defense::projectile::{
    apply_velocity, first_touched, projectile_destroy, projectile_hit, projectile_spawn,
    Projectile, SpawnProjectile, HIT_RADIUS, LIFETIME, PROJECTILE_SPEED,
};

fn enemy(id: u64, x: i64, y: i64) -> Enemy {
    Enemy { id, health: Health::new(6), progress: 0, position: WorldPosition { x, y } }
}

fn shot(x: i64, y: i64) -> Projectile {
    Projectile {
        position: WorldPosition { x, y },
        velocity: Offset { dx: 0, dy: 0 },
        creation_time: 0,
    }
}

fn launch(dx: i64, dy: i64) -> Projectile {
    let request =
        SpawnProjectile { position: WorldPosition { x: 0, y: 0 }, direction: Offset { dx, dy } };
    Projectile::spawn(request, 0)
}

#[test]
fn constants_of_the_projectile() {
    assert_eq!(PROJECTILE_SPEED, 200_000);
    assert_eq!(HIT_RADIUS, 20_000_000);
    assert_eq!(LIFETIME, 2_000);
}

#[test]
fn spawned_projectile_starts_where_it_was_asked_for() {
    let request = SpawnProjectile {
        position: WorldPosition { x: 7, y: -9 },
        direction: Offset { dx: 0, dy: 5 },
    };
    let p = Projectile::spawn(request, 1_234);
    assert_eq!(p.position, WorldPosition { x: 7, y: -9 });
    assert_eq!(p.creation_time, 1_234);
    assert_eq!(p.velocity, Offset { dx: 0, dy: 200_000 });
}

#[test]
fn velocity_has_the_speed_of_a_projectile() {
    assert_eq!(launch(3, 4).velocity, Offset { dx: 120_000, dy: 160_000 });
    assert_eq!(launch(-3, -4).velocity, Offset { dx: -120_000, dy: -160_000 });
    assert_eq!(launch(30_000_000, -40_000_000).velocity, Offset { dx: 120_000, dy: -160_000 });
    assert_eq!(launch(1, 0).velocity, Offset { dx: 200_000, dy: 0 });
    assert_eq!(launch(0, -64_000_000).velocity, Offset { dx: 0, dy: -200_000 });
    assert_eq!(launch(1_000_000, 1_000_000).velocity, Offset { dx: 141_421, dy: 141_421 });
    assert_eq!(launch(-1_000_000, 1_000_000).velocity, Offset { dx: -141_421, dy: 141_421 });
}

#[test]
fn projectile_without_direction_stands_still() {
    assert_eq!(launch(0, 0).velocity, Offset { dx: 0, dy: 0 });
}

#[test]
fn velocity_of_extreme_directions() {
    let v = launch(i64::MIN, i64::MAX).velocity;
    assert!(v.dx >= -200_000 && v.dx <= -141_421);
    assert!(v.dy <= 200_000 && v.dy >= 141_421);
    assert_eq!(launch(i64::MAX, 0).velocity, Offset { dx: 200_000, dy: 0 });
    assert_eq!(launch(i64::MIN, 0).velocity, Offset { dx: -200_000, dy: 0 });
}

#[test]
fn projectile_flies_in_a_straight_line() {
    let mut p = launch(3, -4);
    p.advance(10);
    assert_eq!(p.position, WorldPosition { x: 1_200_000, y: -1_600_000 });
    p.advance(5);
    assert_eq!(p.position, WorldPosition { x: 1_800_000, y: -2_400_000 });
    p.advance(0);
    assert_eq!(p.position, WorldPosition { x: 1_800_000, y: -2_400_000 });
    assert_eq!(p.velocity, Offset { dx: 120_000, dy: -160_000 });
    assert_eq!(p.creation_time, 0);
}

#[test]
fn position_stops_at_the_end_of_the_world() {
    let mut p = Projectile {
        position: WorldPosition { x: i64::MAX - 5, y: i64::MIN + 5 },
        velocity: Offset { dx: 10, dy: -10 },
        creation_time: 0,
    };
    p.advance(1);
    assert_eq!(p.position, WorldPosition { x: i64::MAX, y: i64::MIN });
    let mut p = Projectile {
        position: WorldPosition { x: i64::MIN, y: i64::MAX },
        velocity: Offset { dx: i64::MIN, dy: i64::MAX },
        creation_time: 0,
    };
    p.advance(u32::MAX);
    assert_eq!(p.position, WorldPosition { x: i64::MIN, y: i64::MAX });
}

#[test]
fn apply_velocity_moves_every_projectile() {
    let mut projectiles = vec![launch(1, 0), launch(0, 1), shot(5, 5)];
    apply_velocity(&mut projectiles, 100);
    assert_eq!(projectiles[0].position, WorldPosition { x: 20_000_000, y: 0 });
    assert_eq!(projectiles[1].position, WorldPosition { x: 0, y: 20_000_000 });
    assert_eq!(projectiles[2].position, WorldPosition { x: 5, y: 5 });
    assert_eq!(projectiles.len(), 3);
}

#[test]
fn hit_radius_is_exclusive() {
    let p = shot(0, 0);
    assert_eq!(first_touched(&p, &vec![enemy(1, 20_000_000, 0)]), None);
    assert_eq!(first_touched(&p, &vec![enemy(1, 19_999_999, 0)]), Some(0));
    assert_eq!(first_touched(&p, &vec![enemy(1, 12_000_000, 16_000_000)]), None);
    assert_eq!(first_touched(&p, &vec![enemy(1, 12_000_000, 15_999_999)]), Some(0));
    assert_eq!(first_touched(&p, &Vec::new()), None);
}

#[test]
fn projectile_hits_the_first_enemy_it_touches() {
    let mut projectiles = vec![shot(0, 0)];
    let mut enemies = vec![enemy(1, 50_000_000, 0), enemy(2, 10_000_000, 0), enemy(3, 1, 0)];
    projectile_hit(&mut projectiles, &mut enemies);
    assert!(projectiles.is_empty());
    assert_eq!(enemies[0].health.current, 6);
    assert_eq!(enemies[1].health.current, 5);
    assert_eq!(enemies[2].health.current, 6);
    assert_eq!(enemies.len(), 3);
}

#[test]
fn projectile_that_touches_nothing_flies_on() {
    let mut projectiles = vec![shot(0, 0), shot(100_000_000, 0), shot(0, 30_000_000)];
    let mut enemies = vec![enemy(1, 100_000_000, 5)];
    projectile_hit(&mut projectiles, &mut enemies);
    assert_eq!(projectiles, vec![shot(0, 0), shot(0, 30_000_000)]);
    assert_eq!(enemies[0].health.current, 5);
}

#[test]
fn dead_enemy_still_stops_a_projectile() {
    let mut projectiles = vec![shot(0, 0)];
    let mut enemies = vec![enemy(1, 0, 0), enemy(2, 0, 0)];
    enemies[0].health.current = 0;
    projectile_hit(&mut projectiles, &mut enemies);
    assert!(projectiles.is_empty());
    assert_eq!(enemies[0].health.current, 0);
    assert_eq!(enemies[1].health.current, 6);
}

#[test]
fn projectile_reaches_an_enemy_forty_units_away() {
    let request = SpawnProjectile {
        position: WorldPosition { x: 5_000_000, y: 5_000_000 },
        direction: Offset { dx: 3, dy: 4 },
    };
    let mut projectiles = vec![Projectile::spawn(request, 0)];
    let mut enemies = vec![enemy(1, 29_000_000, 37_000_000)];
    let mut purse = Currency::new();
    let mut now: u64 = 0;
    let mut hit_at: Option<u64> = None;
    while now < 200 {
        now += 10;
        apply_velocity(&mut projectiles, 10);
        projectile_hit(&mut projectiles, &mut enemies);
        projectile_destroy(&mut projectiles, now);
        enemy_destroy(&mut enemies, &mut purse);
        if hit_at.is_none() && projectiles.is_empty() {
            hit_at = Some(now);
        }
    }
    assert_eq!(hit_at, Some(110));
    assert!(projectiles.is_empty());
    assert_eq!(enemies.len(), 1);
    assert_eq!(enemies[0].health, Health { max: 6, current: 5 });
    assert_eq!(purse.coins, 10);
}

#[test]
fn six_hits_kill_an_enemy_for_one_coin() {
    let mut enemies = vec![enemy(1, 0, 0)];
    let mut purse = Currency::new();
    for hit in 1..=6 {
        let mut projectiles = vec![shot(1_000, 0)];
        projectile_hit(&mut projectiles, &mut enemies);
        assert!(projectiles.is_empty());
        enemy_destroy(&mut enemies, &mut purse);
        if hit < 6 {
            assert_eq!(enemies.len(), 1);
            assert_eq!(enemies[0].health.current, 6 - hit);
            assert_eq!(purse.coins, 10);
        }
    }
    assert!(enemies.is_empty());
    assert_eq!(purse.coins, 11);
}

#[test]
fn hits_of_one_tick_pay_one_coin() {
    let mut enemies = vec![enemy(1, 0, 0), enemy(2, 90_000_000, 0)];
    let mut purse = Currency::new();
    let mut projectiles: Vec<Projectile> = (0..8).map(|i| shot(i, 0)).collect();
    projectiles.push(shot(90_000_000, 0));
    projectile_hit(&mut projectiles, &mut enemies);
    assert!(projectiles.is_empty());
    assert_eq!(enemies[0].health.current, 0);
    assert_eq!(enemies[1].health.current, 5);
    enemy_destroy(&mut enemies, &mut purse);
    assert_eq!(enemies.len(), 1);
    assert_eq!(enemies[0].id, 2);
    assert_eq!(purse.coins, 11);
}

#[test]
fn projectile_expires_after_its_lifetime() {
    let mut projectiles = vec![shot(0, 0), shot(1, 1), shot(2, 2)];
    projectiles[0].creation_time = 1_000;
    projectiles[1].creation_time = 999;
    projectiles[2].creation_time = 5_000;
    projectile_destroy(&mut projectiles, 3_000);
    assert_eq!(projectiles.len(), 2);
    assert_eq!(projectiles[0].creation_time, 1_000);
    assert_eq!(projectiles[1].creation_time, 5_000);
    projectile_destroy(&mut projectiles, 3_001);
    assert_eq!(projectiles.len(), 1);
    assert_eq!(projectiles[0].creation_time, 5_000);
    projectile_destroy(&mut projectiles, 7_000);
    assert_eq!(projectiles.len(), 1);
    projectile_destroy(&mut projectiles, 7_001);
    assert!(projectiles.is_empty());
}

#[test]
fn requests_are_launched_in_their_order() {
    let mut projectiles = vec![shot(9, 9)];
    let requests = vec![
        SpawnProjectile {
            position: WorldPosition { x: 1, y: 1 },
            direction: Offset { dx: 0, dy: -7 },
        },
        SpawnProjectile {
            position: WorldPosition { x: 2, y: 2 },
            direction: Offset { dx: 6, dy: 8 },
        },
    ];
    projectile_spawn(&mut projectiles, &requests, 777);
    assert_eq!(projectiles.len(), 3);
    assert_eq!(projectiles[0], shot(9, 9));
    assert_eq!(
        projectiles[1],
        Projectile {
            position: WorldPosition { x: 1, y: 1 },
            velocity: Offset { dx: 0, dy: -200_000 },
            creation_time: 777,
        }
    );
    assert_eq!(
        projectiles[2],
        Projectile {
            position: WorldPosition { x: 2, y: 2 },
            velocity: Offset { dx: 120_000, dy: 160_000 },
            creation_time: 777,
        }
    );
    projectile_spawn(&mut projectiles, &Vec::new(), 778);
    assert_eq!(projectiles.len(), 3);
}
