use tower_defense::coord::{Coord, Offset, WorldPosition};
use tower_defense::enemy::Enemy;
use tower_defense::game::Game;
use tower_defense::game_state::GameState;
use tower_defense::health::Health;
use tower_defense::path::PathError;
use tower_defense::projectile::SpawnProjectile;
use tower_defense::tower::Tower;

fn level() -> Game {
    let nodes = vec![
        Coord::new(0, 0),
        Coord::new(1, 0),
        Coord::new(1, -2),
        Coord::new(-2, -2),
        Coord::new(-2, 2),
        Coord::new(3, 2),
        Coord::new(3, -4),
        Coord::new(-2, -4),
    ];
    let build_spots = vec![Coord::new(0, -1), Coord::new(-1, -1), Coord::new(2, 1)];
    match Game::new(nodes, build_spots) {
        Ok(game) => game,
        Err(_) => panic!("the level has a path"),
    }
}

fn bearing(direction: Offset) -> i64 {
    let degrees = (direction.dy as f64).atan2(direction.dx as f64).to_degrees();
    (degrees * 1000.0).round() as i64
}

fn tick(game: &mut Game, dt: u32) -> (Vec<SpawnProjectile>, usize) {
    let directions = game.begin_tick(dt).directions;
    let bearings: Vec<i64> = directions.iter().map(|d| d.map_or(0, bearing)).collect();
    let report = game.end_tick(dt, &bearings);
    (report.shots, report.kills)
}

#[test]
fn new_game_is_set_up() {
    let game = level();
    assert_eq!(game.path.length(), 26);
    assert_eq!(game.path.start(), Coord::new(0, 0));
    assert_eq!(game.path.end(), Coord::new(-2, -4));
    assert_eq!(game.build_spots.len(), 3);
    assert_eq!(game.spawners.len(), 1);
    assert_eq!(game.spawners[0].position, WorldPosition { x: 0, y: 0 });
    assert_eq!(game.spawners[0].last_spawn_time, 0);
    assert!(game.enemies.is_empty());
    assert!(game.towers.is_empty());
    assert!(game.projectiles.is_empty());
    assert_eq!(game.base, Health { max: 20, current: 20 });
    assert_eq!(game.currency.coins, 10);
    assert_eq!(game.play_time.millis, 0);
    assert_eq!(game.next_id, 0);
    assert_eq!(game.outcome(), None);
}

#[test]
fn game_needs_a_path() {
    assert!(matches!(Game::new(vec![], vec![]), Err(PathError::TooFewNodes)));
    assert!(matches!(
        Game::new(vec![Coord::new(0, 0)], vec![Coord::new(0, 1)]),
        Err(PathError::TooFewNodes)
    ));
    assert!(matches!(
        Game::new(vec![Coord::new(i32::MIN, 0), Coord::new(i32::MAX, 0)], vec![]),
        Err(PathError::TooLong)
    ));
}

#[test]
fn first_enemy_comes_after_two_seconds() {
    let mut game = level();
    for _ in 0..124 {
        tick(&mut game, 16);
        assert!(game.enemies.is_empty());
    }
    assert_eq!(game.play_time.millis, 1_984);
    tick(&mut game, 16);
    assert_eq!(game.play_time.millis, 2_000);
    assert_eq!(
        game.enemies,
        vec![Enemy {
            id: 0,
            health: Health { max: 6, current: 6 },
            progress: 0,
            position: WorldPosition { x: 0, y: 0 },
        }]
    );
    assert_eq!(game.next_id, 1);
    assert_eq!(game.spawners[0].last_spawn_time, 2_000);
    tick(&mut game, 16);
    assert_eq!(game.enemies.len(), 1);
    assert_eq!(game.enemies[0].progress, 400);
    assert_eq!(game.enemies[0].position, WorldPosition { x: 332_800, y: 0 });
}

#[test]
fn enemy_at_the_end_costs_the_base_one_point() {
    let mut game = level();
    game.enemies.push(Enemy {
        id: 7,
        health: Health::new(6),
        progress: 999_990,
        position: WorldPosition { x: 0, y: 0 },
    });
    game.towers.push(Tower::new(Coord::new(0, -1)));
    game.towers[0].target = Some(7);
    let (shots, kills) = tick(&mut game, 1);
    assert!(game.enemies.is_empty());
    assert_eq!(game.base, Health { max: 20, current: 19 });
    assert_eq!(game.currency.coins, 10);
    assert_eq!(kills, 0);
    assert!(shots.is_empty());
    assert_eq!(game.towers[0].target, None);
    assert_eq!(game.outcome(), None);
}

#[test]
fn game_is_over_with_the_last_hit_point() {
    let mut game = level();
    game.base.current = 1;
    game.enemies.push(Enemy {
        id: 7,
        health: Health::new(6),
        progress: 999_999,
        position: WorldPosition { x: 0, y: 0 },
    });
    assert_eq!(game.outcome(), None);
    tick(&mut game, 16);
    assert_eq!(game.base.current, 0);
    assert_eq!(game.outcome(), Some(GameState::GameOver));
}

#[test]
fn towers_are_placed_on_free_build_spots_for_five_coins() {
    let mut game = level();
    assert!(!game.place_tower(Coord::new(5, 5)));
    assert!(game.place_tower(Coord::new(0, -1)));
    assert_eq!(game.currency.coins, 5);
    assert_eq!(game.towers, vec![Tower::new(Coord::new(0, -1))]);
    assert!(!game.place_tower(Coord::new(0, -1)));
    assert_eq!(game.currency.coins, 5);
    assert!(game.place_tower(Coord::new(2, 1)));
    assert_eq!(game.currency.coins, 0);
    assert!(!game.place_tower(Coord::new(-1, -1)));
    assert_eq!(game.currency.coins, 0);
    assert_eq!(game.towers.len(), 2);
}

#[test]
fn begin_tick_reports_the_direction_of_each_tower() {
    let mut game = level();
    game.towers.push(Tower::new(Coord::new(0, -1)));
    game.towers.push(Tower::new(Coord::new(10, 10)));
    game.enemies.push(Enemy {
        id: 3,
        health: Health::new(6),
        progress: 0,
        position: WorldPosition { x: 0, y: 0 },
    });
    let directions = game.begin_tick(0).directions;
    assert_eq!(directions, vec![Some(Offset { dx: 0, dy: 32_000_000 }), None]);
    assert_eq!(game.towers[0].target, None);
    let report = game.end_tick(0, &vec![90_000, 0]);
    assert!(report.shots.is_empty());
    assert_eq!(game.towers[0].target, Some(3));
    assert_eq!(game.towers[0].facing, 1_800);
    assert_eq!(game.towers[1].target, None);
    assert_eq!(game.towers[1].facing, 0);
}

#[test]
fn tower_without_bearing_does_not_aim() {
    let mut game = level();
    game.towers.push(Tower::new(Coord::new(0, -1)));
    game.enemies.push(Enemy {
        id: 3,
        health: Health::new(6),
        progress: 0,
        position: WorldPosition { x: 0, y: 0 },
    });
    let report = game.end_tick(16, &Vec::new());
    assert!(report.shots.is_empty());
    assert_eq!(game.towers[0].target, Some(3));
    assert_eq!(game.towers[0].facing, 0);
}

#[test]
fn locked_tower_shoots_and_the_projectile_flies() {
    let mut game = level();
    game.play_time.millis = 5_000;
    game.spawners[0].last_spawn_time = 5_000;
    game.towers.push(Tower::new(Coord::new(0, -1)));
    game.towers[0].facing = 90_000;
    game.enemies.push(Enemy {
        id: 3,
        health: Health::new(6),
        progress: 0,
        position: WorldPosition { x: 0, y: 0 },
    });
    let directions = game.begin_tick(0).directions;
    let bearings: Vec<i64> = directions.iter().map(|d| d.map_or(0, bearing)).collect();
    assert_eq!(bearings, vec![90_000]);
    let report = game.end_tick(10, &bearings);
    assert_eq!(
        report.shots,
        vec![SpawnProjectile {
            position: WorldPosition { x: 0, y: -32_000_000 },
            direction: Offset { dx: 0, dy: 1_000_000 },
        }]
    );
    assert_eq!(report.kills, 0);
    assert_eq!(game.towers[0].last_projectile_time, 5_000);
    assert_eq!(game.projectiles.len(), 1);
    assert_eq!(game.projectiles[0].position, WorldPosition { x: 0, y: -30_000_000 });
    assert_eq!(game.projectiles[0].velocity, Offset { dx: 0, dy: 200_000 });
    assert_eq!(game.projectiles[0].creation_time, 5_000);
    assert_eq!(game.enemies[0].health.current, 6);
}

#[test]
fn tower_shoots_an_enemy_down_for_one_coin() {
    let mut game = level();
    assert!(game.place_tower(Coord::new(0, -1)));
    assert_eq!(game.currency.coins, 5);
    let mut kills = 0;
    let mut shots = 0;
    while game.play_time.millis < 12_000 && kills == 0 {
        let (fired, killed) = tick(&mut game, 16);
        shots += fired.len();
        kills += killed;
    }
    assert_eq!(kills, 1);
    assert!(shots >= 6);
    assert_eq!(game.currency.coins, 6);
    assert!(game.enemies.iter().all(|e| e.id != 0));
    assert_eq!(game.base.current, 20);
}

#[test]
fn undefended_base_falls() {
    let mut game = level();
    let mut ticks = 0;
    while game.outcome().is_none() {
        let (shots, kills) = tick(&mut game, 20);
        assert!(shots.is_empty());
        assert_eq!(kills, 0);
        assert!(game.base.current <= 20);
        ticks += 1;
        assert!(ticks < 10_000);
    }
    assert_eq!(game.base.current, 0);
    assert_eq!(game.currency.coins, 10);
    assert_eq!(game.play_time.millis, 2_000 * 20 + 40_000);
    assert_eq!(game.outcome(), Some(GameState::GameOver));
}

#[test]
fn game_runs_the_same_way_twice() {
    let run = || {
        let mut game = level();
        game.place_tower(Coord::new(0, -1));
        game.place_tower(Coord::new(2, 1));
        let mut fired = 0;
        let mut killed = 0;
        for step in 0..4_000u32 {
            let (shots, kills) = tick(&mut game, 10 + step % 13);
            fired += shots.len();
            killed += kills;
        }
        (game.enemies, game.towers, game.projectiles, game.base, game.currency, fired, killed)
    };
    let first = run();
    let second = run();
    assert_eq!(first, second);
    assert_eq!(first.4.coins as usize, killed_coins(first.6));
}

fn killed_coins(kills: usize) -> usize {
    kills
}
