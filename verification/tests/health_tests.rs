use tower_defense::base::{base_destroy, BASE_HEALTH};
use tower_defense::currency::{Currency, STARTING_COINS};
use tower_defense::game_state::GameState;
use tower_defense::health::Health;

#[test]
fn new_health_is_full() {
    let h = Health::new(6);
    assert_eq!(h.max, 6);
    assert_eq!(h.current, 6);
}

#[test]
fn damage_takes_points_off() {
    let mut h = Health::new(6);
    h.damage(1);
    assert_eq!(h, Health { max: 6, current: 5 });
    h.damage(3);
    assert_eq!(h, Health { max: 6, current: 2 });
}

#[test]
fn damage_may_pass_zero_once() {
    let mut h = Health { max: 6, current: 2 };
    h.damage(5);
    assert_eq!(h.current, -3);
    h.damage(5);
    assert_eq!(h.current, -3);
    h.damage(1);
    assert_eq!(h.current, -3);
}

#[test]
fn damage_on_depleted_health_is_a_no_op() {
    let mut h = Health { max: 6, current: 0 };
    h.damage(1);
    assert_eq!(h, Health { max: 6, current: 0 });
    let mut h = Health { max: 6, current: -4 };
    h.damage(i32::MAX);
    assert_eq!(h, Health { max: 6, current: -4 });
}

#[test]
fn zero_and_negative_damage_are_no_ops() {
    let mut h = Health::new(6);
    h.damage(0);
    assert_eq!(h.current, 6);
    h.damage(-3);
    assert_eq!(h.current, 6);
    h.damage(i32::MIN);
    assert_eq!(h.current, 6);
}

#[test]
fn extreme_damage_does_not_overflow() {
    let mut h = Health::new(1);
    h.damage(i32::MAX);
    assert_eq!(h.current, 1 - i32::MAX);
    let mut h = Health::new(i32::MAX);
    h.damage(i32::MAX);
    assert_eq!(h.current, 0);
}

#[test]
fn repeated_damage_stays_within_bounds() {
    let mut h = Health::new(20);
    let mut frozen: Option<i32> = None;
    for d in [3, 0, 7, -2, 9, 4, 1, 100, 5] {
        let before = h.current;
        h.damage(d);
        assert!(h.current <= h.max);
        assert!(h.current <= before);
        assert_eq!(h.max, 20);
        if let Some(f) = frozen {
            assert_eq!(h.current, f);
        }
        if h.current <= 0 {
            frozen = Some(h.current);
        }
    }
    assert_eq!(h.current, -3);
}

#[test]
fn currency_starts_with_ten_coins() {
    assert_eq!(STARTING_COINS, 10);
    assert_eq!(Currency::new().coins, 10);
}

#[test]
fn earn_adds_coins() {
    let mut c = Currency::new();
    c.earn(1);
    assert_eq!(c.coins, 11);
    c.earn(0);
    assert_eq!(c.coins, 11);
    c.earn(30);
    assert_eq!(c.coins, 41);
}

#[test]
fn earn_stops_at_the_largest_count() {
    let mut c = Currency { coins: i32::MAX - 1 };
    c.earn(5);
    assert_eq!(c.coins, i32::MAX);
    c.earn(usize::MAX);
    assert_eq!(c.coins, i32::MAX);
    let mut c = Currency { coins: -10 };
    c.earn(4);
    assert_eq!(c.coins, -6);
}

#[test]
fn spend_pays_when_the_purse_holds_enough() {
    let mut c = Currency { coins: 7 };
    assert!(c.spend(5));
    assert_eq!(c.coins, 2);
    assert!(!c.spend(5));
    assert_eq!(c.coins, 2);
    assert!(c.spend(2));
    assert_eq!(c.coins, 0);
    assert!(c.spend(0));
    assert_eq!(c.coins, 0);
}

#[test]
fn spend_refuses_a_purse_in_debt() {
    let mut c = Currency { coins: -1 };
    assert!(!c.spend(0));
    assert_eq!(c.coins, -1);
}

#[test]
fn base_has_twenty_hit_points() {
    assert_eq!(BASE_HEALTH, 20);
}

#[test]
fn game_is_over_when_the_base_is_depleted() {
    assert_eq!(base_destroy(&Health { max: 20, current: 0 }), Some(GameState::GameOver));
    assert_eq!(base_destroy(&Health { max: 20, current: -2 }), Some(GameState::GameOver));
    assert_eq!(base_destroy(&Health { max: 20, current: 1 }), None);
    assert_eq!(base_destroy(&Health::new(BASE_HEALTH)), None);
}

#[test]
fn game_states_are_distinct() {
    let all = [GameState::LoadingMap, GameState::Playing, GameState::Paused, GameState::GameOver];
    for (i, a) in all.iter().enumerate() {
        for (j, b) in all.iter().enumerate() {
            assert_eq!(a == b, i == j);
        }
    }
}
