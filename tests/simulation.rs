use game_server::components::{
    Bullet, GameState, PartialPlayer, Player, WebSocketClientData, MAX_HP, POS_SCALE, SPAWN_POS,
    SENTINEL_POS,
};
use game_server::game_logic::{is_colliding, pacing_delay, tick_interval_us, TickClock};

fn bullet(x: i64, y: i64, velx: i32, vely: i32, life: i64, owner: &str) -> Bullet {
    Bullet { x, y, velx, vely, life, owner: owner.to_string() }
}

fn player_of(w: &GameState, id: &str) -> Option<Player> {
    w.players.iter().find(|e| e.0 == id).map(|e| e.1)
}

#[test]
fn projectile_moves_and_ages() {
    // 100 world units per second is 100_000 micro-units per millisecond.
    let mut w = GameState::new();
    w.append_projectiles(vec![bullet(0, 0, 100_000, 0, 1_000, "B")]);
    for _ in 0..5 {
        w.update_logic(100);
    }
    assert_eq!(w.bullets.len(), 1);
    assert_eq!(w.bullets[0].x, 50 * POS_SCALE);
    assert_eq!(w.bullets[0].y, 0);
    assert_eq!(w.bullets[0].life, 500);
}

#[test]
fn spent_projectile_removed_on_next_tick() {
    let mut w = GameState::new();
    w.append_projectiles(vec![bullet(0, 0, 1, 1, 50, "B")]);
    w.update_logic(100);
    assert_eq!(w.bullets.len(), 1);
    assert_eq!(w.bullets[0].life, -50);
    w.update_logic(100);
    assert!(w.bullets.is_empty());
}

#[test]
fn projectile_with_no_life_never_moves() {
    let mut w = GameState::new();
    w.append_projectiles(vec![bullet(0, 0, 1, 1, 0, "B"), bullet(7, 7, 1, 0, 10, "B")]);
    w.step_projectiles(3);
    assert_eq!(w.bullets.len(), 1);
    assert_eq!(w.bullets[0].x, 10);
    assert_eq!(w.bullets[0].life, 7);
}

#[test]
fn position_saturates_at_edge() {
    let mut w = GameState::new();
    w.append_projectiles(vec![bullet(i64::MAX - 5, i64::MIN + 5, 100, -100, 10, "B")]);
    w.step_projectiles(1);
    assert_eq!(w.bullets[0].x, i64::MAX);
    assert_eq!(w.bullets[0].y, i64::MIN);
}

#[test]
fn hit_player_loses_ten_and_projectile_removed() {
    let mut w = GameState::new();
    w.insert_player("C");
    w.append_projectiles(vec![bullet(10 * POS_SCALE, 0, 0, 0, 1_000, "B")]);
    w.update_logic(16);
    assert_eq!(player_of(&w, "C").unwrap().hp, 90_000);
    assert!(w.bullets.is_empty());
}

#[test]
fn owner_is_never_hit() {
    let mut w = GameState::new();
    w.insert_player("C");
    w.append_projectiles(vec![bullet(0, 0, 0, 0, 1_000, "C")]);
    w.update_logic(16);
    assert_eq!(player_of(&w, "C").unwrap().hp, MAX_HP);
    assert_eq!(w.bullets.len(), 1);
}

#[test]
fn projectile_can_hit_several_players() {
    let mut w = GameState::new();
    w.insert_player("C");
    w.insert_player("D");
    w.insert_player("E");
    w.append_projectiles(vec![bullet(0, 0, 0, 0, 1_000, "E")]);
    let hits = w.resolve_collisions();
    assert_eq!(hits, vec!["C".to_string(), "D".to_string()]);
    assert!(w.bullets.is_empty());
}

#[test]
fn collision_radius_is_strict() {
    assert!(is_colliding(0, 0, 24 * POS_SCALE, 0));
    assert!(!is_colliding(0, 0, 25 * POS_SCALE, 0));
    assert!(is_colliding(0, 0, 15 * POS_SCALE, 19 * POS_SCALE));
    assert!(!is_colliding(0, 0, 15 * POS_SCALE, 20 * POS_SCALE));
    assert!(!is_colliding(i64::MIN, 0, i64::MAX, 0));
}

#[test]
fn ten_hits_kill_then_respawn() {
    let mut w = GameState::new();
    w.insert_player("C");
    for _ in 0..10 {
        w.append_projectiles(vec![bullet(0, 0, 0, 0, 1_000, "B")]);
        w.update_logic(1);
    }
    assert_eq!(player_of(&w, "C"), Some(Player { x: SENTINEL_POS, y: SENTINEL_POS, hp: MAX_HP }));
    assert_eq!(w.respawns.len(), 1);
    w.update_logic(4_000);
    assert_eq!(player_of(&w, "C").unwrap().x, SENTINEL_POS);
    w.update_logic(1_000);
    assert_eq!(player_of(&w, "C"), Some(Player { x: SPAWN_POS, y: SPAWN_POS, hp: MAX_HP }));
    assert!(w.respawns.is_empty());
}

#[test]
fn client_update_then_tick() {
    let mut w = GameState::new();
    w.insert_player("A");
    w.apply_client_update(
        "A",
        WebSocketClientData {
            player: PartialPlayer { x: POS_SCALE, y: 0, hp: None },
            new_bullets: vec![bullet(0, 0, 1_000, 0, 100, "A")],
        },
    );
    w.update_logic(10);
    assert_eq!(w.bullets[0].x, 10_000);
    assert_eq!(player_of(&w, "A").unwrap().hp, MAX_HP);
}

#[test]
fn tick_interval_and_pacing() {
    assert_eq!(tick_interval_us(60), 16_666);
    assert_eq!(tick_interval_us(120), 8_333);
    assert_eq!(pacing_delay(6_000, 16_666), 10_666);
    assert_eq!(pacing_delay(16_666, 16_666), 0);
    assert_eq!(pacing_delay(40_000, 16_666), 0);
}

#[test]
fn tick_clock_carries_remainder() {
    let mut c = TickClock::new(1_000);
    assert_eq!(c.take_dt(17_666), 16);
    assert_eq!(c.last_us, 17_000);
    assert_eq!(c.take_dt(34_333), 17);
    assert_eq!(c.last_us, 34_000);
    assert_eq!(c.take_dt(10), 0);
    assert_eq!(c.last_us, 34_000);
}
