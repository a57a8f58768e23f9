use game_server::components::{
    GameState, PartialPlayer, Player, WebSocketClientData, Bullet, HIT_DAMAGE, MAX_HP, POS_SCALE,
    RESPAWN_MS, SENTINEL_POS, SPAWN_POS,
};

fn bullet(x: i64, y: i64, velx: i32, vely: i32, life: i64, owner: &str) -> Bullet {
    Bullet { x, y, velx, vely, life, owner: owner.to_string() }
}

fn update(x: i64, y: i64, hp: Option<i64>, bullets: Vec<Bullet>) -> WebSocketClientData {
    WebSocketClientData { player: PartialPlayer { x, y, hp }, new_bullets: bullets }
}

fn player_of(w: &GameState, id: &str) -> Option<Player> {
    w.players.iter().find(|e| e.0 == id).map(|e| e.1)
}

#[test]
fn insert_registers_default_player() {
    let mut w = GameState::new();
    w.insert_player("A");
    assert_eq!(player_of(&w, "A"), Some(Player { x: 0, y: 0, hp: MAX_HP }));
    assert_eq!(w.players.len(), 1);
}

#[test]
fn insert_twice_replaces_entry() {
    let mut w = GameState::new();
    w.insert_player("A");
    w.apply_client_update("A", update(POS_SCALE, POS_SCALE, Some(40_000), vec![]));
    w.insert_player("A");
    assert_eq!(w.players.len(), 1);
    assert_eq!(player_of(&w, "A"), Some(Player { x: 0, y: 0, hp: MAX_HP }));
}

#[test]
fn remove_player_drops_only_that_entry() {
    let mut w = GameState::new();
    w.insert_player("A");
    w.insert_player("B");
    w.remove_player("A");
    assert_eq!(player_of(&w, "A"), None);
    assert_eq!(player_of(&w, "B"), Some(Player { x: 0, y: 0, hp: MAX_HP }));
    w.remove_player("missing");
    assert_eq!(w.players.len(), 1);
}

#[test]
fn update_moves_within_step() {
    let mut w = GameState::new();
    w.insert_player("A");
    w.apply_client_update("A", update(10 * POS_SCALE, 10 * POS_SCALE, None, vec![]));
    assert_eq!(player_of(&w, "A"), Some(Player { x: 10 * POS_SCALE, y: 10 * POS_SCALE, hp: MAX_HP }));
}

#[test]
fn update_at_exact_step_limit_is_accepted() {
    let mut w = GameState::new();
    w.insert_player("A");
    w.apply_client_update("A", update(30 * POS_SCALE, 40 * POS_SCALE, None, vec![]));
    assert_eq!(player_of(&w, "A").unwrap().x, 30 * POS_SCALE);
    assert_eq!(player_of(&w, "A").unwrap().y, 40 * POS_SCALE);
}

#[test]
fn update_with_hp_out_of_range_changes_nothing() {
    let mut w = GameState::new();
    w.insert_player("A");
    w.apply_client_update("A", update(POS_SCALE, POS_SCALE, Some(150_000), vec![bullet(0, 0, 1, 1, 100, "A")]));
    assert_eq!(player_of(&w, "A"), Some(Player { x: 0, y: 0, hp: MAX_HP }));
    assert!(w.bullets.is_empty());
    w.apply_client_update("A", update(POS_SCALE, POS_SCALE, Some(-1), vec![]));
    assert_eq!(player_of(&w, "A"), Some(Player { x: 0, y: 0, hp: MAX_HP }));
}

#[test]
fn update_with_hp_in_range_sets_hp() {
    let mut w = GameState::new();
    w.insert_player("A");
    w.apply_client_update("A", update(0, 0, Some(0), vec![]));
    assert_eq!(player_of(&w, "A").unwrap().hp, 0);
}

#[test]
fn teleport_drops_position_but_keeps_projectiles() {
    let mut w = GameState::new();
    w.insert_player("A");
    w.apply_client_update(
        "A",
        update(100 * POS_SCALE, 0, Some(70_000), vec![bullet(5, 6, 7, 8, 900, "A")]),
    );
    let p = player_of(&w, "A").unwrap();
    assert_eq!((p.x, p.y), (0, 0));
    assert_eq!(p.hp, 70_000);
    assert_eq!(w.bullets.len(), 1);
    assert_eq!(w.bullets[0].x, 5);
    assert_eq!(w.bullets[0].owner, "A");
}

#[test]
fn update_for_unknown_player_still_appends_projectiles() {
    let mut w = GameState::new();
    w.apply_client_update("ghost", update(0, 0, None, vec![bullet(0, 0, 0, 0, 10, "ghost")]));
    assert!(w.players.is_empty());
    assert_eq!(w.bullets.len(), 1);
}

#[test]
fn disjoint_updates_commute() {
    let mut w1 = GameState::new();
    w1.insert_player("A");
    w1.insert_player("B");
    let mut w2 = w1.get_snapshot();
    let ua = || update(POS_SCALE, 2 * POS_SCALE, None, vec![bullet(1, 1, 0, 0, 10, "A")]);
    let ub = || update(-3 * POS_SCALE, 4 * POS_SCALE, Some(55_000), vec![bullet(2, 2, 0, 0, 10, "B")]);
    w1.apply_client_update("A", ua());
    w1.apply_client_update("B", ub());
    w2.apply_client_update("B", ub());
    w2.apply_client_update("A", ua());
    assert_eq!(w1.players, w2.players);
    assert_eq!(player_of(&w1, "A"), Some(Player { x: POS_SCALE, y: 2 * POS_SCALE, hp: MAX_HP }));
    assert_eq!(player_of(&w1, "B"), Some(Player { x: -3 * POS_SCALE, y: 4 * POS_SCALE, hp: 55_000 }));
    let mut o1: Vec<String> = w1.bullets.iter().map(|b| b.owner.clone()).collect();
    let mut o2: Vec<String> = w2.bullets.iter().map(|b| b.owner.clone()).collect();
    o1.sort();
    o2.sort();
    assert_eq!(o1, o2);
}

#[test]
fn snapshot_is_a_deep_copy() {
    let mut w = GameState::new();
    w.insert_player("A");
    w.append_projectiles(vec![bullet(1, 2, 3, 4, 5, "A")]);
    let s = w.get_snapshot();
    w.remove_player("A");
    assert_eq!(s.players.len(), 1);
    assert_eq!(s.bullets[0].life, 5);
    assert_eq!(s.bullets[0].owner, "A");
}

#[test]
fn take_damage_survives_and_dies() {
    let mut p = Player { x: 3, y: 4, hp: 25_000 };
    assert!(!p.take_damage(HIT_DAMAGE));
    assert_eq!(p, Player { x: 3, y: 4, hp: 15_000 });
    assert!(!p.take_damage(HIT_DAMAGE));
    assert_eq!(p.hp, 5_000);
    assert!(p.take_damage(HIT_DAMAGE));
    assert_eq!(p, Player { x: 3, y: 4, hp: MAX_HP });
}

#[test]
fn take_damage_exactly_to_zero_dies() {
    let mut p = Player { x: 0, y: 0, hp: 10_000 };
    assert!(p.take_damage(10_000));
    assert_eq!(p.hp, MAX_HP);
}

#[test]
fn lethal_damage_sends_to_sentinel_and_starts_timer() {
    let mut w = GameState::new();
    w.insert_player("C");
    w.apply_client_update("C", update(0, 0, Some(5_000), vec![]));
    assert!(w.apply_damage("C", HIT_DAMAGE));
    assert_eq!(player_of(&w, "C"), Some(Player { x: SENTINEL_POS, y: SENTINEL_POS, hp: MAX_HP }));
    assert_eq!(w.respawns, vec![("C".to_string(), RESPAWN_MS)]);
}

#[test]
fn damage_to_unknown_player_does_nothing() {
    let mut w = GameState::new();
    assert!(!w.apply_damage("nobody", HIT_DAMAGE));
    assert!(w.respawns.is_empty());
}

#[test]
fn respawn_happens_when_timer_runs_out() {
    let mut w = GameState::new();
    w.insert_player("C");
    w.apply_client_update("C", update(0, 0, Some(5_000), vec![]));
    w.apply_damage("C", HIT_DAMAGE);
    w.tick_respawns(4_000);
    assert_eq!(player_of(&w, "C").unwrap().x, SENTINEL_POS);
    assert_eq!(w.respawns, vec![("C".to_string(), 1_000)]);
    w.tick_respawns(1_000);
    assert_eq!(player_of(&w, "C"), Some(Player { x: SPAWN_POS, y: SPAWN_POS, hp: MAX_HP }));
    assert!(w.respawns.is_empty());
}

#[test]
fn dead_player_cannot_move_back() {
    let mut w = GameState::new();
    w.insert_player("C");
    w.apply_client_update("C", update(0, 0, Some(1_000), vec![]));
    w.apply_damage("C", HIT_DAMAGE);
    w.apply_client_update("C", update(0, 0, None, vec![]));
    assert_eq!(player_of(&w, "C").unwrap().x, SENTINEL_POS);
}
