use vstd::prelude::*;

use crate::components::{
    bullets_model, has_id, hp_valid, ids_unique, players_model, respawns_model, Bullet, BulletModel,
    GameState, PartialPlayer, Player, WebSocketClientData, WorldModel, MAX_HP,
    MAX_STEP, SENTINEL_POS, SPAWN_POS,
};

verus! {

/// Squared distance between two points.
pub open spec fn dist_sq(ax: int, ay: int, bx: int, by: int) -> int {
    (ax - bx) * (ax - bx) + (ay - by) * (ay - by)
}

/// A client may move its player to `(x, y)` only within `MAX_STEP` of its
/// last known position.
pub open spec fn within_step(p: Player, x: i64, y: i64) -> bool {
    dist_sq(p.x as int, p.y as int, x as int, y as int) <= MAX_STEP * MAX_STEP
}

/// An update whose hp lies outside `[0, MAX_HP]` is rejected as a whole.
pub open spec fn update_rejected(u: PartialPlayer) -> bool {
    match u.hp {
        Some(h) => !hp_valid(h as int),
        None => false,
    }
}

/// The player after an accepted update: the position is taken only when the
/// move is within `MAX_STEP`, the hp whenever it is given.
pub open spec fn updated_player(p: Player, u: PartialPlayer) -> Player {
    let moved = if within_step(p, u.x, u.y) { Player { x: u.x, y: u.y, hp: p.hp } } else { p };
    match u.hp {
        Some(h) => Player { hp: h, ..moved },
        None => moved,
    }
}

/// Applies `f` to the player of every entry whose identifier is `id`.
pub open spec fn update_entries(
    ps: Seq<(Seq<char>, Player)>,
    id: Seq<char>,
    f: spec_fn(Player) -> Player,
) -> Seq<(Seq<char>, Player)> {
    ps.map_values(|e: (Seq<char>, Player)| if e.0 == id { (e.0, f(e.1)) } else { e })
}

/// The world after client `id` sent the update `u` with the new projectiles
/// `nb`. A rejected update changes nothing. Otherwise the projectiles are
/// appended even when the position is dropped for moving too far.
pub open spec fn apply_update(
    w: WorldModel,
    id: Seq<char>,
    u: PartialPlayer,
    nb: Seq<BulletModel>,
) -> WorldModel {
    if update_rejected(u) {
        w
    } else {
        WorldModel {
            players: update_entries(w.players, id, |p: Player| updated_player(p, u)),
            bullets: w.bullets + nb,
            respawns: w.respawns,
        }
    }
}

/// The world after a player with identifier `id` joined at the origin with
/// full health (replacing an entry of the same identifier).
pub open spec fn join(w: WorldModel, id: Seq<char>) -> WorldModel {
    let fresh = Player { x: 0, y: 0, hp: MAX_HP };
    WorldModel {
        players: if has_id(w.players, id) {
            update_entries(w.players, id, |p: Player| fresh)
        } else {
            w.players.push((id, fresh))
        },
        ..w
    }
}

/// The entries whose identifier is not `id`, in their order.
pub open spec fn without_id(ps: Seq<(Seq<char>, Player)>, id: Seq<char>) -> Seq<(Seq<char>, Player)> {
    ps.filter(other_than(id))
}

pub open spec fn other_than(id: Seq<char>) -> spec_fn((Seq<char>, Player)) -> bool {
    |e: (Seq<char>, Player)| e.0 != id
}

/// The world after the player `id` left.
pub open spec fn leave(w: WorldModel, id: Seq<char>) -> WorldModel {
    WorldModel { players: without_id(w.players, id), ..w }
}

/// Decides `within_step` without overflow.
pub fn is_within_step(p: &Player, x: i64, y: i64) -> (r: bool)
    ensures
        r == within_step(*p, x, y),
{
    let dx: i128 = p.x as i128 - x as i128;
    let dy: i128 = p.y as i128 - y as i128;
    let m: i128 = MAX_STEP as i128;
    if dx > m || dx < -m || dy > m || dy < -m {
        proof {
            let ddx = dx as int;
            let ddy = dy as int;
            let mm = m as int;
            assert(ddx * ddx > mm * mm || ddy * ddy > mm * mm) by (nonlinear_arith)
                requires
                    ddx > mm || ddx < -mm || ddy > mm || ddy < -mm,
                    mm > 0,
            ;
            assert(ddx * ddx >= 0 && ddy * ddy >= 0) by (nonlinear_arith);
        }
        false
    } else {
        proof {
            let ddx = dx as int;
            let ddy = dy as int;
            let mm = m as int;
            assert(ddx * ddx <= mm * mm && ddy * ddy <= mm * mm) by (nonlinear_arith)
                requires
                    -mm <= ddx <= mm,
                    -mm <= ddy <= mm,
                    mm > 0,
            ;
            assert(mm * mm == 2_500_000_000_000_000);
            assert(0 <= ddx * ddx && 0 <= ddy * ddy) by (nonlinear_arith);
        }
        dx * dx + dy * dy <= m * m
    }
}

/// The player after the update `u` (which must not be rejected).
pub fn updated(p: &Player, u: &PartialPlayer) -> (r: Player)
    ensures
        r == updated_player(*p, *u),
{
    let mut r = *p;
    if is_within_step(p, u.x, u.y) {
        r.x = u.x;
        r.y = u.y;
    }
    match u.hp {
        Some(h) => {
            r.hp = h;
        },
        None => {},
    }
    r
}

/// A change made to a registered player.
#[derive(Copy, Clone, Debug)]
pub enum PlayerEdit {
    /// Back to the origin with full health.
    Reset,
    /// A client update that is not rejected.
    Update(PartialPlayer),
    /// A projectile hit dealing the given damage.
    Hit(u32),
    /// Move to the spawn point.
    Respawn,
}

/// A player hit for `damage`: a player whose hp drops to zero or below gets
/// full hp back and is moved to the out-of-map sentinel.
pub open spec fn hit_player(p: Player, damage: u32) -> Player {
    if p.hp - damage <= 0 {
        Player { x: SENTINEL_POS, y: SENTINEL_POS, hp: MAX_HP }
    } else {
        Player { hp: (p.hp - damage) as i64, ..p }
    }
}

pub open spec fn edited(p: Player, e: PlayerEdit) -> Player {
    match e {
        PlayerEdit::Reset => Player { x: 0, y: 0, hp: MAX_HP },
        PlayerEdit::Update(u) => updated_player(p, u),
        PlayerEdit::Hit(d) => hit_player(p, d),
        PlayerEdit::Respawn => Player { x: SPAWN_POS, y: SPAWN_POS, hp: p.hp },
    }
}

pub open spec fn edit_dies(p: Player, e: PlayerEdit) -> bool {
    match e {
        PlayerEdit::Hit(d) => p.hp - d <= 0,
        _ => false,
    }
}

pub open spec fn edit_allowed(e: PlayerEdit) -> bool {
    match e {
        PlayerEdit::Update(u) => !update_rejected(u),
        _ => true,
    }
}

/// The players after `e` was applied to every entry of identifier `id`.
pub open spec fn edit_entries(ps: Seq<(Seq<char>, Player)>, id: Seq<char>, e: PlayerEdit) -> Seq<(Seq<char>, Player)> {
    update_entries(ps, id, |p: Player| edited(p, e))
}

/// Removing entries keeps identifiers unique and hp in range.
pub proof fn lemma_filter_keeps_wf(ps: Seq<(Seq<char>, Player)>, id: Seq<char>)
    requires
        ids_unique(ps),
        forall|i: int| 0 <= i < ps.len() ==> hp_valid(#[trigger] ps[i].1.hp as int),
    ensures
        ids_unique(without_id(ps, id)),
        forall|i: int|
            0 <= i < without_id(ps, id).len() ==> hp_valid(#[trigger] without_id(ps, id)[i].1.hp as int),
    decreases ps.len(),
{
    let pred = other_than(id);
    let out = ps.filter(pred);
    if ps.len() > 0 {
        let rest = ps.drop_last();
        let last = ps.last();
        assert(rest.push(last) =~= ps);
        assert(ids_unique(rest));
        assert forall|i: int| 0 <= i < rest.len() implies hp_valid(#[trigger] rest[i].1.hp as int) by {
            assert(rest[i] == ps[i]);
        }
        lemma_filter_keeps_wf(rest, id);
        rest.lemma_filter_push(last, pred);
        let rout = rest.filter(pred);
        assert forall|k: int| 0 <= k < rout.len() implies rout[k].0 != last.0 by {
            assert(rout.contains(rout[k]));
            rest.lemma_filter_contains_rev(pred, rout[k]);
            let j = choose|j: int| 0 <= j < rest.len() && rest[j] == rout[k];
            assert(ps[j] == rest[j]);
        }
        if pred(last) {
            assert(out == rout.push(last));
            assert forall|a: int, b: int| 0 <= a < out.len() && 0 <= b < out.len() && a != b
                implies out[a].0 != out[b].0 by {
                if a < rout.len() && b < rout.len() {
                    assert(out[a] == rout[a] && out[b] == rout[b]);
                }
            }
            assert forall|k: int| 0 <= k < out.len() implies hp_valid(#[trigger] out[k].1.hp as int) by {
                if k < rout.len() {
                    assert(out[k] == rout[k]);
                }
            }
        } else {
            assert(out == rout);
            assert forall|k: int| 0 <= k < out.len() implies hp_valid(#[trigger] out[k].1.hp as int) by {
                assert(out[k] == rout[k]);
            }
        }
        assert(hp_valid(ps[ps.len() - 1].1.hp as int));
    } else {
        reveal(Seq::filter);
        assert(out.len() == 0);
    }
}

impl GameState {
    /// Applies `e` to every player registered under `key`; tells whether one
    /// was found and whether the edit killed one.
    pub(crate) fn edit_players(&mut self, key: &String, e: PlayerEdit) -> (r: (bool, bool))
        requires
            old(self)@.wf(),
            edit_allowed(e),
        ensures
            final(self)@ == (WorldModel { players: edit_entries(old(self)@.players, key@, e), ..old(self)@ }),
            final(self)@.wf(),
            r.0 == has_id(old(self)@.players, key@),
            r.1 == (exists|j: int|
                0 <= j < old(self)@.players.len() && old(self)@.players[j].0 == key@
                    && edit_dies(old(self)@.players[j].1, e)),
    {
        let ghost w = self@;
        let mut found = false;
        let mut died = false;
        let mut i: usize = 0;
        while i < self.players.len()
            invariant
                0 <= i <= self.players.len(),
                w.wf(),
                edit_allowed(e),
                self.players@.len() == w.players.len(),
                self@.bullets == w.bullets,
                self@.respawns == w.respawns,
                found == (exists|j: int| 0 <= j < i && w.players[j].0 == key@),
                died == (exists|j: int|
                    0 <= j < i && w.players[j].0 == key@ && edit_dies(w.players[j].1, e)),
                forall|j: int|
                    0 <= j < i ==> (#[trigger] self.players@[j]).0@ == w.players[j].0
                        && self.players@[j].1 == (if w.players[j].0 == key@ {
                        edited(w.players[j].1, e)
                    } else {
                        w.players[j].1
                    }),
                forall|j: int|
                    i <= j < self.players.len() ==> (#[trigger] self.players@[j]).0@
                        == w.players[j].0 && self.players@[j].1 == w.players[j].1,
            decreases self.players.len() - i,
        {
            if self.players[i].0 == *key {
                assert(w.players[i as int].0 == key@);
                assert(hp_valid(w.players[i as int].1.hp as int));
                let mut p = self.players[i].1;
                match e {
                    PlayerEdit::Reset => {
                        p = Player::default();
                    },
                    PlayerEdit::Update(u) => {
                        p = updated(&p, &u);
                    },
                    PlayerEdit::Hit(d) => {
                        if p.take_damage(d) {
                            p.x = SENTINEL_POS;
                            p.y = SENTINEL_POS;
                            died = true;
                        }
                    },
                    PlayerEdit::Respawn => {
                        p.x = SPAWN_POS;
                        p.y = SPAWN_POS;
                    },
                }
                self.players.set(i, (key.clone(), p));
                found = true;
            }
            i = i + 1;
        }
        assert(self@.players =~= edit_entries(w.players, key@, e));
        assert forall|a: int, b: int|
            0 <= a < self@.players.len() && 0 <= b < self@.players.len() && a != b
            implies self@.players[a].0 != self@.players[b].0 by {
            assert(self.players@[a].0@ == w.players[a].0);
            assert(self.players@[b].0@ == w.players[b].0);
        }
        assert forall|j: int| 0 <= j < self@.players.len() implies hp_valid(#[trigger] self@.players[j].1.hp as int) by {
            assert(self.players@[j].0@ == w.players[j].0);
            assert(hp_valid(w.players[j].1.hp as int));
        }
        (found, died)
    }

    /// Registers a player with default stats under `id`, replacing any
    /// player already registered there.
    pub fn insert_player(&mut self, id: &str)
        requires
            old(self)@.wf(),
        ensures
            final(self)@ == join(old(self)@, id@),
            final(self)@.wf(),
    {
        let key = id.to_owned();
        let ghost w = self@;
        let (found, _) = self.edit_players(&key, PlayerEdit::Reset);
        if !found {
            assert(self@.players =~= w.players);
            self.players.push((key, Player::default()));
            assert(self@.players =~= w.players.push((id@, Player { x: 0, y: 0, hp: MAX_HP })));
        } else {
            assert(edit_entries(w.players, id@, PlayerEdit::Reset) =~= update_entries(
                w.players,
                id@,
                |p: Player| Player { x: 0, y: 0, hp: MAX_HP },
            ));
        }
    }

    /// Removes the player registered under `id`, if any.
    pub fn remove_player(&mut self, id: &str)
        requires
            old(self)@.wf(),
        ensures
            final(self)@ == leave(old(self)@, id@),
            final(self)@.wf(),
    {
        let ghost w = self@;
        let key = id.to_owned();
        let mut kept: Vec<(String, Player)> = Vec::new();
        let mut i: usize = 0;
        while i < self.players.len()
            invariant
                0 <= i <= self.players.len(),
                key@ == id@,
                self@ == w,
                players_model(kept@) == w.players.subrange(0, i as int).filter(other_than(id@)),
            decreases self.players.len() - i,
        {
            let ghost before = kept@;
            proof {
                assert(w.players.subrange(0, i + 1) =~= w.players.subrange(0, i as int).push(w.players[i as int]));
                w.players.subrange(0, i as int).lemma_filter_push(w.players[i as int], other_than(id@));
            }
            if !(self.players[i].0 == key) {
                kept.push((self.players[i].0.clone(), self.players[i].1));
                assert(players_model(kept@) =~= players_model(before).push(w.players[i as int]));
            }
            i = i + 1;
        }
        assert(w.players.subrange(0, i as int) =~= w.players);
        self.players = kept;
        proof {
            lemma_filter_keeps_wf(w.players, id@);
        }
    }

    /// Applies a client update sent by the connection `id`: see
    /// `apply_update`. An update with an out-of-range hp changes nothing.
    pub fn apply_client_update(&mut self, id: &str, data: WebSocketClientData)
        requires
            old(self)@.wf(),
        ensures
            final(self)@ == apply_update(old(self)@, id@, data.player, data.bullets_model()),
            final(self)@.wf(),
    {
        let u = data.player;
        let rejected = match u.hp {
            Some(h) => h < 0 || h > MAX_HP,
            None => false,
        };
        if rejected {
            return;
        }
        let ghost w = self@;
        let key = id.to_owned();
        let _ = self.edit_players(&key, PlayerEdit::Update(u));
        assert(edit_entries(w.players, id@, PlayerEdit::Update(u)) =~= update_entries(
            w.players,
            id@,
            |p: Player| updated_player(p, u),
        ));
        self.append_projectiles(data.new_bullets);
    }

    /// Adds projectiles at the end of the list.
    pub fn append_projectiles(&mut self, new_bullets: Vec<Bullet>)
        ensures
            final(self)@ == (WorldModel {
                bullets: old(self)@.bullets + bullets_model(new_bullets@),
                ..old(self)@
            }),
    {
        let ghost old_bs = self.bullets@;
        let mut nb = new_bullets;
        self.bullets.append(&mut nb);
        assert(bullets_model(self.bullets@) =~= bullets_model(old_bs) + bullets_model(new_bullets@));
    }

    /// A deep copy of the world, for sending without holding the lock.
    pub fn get_snapshot(&self) -> (r: GameState)
        ensures
            r@ == self@,
    {
        let mut players: Vec<(String, Player)> = Vec::new();
        let mut i: usize = 0;
        while i < self.players.len()
            invariant
                0 <= i <= self.players.len(),
                players_model(players@) == self@.players.subrange(0, i as int),
            decreases self.players.len() - i,
        {
            let ghost before = players@;
            players.push((self.players[i].0.clone(), self.players[i].1));
            assert(players_model(players@) =~= players_model(before).push(self@.players[i as int]));
            assert(self@.players.subrange(0, i + 1) =~= self@.players.subrange(0, i as int).push(self@.players[i as int]));
            i = i + 1;
        }
        let mut bullets: Vec<Bullet> = Vec::new();
        let mut i: usize = 0;
        while i < self.bullets.len()
            invariant
                0 <= i <= self.bullets.len(),
                bullets_model(bullets@) == self@.bullets.subrange(0, i as int),
            decreases self.bullets.len() - i,
        {
            let ghost before = bullets@;
            bullets.push(self.bullets[i].duplicate());
            assert(bullets_model(bullets@) =~= bullets_model(before).push(self@.bullets[i as int]));
            assert(self@.bullets.subrange(0, i + 1) =~= self@.bullets.subrange(0, i as int).push(self@.bullets[i as int]));
            i = i + 1;
        }
        let mut respawns: Vec<(String, i64)> = Vec::new();
        let mut i: usize = 0;
        while i < self.respawns.len()
            invariant
                0 <= i <= self.respawns.len(),
                respawns_model(respawns@) == self@.respawns.subrange(0, i as int),
            decreases self.respawns.len() - i,
        {
            let ghost before = respawns@;
            respawns.push((self.respawns[i].0.clone(), self.respawns[i].1));
            assert(respawns_model(respawns@) =~= respawns_model(before).push(self@.respawns[i as int]));
            assert(self@.respawns.subrange(0, i + 1) =~= self@.respawns.subrange(0, i as int).push(self@.respawns[i as int]));
            i = i + 1;
        }
        let r = GameState { players, bullets, respawns };
        assert(r@.players =~= self@.players);
        assert(r@.bullets =~= self@.bullets);
        assert(r@.respawns =~= self@.respawns);
        r
    }
}

} // verus!
