use vstd::prelude::*;

use crate::components::{
    bullets_model, players_model, respawns_model, Bullet, BulletModel,
    GameState, Player, WorldModel, COLLISION_RADIUS, HIT_DAMAGE, RESPAWN_MS,
};
use crate::world::{dist_sq, edit_entries, PlayerEdit};

verus! {

/// `v` saturated to the range of `i64`.
pub open spec fn clamp_i64(v: int) -> i64 {
    if v < i64::MIN {
        i64::MIN
    } else if v > i64::MAX {
        i64::MAX
    } else {
        v as i64
    }
}

pub open spec fn is_live(b: BulletModel) -> bool {
    b.life > 0
}

pub open spec fn live() -> spec_fn(BulletModel) -> bool {
    |b: BulletModel| is_live(b)
}

/// A live projectile after `dt` milliseconds: life shortened by `dt`,
/// position moved by velocity times `dt` (saturating at the edge of `i64`).
pub open spec fn advanced(b: BulletModel, dt: u32) -> BulletModel {
    BulletModel {
        x: clamp_i64(b.x + b.velx * dt),
        y: clamp_i64(b.y + b.vely * dt),
        life: (b.life - dt) as i64,
        ..b
    }
}

/// Projectiles after one motion step: the spent ones (life at or below zero)
/// are dropped, the others are advanced by `dt`.
pub open spec fn stepped(bs: Seq<BulletModel>, dt: u32) -> Seq<BulletModel> {
    bs.filter(live()).map_values(|b: BulletModel| advanced(b, dt))
}

/// A point is inside the collision circle around another one.
pub open spec fn colliding(px: int, py: int, bx: int, by: int) -> bool {
    dist_sq(px, py, bx, by) < COLLISION_RADIUS * COLLISION_RADIUS
}

/// Identifiers of the players that projectile `b` hits, in player order:
/// every player within the collision radius except its owner.
pub open spec fn targets(b: BulletModel, ps: Seq<(Seq<char>, Player)>) -> Seq<Seq<char>>
    decreases ps.len(),
{
    if ps.len() == 0 {
        seq![]
    } else {
        let rest = targets(b, ps.drop_last());
        let e = ps.last();
        if e.0 != b.owner && colliding(e.1.x as int, e.1.y as int, b.x as int, b.y as int) {
            rest.push(e.0)
        } else {
            rest
        }
    }
}

/// Every hit of every projectile, projectile by projectile.
pub open spec fn all_hits(bs: Seq<BulletModel>, ps: Seq<(Seq<char>, Player)>) -> Seq<Seq<char>>
    decreases bs.len(),
{
    if bs.len() == 0 {
        seq![]
    } else {
        all_hits(bs.drop_last(), ps) + targets(bs.last(), ps)
    }
}

pub open spec fn missed(ps: Seq<(Seq<char>, Player)>) -> spec_fn(BulletModel) -> bool {
    |b: BulletModel| targets(b, ps).len() == 0
}

/// The world after collisions are resolved: projectiles that hit anyone are
/// gone.
pub open spec fn after_collisions(w: WorldModel) -> WorldModel {
    WorldModel { bullets: w.bullets.filter(missed(w.players)), ..w }
}

/// Some player registered under `id` dies of `amount` damage.
pub open spec fn hit_kills(ps: Seq<(Seq<char>, Player)>, id: Seq<char>, amount: u32) -> bool {
    exists|j: int| 0 <= j < ps.len() && ps[j].0 == id && ps[j].1.hp - amount <= 0
}

/// The world after the player `id` took `amount` damage: a player that dies
/// gets full hp, moves to the sentinel and starts a respawn timer.
pub open spec fn damaged(w: WorldModel, id: Seq<char>, amount: u32) -> WorldModel {
    WorldModel {
        players: edit_entries(w.players, id, PlayerEdit::Hit(amount)),
        respawns: if hit_kills(w.players, id, amount) {
            w.respawns.push((id, RESPAWN_MS))
        } else {
            w.respawns
        },
        ..w
    }
}

/// The world after every hit in `hits`, in order, dealt `HIT_DAMAGE`.
pub open spec fn damaged_all(w: WorldModel, hits: Seq<Seq<char>>) -> WorldModel
    decreases hits.len(),
{
    if hits.len() == 0 {
        w
    } else {
        damaged(damaged_all(w, hits.drop_last()), hits.last(), HIT_DAMAGE)
    }
}

/// Players and remaining timers after the timers in `rs` ran for `dt`: a
/// timer that reaches zero or below moves its player to the spawn point and
/// ends; the others keep running, shortened by `dt`.
pub open spec fn respawned(
    ps: Seq<(Seq<char>, Player)>,
    rs: Seq<(Seq<char>, i64)>,
    dt: u32,
) -> (Seq<(Seq<char>, Player)>, Seq<(Seq<char>, i64)>)
    decreases rs.len(),
{
    if rs.len() == 0 {
        (ps, seq![])
    } else {
        let prev = respawned(ps, rs.drop_last(), dt);
        let (id, t) = rs.last();
        if t - dt <= 0 {
            (edit_entries(prev.0, id, PlayerEdit::Respawn), prev.1)
        } else {
            (prev.0, prev.1.push((id, (t - dt) as i64)))
        }
    }
}

pub open spec fn after_respawns(w: WorldModel, dt: u32) -> WorldModel {
    let r = respawned(w.players, w.respawns, dt);
    WorldModel { players: r.0, respawns: r.1, ..w }
}

/// One simulation tick of `dt` milliseconds.
pub open spec fn ticked(w: WorldModel, dt: u32) -> WorldModel {
    let moved = WorldModel { bullets: stepped(w.bullets, dt), ..w };
    let hits = all_hits(moved.bullets, moved.players);
    after_respawns(damaged_all(after_collisions(moved), hits), dt)
}

/// Decides `colliding` without overflow.
pub fn is_colliding(px: i64, py: i64, bx: i64, by: i64) -> (r: bool)
    ensures
        r == colliding(px as int, py as int, bx as int, by as int),
{
    let dx: i128 = px as i128 - bx as i128;
    let dy: i128 = py as i128 - by as i128;
    let m: i128 = COLLISION_RADIUS as i128;
    if dx > m || dx < -m || dy > m || dy < -m {
        proof {
            let ddx = dx as int;
            let ddy = dy as int;
            let mm = m as int;
            assert(ddx * ddx > mm * mm || ddy * ddy > mm * mm) by (nonlinear_arith)
                requires
                    ddx > mm || ddx < -mm || ddy > mm || ddy < -mm,
                    mm > 0,
            ;
            assert(ddx * ddx >= 0 && ddy * ddy >= 0) by (nonlinear_arith);
        }
        false
    } else {
        proof {
            let ddx = dx as int;
            let ddy = dy as int;
            let mm = m as int;
            assert(ddx * ddx <= mm * mm && ddy * ddy <= mm * mm) by (nonlinear_arith)
                requires
                    -mm <= ddx <= mm,
                    -mm <= ddy <= mm,
                    mm > 0,
            ;
            assert(mm * mm == 625_000_000_000_000);
            assert(0 <= ddx * ddx && 0 <= ddy * ddy) by (nonlinear_arith);
        }
        dx * dx + dy * dy < m * m
    }
}

/// `x + v * dt`, saturated to `i64`.
fn advance_coord(x: i64, v: i32, dt: u32) -> (r: i64)
    ensures
        r == clamp_i64(x + v * dt),
{
    proof {
        let vv = v as int;
        let tt = dt as int;
        assert(-0x8000_0000 * 0xffff_ffff <= vv * tt <= 0x7fff_ffff * 0xffff_ffff) by (nonlinear_arith)
            requires
                -0x8000_0000 <= vv <= 0x7fff_ffff,
                0 <= tt <= 0xffff_ffff,
        ;
    }
    let s: i128 = x as i128 + (v as i128) * (dt as i128);
    if s < i64::MIN as i128 {
        i64::MIN
    } else if s > i64::MAX as i128 {
        i64::MAX
    } else {
        s as i64
    }
}

impl GameState {
    /// Drops spent projectiles, then advances the others by `dt`.
    pub fn step_projectiles(&mut self, dt: u32)
        ensures
            final(self)@ == (WorldModel { bullets: stepped(old(self)@.bullets, dt), ..old(self)@ }),
    {
        let ghost bs = self@.bullets;
        let mut out: Vec<Bullet> = Vec::new();
        let mut i: usize = 0;
        while i < self.bullets.len()
            invariant
                0 <= i <= self.bullets.len(),
                bs == bullets_model(self.bullets@),
                bullets_model(out@) == bs.subrange(0, i as int).filter(live()).map_values(
                    |b: BulletModel| advanced(b, dt),
                ),
            decreases self.bullets.len() - i,
        {
            let ghost before = out@;
            proof {
                assert(bs.subrange(0, i + 1) =~= bs.subrange(0, i as int).push(bs[i as int]));
                bs.subrange(0, i as int).lemma_filter_push(bs[i as int], live());
            }
            let b = &self.bullets[i];
            if b.life > 0 {
                let nb = Bullet {
                    x: advance_coord(b.x, b.velx, dt),
                    y: advance_coord(b.y, b.vely, dt),
                    velx: b.velx,
                    vely: b.vely,
                    life: b.life - dt as i64,
                    owner: b.owner.clone(),
                };
                out.push(nb);
                assert(bullets_model(out@) =~= bullets_model(before).push(advanced(bs[i as int], dt)));
            }
            proof {
                assert(bullets_model(out@) =~= bs.subrange(0, i + 1).filter(live()).map_values(
                    |b: BulletModel| advanced(b, dt),
                ));
            }
            i = i + 1;
        }
        assert(bs.subrange(0, i as int) =~= bs);
        self.bullets = out;
    }

    /// Identifiers of the players that `b` hits.
    fn targets_of(&self, b: &Bullet) -> (r: Vec<String>)
        ensures
            strings_model(r@) == targets(b@, self@.players),
    {
        let ghost ps = self@.players;
        let mut r: Vec<String> = Vec::new();
        let mut j: usize = 0;
        while j < self.players.len()
            invariant
                0 <= j <= self.players.len(),
                ps == players_model(self.players@),
                strings_model(r@) == targets(b@, ps.subrange(0, j as int)),
            decreases self.players.len() - j,
        {
            let ghost before = r@;
            proof {
                assert(ps.subrange(0, j + 1).drop_last() =~= ps.subrange(0, j as int));
            }
            let e = &self.players[j];
            if !(e.0 == b.owner) && is_colliding(e.1.x, e.1.y, b.x, b.y) {
                r.push(e.0.clone());
                assert(strings_model(r@) =~= strings_model(before).push(ps[j as int].0));
            }
            j = j + 1;
        }
        assert(ps.subrange(0, j as int) =~= ps);
        r
    }

    /// Finds every hit of every projectile on a player other than its owner,
    /// removes the projectiles that hit, and returns the identifiers of the
    /// players hit (one entry per hit).
    pub fn resolve_collisions(&mut self) -> (hits: Vec<String>)
        ensures
            strings_model(hits@) == all_hits(old(self)@.bullets, old(self)@.players),
            final(self)@ == after_collisions(old(self)@),
    {
        let ghost w = self@;
        let mut hits: Vec<String> = Vec::new();
        let mut kept: Vec<Bullet> = Vec::new();
        let mut i: usize = 0;
        while i < self.bullets.len()
            invariant
                0 <= i <= self.bullets.len(),
                self@ == w,
                strings_model(hits@) == all_hits(w.bullets.subrange(0, i as int), w.players),
                bullets_model(kept@) == w.bullets.subrange(0, i as int).filter(missed(w.players)),
            decreases self.bullets.len() - i,
        {
            let ghost before_hits = hits@;
            let ghost before_kept = kept@;
            proof {
                assert(w.bullets.subrange(0, i + 1) =~= w.bullets.subrange(0, i as int).push(w.bullets[i as int]));
                assert(w.bullets.subrange(0, i + 1).drop_last() =~= w.bullets.subrange(0, i as int));
                w.bullets.subrange(0, i as int).lemma_filter_push(w.bullets[i as int], missed(w.players));
            }
            let mut t = self.targets_of(&self.bullets[i]);
            let n = t.len();
            hits.append(&mut t);
            assert(strings_model(hits@) =~= strings_model(before_hits) + targets(w.bullets[i as int], w.players));
            if n == 0 {
                kept.push(self.bullets[i].duplicate());
                assert(bullets_model(kept@) =~= bullets_model(before_kept).push(w.bullets[i as int]));
            }
            i = i + 1;
        }
        assert(w.bullets.subrange(0, i as int) =~= w.bullets);
        self.bullets = kept;
        assert(self@ =~= after_collisions(w));
        hits
    }

    /// Deals `amount` damage to the player registered under `id`, if any;
    /// tells whether it died. A dead player gets full hp, is moved to the
    /// sentinel and a respawn timer of `RESPAWN_MS` starts for it.
    pub fn apply_damage(&mut self, id: &str, amount: u32) -> (died: bool)
        requires
            old(self)@.wf(),
        ensures
            final(self)@ == damaged(old(self)@, id@, amount),
            died == hit_kills(old(self)@.players, id@, amount),
            final(self)@.wf(),
    {
        let ghost w = self@;
        let key = id.to_owned();
        let (_, died) = self.edit_players(&key, PlayerEdit::Hit(amount));
        if died {
            self.respawns.push((key, RESPAWN_MS));
            assert(self@.respawns =~= w.respawns.push((id@, RESPAWN_MS)));
        }
        assert(self@ =~= damaged(w, id@, amount));
        died
    }

    /// Runs the respawn timers for `dt`: see `respawned`.
    pub fn tick_respawns(&mut self, dt: u32)
        requires
            old(self)@.wf(),
        ensures
            final(self)@ == after_respawns(old(self)@, dt),
            final(self)@.wf(),
    {
        let ghost w = self@;
        let mut timers: Vec<(String, i64)> = Vec::new();
        std::mem::swap(&mut timers, &mut self.respawns);
        let mut kept: Vec<(String, i64)> = Vec::new();
        let mut i: usize = 0;
        while i < timers.len()
            invariant
                0 <= i <= timers.len(),
                respawns_model(timers@) == w.respawns,
                w.wf(),
                self@.wf(),
                self@.bullets == w.bullets,
                (self@.players, respawns_model(kept@)) == respawned(w.players, w.respawns.subrange(0, i as int), dt),
                forall|k: int| 0 <= k < kept@.len() ==> #[trigger] kept@[k].1 > 0,
            decreases timers.len() - i,
        {
            let ghost before = kept@;
            proof {
                assert(w.respawns.subrange(0, i + 1).drop_last() =~= w.respawns.subrange(0, i as int));
                assert(w.respawns[i as int].1 > 0);
            }
            let t = timers[i].1 - dt as i64;
            if t <= 0 {
                let _ = self.edit_players(&timers[i].0, PlayerEdit::Respawn);
            } else {
                kept.push((timers[i].0.clone(), t));
                assert(respawns_model(kept@) =~= respawns_model(before).push((w.respawns[i as int].0, t)));
            }
            i = i + 1;
        }
        assert(w.respawns.subrange(0, i as int) =~= w.respawns);
        self.respawns = kept;
        assert(self@ =~= after_respawns(w, dt));
    }

    /// One simulation tick of `dt` milliseconds: motion, collisions, damage,
    /// respawns (see `ticked`).
    pub fn update_logic(&mut self, dt: u32)
        requires
            old(self)@.wf(),
        ensures
            final(self)@ == ticked(old(self)@, dt),
            final(self)@.wf(),
    {
        let ghost w = self@;
        self.step_projectiles(dt);
        let ghost moved = self@;
        let hits = self.resolve_collisions();
        let ghost hs = strings_model(hits@);
        let ghost collided = self@;
        let mut i: usize = 0;
        while i < hits.len()
            invariant
                0 <= i <= hits.len(),
                hs == strings_model(hits@),
                self@ == damaged_all(collided, hs.subrange(0, i as int)),
                self@.wf(),
            decreases hits.len() - i,
        {
            proof {
                assert(hs.subrange(0, i + 1).drop_last() =~= hs.subrange(0, i as int));
            }
            self.apply_damage(hits[i].as_str(), HIT_DAMAGE);
            i = i + 1;
        }
        assert(hs.subrange(0, i as int) =~= hs);
        self.tick_respawns(dt);
    }
}

/// Microseconds between two ticks at `rate` ticks per second.
pub fn tick_interval_us(rate: u32) -> (r: u64)
    requires
        rate > 0,
    ensures
        r == 1_000_000int / (rate as int),
{
    1_000_000u64 / rate as u64
}

/// How long to sleep after a tick whose work took `elapsed_us`: the rest of
/// the interval, or nothing when the tick overran it (no backlog is kept).
pub fn pacing_delay(elapsed_us: u64, interval_us: u64) -> (r: u64)
    ensures
        r == (if elapsed_us < interval_us { interval_us - elapsed_us } else { 0 }),
{
    if elapsed_us < interval_us {
        interval_us - elapsed_us
    } else {
        0
    }
}

/// The simulation clock: the time, in microseconds, up to which simulated
/// time has been handed out.
pub struct TickClock {
    pub last_us: u64,
}

impl TickClock {
    pub fn new(now_us: u64) -> (r: TickClock)
        ensures
            r.last_us == now_us,
    {
        TickClock { last_us: now_us }
    }

    /// The whole milliseconds elapsed since the last call (at most
    /// `u32::MAX`), to simulate now. The clock moves on by exactly that much,
    /// so the sub-millisecond rest is carried to the next tick. A clock read
    /// that went backwards yields zero.
    pub fn take_dt(&mut self, now_us: u64) -> (dt: u32)
        ensures
            old(self).last_us <= now_us ==> dt == (if (now_us - old(self).last_us) / 1000 > u32::MAX {
                u32::MAX as int
            } else {
                (now_us - old(self).last_us) / 1000
            }),
            old(self).last_us > now_us ==> dt == 0,
            final(self).last_us == old(self).last_us + dt * 1000,
    {
        if now_us <= self.last_us {
            return 0;
        }
        let ms = (now_us - self.last_us) / 1000;
        let dt: u32 = if ms > u32::MAX as u64 {
            u32::MAX
        } else {
            ms as u32
        };
        assert(dt as int * 1000 <= now_us - self.last_us);
        self.last_us = self.last_us + dt as u64 * 1000;
        dt
    }
}

pub open spec fn strings_model(v: Seq<String>) -> Seq<Seq<char>> {
    v.map_values(|s: String| s@)
}

} // verus!
