use vstd::prelude::*;
use vstd::seq_lib::lemma_multiset_commutative;

use crate::components::{
    BulletModel, PartialPlayer, Player, WorldModel, HIT_DAMAGE, MAX_HP, RESPAWN_MS, SENTINEL_POS,
    SPAWN_POS,
};
use crate::game_logic::{
    advanced, after_collisions, all_hits, colliding, damaged, damaged_all, live, respawned,
    stepped, targets, ticked,
};
use crate::world::{apply_update, edit_entries, update_rejected, updated_player, within_step, PlayerEdit};

verus! {

/// One motion step keeps exactly the projectiles whose life was above zero,
/// each with its life shortened by exactly `dt` (so strictly, when `dt` is
/// positive); none whose life was at or below zero survives.
pub proof fn lemma_projectile_life(bs: Seq<BulletModel>, dt: u32)
    ensures
        forall|i: int|
            0 <= i < stepped(bs, dt).len() ==> (#[trigger] bs.filter(live())[i]).life > 0
                && bs.contains(bs.filter(live())[i]) && stepped(bs, dt)[i] == advanced(
                bs.filter(live())[i],
                dt,
            ),
        forall|j: int|
            0 <= j < bs.len() && #[trigger] bs[j].life > 0 ==> stepped(bs, dt).contains(advanced(bs[j], dt)),
        forall|b: BulletModel| b.life > 0 ==> #[trigger] advanced(b, dt).life == b.life - dt,
{
    let f = bs.filter(live());
    let out = stepped(bs, dt);
    assert forall|j: int| 0 <= j < bs.len() && #[trigger] bs[j].life > 0 implies out.contains(
        advanced(bs[j], dt),
    ) by {
        bs.lemma_filter_contains(live(), j);
        let k = choose|k: int| 0 <= k < f.len() && f[k] == bs[j];
        assert(out[k] == advanced(bs[j], dt));
    }
    assert forall|i: int| 0 <= i < out.len() implies (#[trigger] f[i]).life > 0 && bs.contains(f[i])
        && out[i] == advanced(f[i], dt) by {
        bs.lemma_filter_pred(live(), i);
        assert(f.contains(f[i]));
        bs.lemma_filter_contains_rev(live(), f[i]);
    }
}

/// Over a whole tick too, every projectile left was alive when the tick
/// started and has lost exactly `dt` of life.
pub proof fn lemma_tick_projectile_life(w: WorldModel, dt: u32)
    ensures
        forall|i: int|
            #![trigger ticked(w, dt).bullets[i]]
            0 <= i < ticked(w, dt).bullets.len() ==> exists|j: int|
                #![trigger w.bullets[j]]
                0 <= j < w.bullets.len() && w.bullets[j].life > 0 && ticked(w, dt).bullets[i]
                    == advanced(w.bullets[j], dt),
{
    let moved = WorldModel { bullets: stepped(w.bullets, dt), ..w };
    let c = after_collisions(moved);
    let hits = all_hits(moved.bullets, moved.players);
    lemma_damage_keeps_bullets(c, hits);
    lemma_projectile_life(w.bullets, dt);
    let out = ticked(w, dt).bullets;
    assert(out == c.bullets);
    assert forall|i: int| 0 <= i < out.len() implies exists|j: int|
        #![trigger w.bullets[j]]
        0 <= j < w.bullets.len() && w.bullets[j].life > 0 && #[trigger] out[i] == advanced(w.bullets[j], dt) by {
        assert(c.bullets.contains(out[i]));
        moved.bullets.lemma_filter_contains_rev(crate::game_logic::missed(moved.players), out[i]);
        let k = choose|k: int| 0 <= k < moved.bullets.len() && moved.bullets[k] == out[i];
        assert(stepped(w.bullets, dt)[k] == out[i]);
    }
}

proof fn lemma_damage_keeps_bullets(w: WorldModel, hits: Seq<Seq<char>>)
    ensures
        damaged_all(w, hits).bullets == w.bullets,
    decreases hits.len(),
{
    if hits.len() > 0 {
        lemma_damage_keeps_bullets(w, hits.drop_last());
    }
}

/// A projectile never hits the player that fired it, whatever the players.
pub proof fn lemma_owner_never_hit(b: BulletModel, ps: Seq<(Seq<char>, Player)>)
    ensures
        forall|k: int| 0 <= k < targets(b, ps).len() ==> #[trigger] targets(b, ps)[k] != b.owner,
    decreases ps.len(),
{
    if ps.len() > 0 {
        lemma_owner_never_hit(b, ps.drop_last());
        let rest = targets(b, ps.drop_last());
        let t = targets(b, ps);
        assert forall|k: int| 0 <= k < t.len() implies #[trigger] t[k] != b.owner by {
            if k < rest.len() {
                assert(t[k] == rest[k]);
            }
        }
    }
}

/// A hit that brings a player's hp to zero or below gives it full hp back,
/// moves it to the sentinel and starts a respawn timer of `RESPAWN_MS`.
pub proof fn lemma_death_resets(w: WorldModel, id: Seq<char>, amount: u32, j: int)
    requires
        w.wf(),
        0 <= j < w.players.len(),
        w.players[j].0 == id,
        w.players[j].1.hp - amount <= 0,
    ensures
        damaged(w, id, amount).players[j] == (id, Player { x: SENTINEL_POS, y: SENTINEL_POS, hp: MAX_HP }),
        damaged(w, id, amount).respawns == w.respawns.push((id, RESPAWN_MS)),
{
    assert(edit_entries(w.players, id, PlayerEdit::Hit(amount))[j].1 == crate::world::hit_player(
        w.players[j].1,
        amount,
    ));
}

/// A respawn timer that runs out moves its player exactly to the spawn
/// point and ends; one that does not leaves every player where it is.
pub proof fn lemma_respawn(ps: Seq<(Seq<char>, Player)>, id: Seq<char>, t: i64, dt: u32)
    ensures
        t - dt <= 0 ==> respawned(ps, seq![(id, t)], dt).1.len() == 0 && forall|j: int|
            0 <= j < ps.len() && ps[j].0 == id ==> (#[trigger] respawned(ps, seq![(id, t)], dt).0[j]).1
                == (Player { x: SPAWN_POS, y: SPAWN_POS, hp: ps[j].1.hp }),
        t - dt > 0 ==> respawned(ps, seq![(id, t)], dt) == (ps, seq![(id, (t - dt) as i64)]),
{
    let rs = seq![(id, t)];
    assert(rs.drop_last() =~= Seq::<(Seq<char>, i64)>::empty());
    assert(respawned(ps, rs.drop_last(), dt) == (ps, Seq::<(Seq<char>, i64)>::empty()));
    assert(seq![].push((id, (t - dt) as i64)) =~= seq![(id, (t - dt) as i64)]);
}

/// An update whose hp is outside `[0, MAX_HP]` leaves the world as it was.
pub proof fn lemma_rejected_update(w: WorldModel, id: Seq<char>, u: PartialPlayer, nb: Seq<BulletModel>)
    requires
        (u.hp matches Some(h) && (h < 0 || h > MAX_HP)),
    ensures
        apply_update(w, id, u, nb) == w,
{
}

/// A position that moves the player further than `MAX_STEP` is dropped: the
/// player keeps its position (its hp is still taken when given), while the
/// projectiles sent with it are admitted.
pub proof fn lemma_teleport_dropped(w: WorldModel, id: Seq<char>, u: PartialPlayer, nb: Seq<BulletModel>, j: int)
    requires
        !update_rejected(u),
        0 <= j < w.players.len(),
        w.players[j].0 == id,
        !within_step(w.players[j].1, u.x, u.y),
    ensures
        apply_update(w, id, u, nb).players[j].1.x == w.players[j].1.x,
        apply_update(w, id, u, nb).players[j].1.y == w.players[j].1.y,
        apply_update(w, id, u, nb).bullets == w.bullets + nb,
{
}

/// Updates from two different connections do not interfere: applied in
/// either order they give the same players and the same projectiles (up to
/// the order in which the projectiles were appended), and each player ends
/// as its own update alone would leave it.
pub proof fn lemma_disjoint_updates_commute(
    w: WorldModel,
    a: Seq<char>,
    ua: PartialPlayer,
    na: Seq<BulletModel>,
    b: Seq<char>,
    ub: PartialPlayer,
    nb: Seq<BulletModel>,
)
    requires
        a != b,
    ensures
        apply_update(apply_update(w, a, ua, na), b, ub, nb).players == apply_update(
            apply_update(w, b, ub, nb),
            a,
            ua,
            na,
        ).players,
        apply_update(apply_update(w, a, ua, na), b, ub, nb).bullets.to_multiset() == apply_update(
            apply_update(w, b, ub, nb),
            a,
            ua,
            na,
        ).bullets.to_multiset(),
        apply_update(apply_update(w, a, ua, na), b, ub, nb).respawns == w.respawns,
        apply_update(apply_update(w, b, ub, nb), a, ua, na).respawns == w.respawns,
        forall|j: int|
            0 <= j < w.players.len() && w.players[j].0 == a ==> (#[trigger] apply_update(
                apply_update(w, b, ub, nb),
                a,
                ua,
                na,
            ).players[j]).1 == (if update_rejected(ua) {
                w.players[j].1
            } else {
                updated_player(w.players[j].1, ua)
            }),
{
    let ab = apply_update(apply_update(w, a, ua, na), b, ub, nb);
    let ba = apply_update(apply_update(w, b, ub, nb), a, ua, na);
    assert(ab.players =~= ba.players);
    let ma = if update_rejected(ua) { Seq::<BulletModel>::empty() } else { na };
    let mb = if update_rejected(ub) { Seq::<BulletModel>::empty() } else { nb };
    assert(ab.bullets =~= w.bullets + ma + mb);
    assert(ba.bullets =~= w.bullets + mb + ma);
    lemma_multiset_commutative(w.bullets + ma, mb);
    lemma_multiset_commutative(w.bullets + mb, ma);
    lemma_multiset_commutative(w.bullets, ma);
    lemma_multiset_commutative(w.bullets, mb);
    assert(ab.bullets.to_multiset() =~= ba.bullets.to_multiset());
}

/// One client message: sender, player part, projectiles.
pub type ClientUpdate = (Seq<char>, PartialPlayer, Seq<BulletModel>);

/// The world after the updates `ups` were applied one after another.
pub open spec fn apply_all(w: WorldModel, ups: Seq<ClientUpdate>) -> WorldModel
    decreases ups.len(),
{
    if ups.len() == 0 {
        w
    } else {
        let u = ups.last();
        apply_update(apply_all(w, ups.drop_last()), u.0, u.1, u.2)
    }
}

/// The projectiles of the accepted updates among `ups`, update by update.
pub open spec fn accepted_bullets(ups: Seq<ClientUpdate>) -> Seq<BulletModel>
    decreases ups.len(),
{
    if ups.len() == 0 {
        seq![]
    } else {
        let u = ups.last();
        if update_rejected(u.1) {
            accepted_bullets(ups.drop_last())
        } else {
            accepted_bullets(ups.drop_last()) + u.2
        }
    }
}

/// Each accepted update adds exactly its own projectiles: applied in any
/// order, the updates leave the projectiles that were there followed by
/// those of every accepted update, so the projectiles are the same
/// multiset whatever the order.
pub proof fn lemma_updates_keep_bullets(w: WorldModel, ups: Seq<ClientUpdate>)
    ensures
        apply_all(w, ups).bullets == w.bullets + accepted_bullets(ups),
        apply_all(w, ups).bullets.to_multiset() == w.bullets.to_multiset().add(
            accepted_bullets(ups).to_multiset(),
        ),
    decreases ups.len(),
{
    if ups.len() > 0 {
        lemma_updates_keep_bullets(w, ups.drop_last());
        let u = ups.last();
        if !update_rejected(u.1) {
            assert(w.bullets + accepted_bullets(ups.drop_last()) + u.2 =~= w.bullets + (
            accepted_bullets(ups.drop_last()) + u.2));
        }
    } else {
        assert(w.bullets + accepted_bullets(ups) =~= w.bullets);
    }
    lemma_multiset_commutative(w.bullets, accepted_bullets(ups));
}

/// The senders of `ups` are pairwise distinct.
pub open spec fn distinct_senders(ups: Seq<ClientUpdate>) -> bool {
    forall|a: int, b: int| 0 <= a < ups.len() && 0 <= b < ups.len() && a != b ==> ups[a].0 != ups[b].0
}

/// The accepted update sent by `id` among `ups`, if there is one.
pub open spec fn accepted_from(ups: Seq<ClientUpdate>, id: Seq<char>) -> Option<PartialPlayer> {
    if exists|k: int| 0 <= k < ups.len() && ups[k].0 == id && !update_rejected(ups[k].1) {
        Some(ups[choose|k: int| 0 <= k < ups.len() && ups[k].0 == id && !update_rejected(ups[k].1)].1)
    } else {
        None
    }
}

/// The players as each one's own update leaves it, whatever the order.
pub open spec fn own_updates(ps: Seq<(Seq<char>, Player)>, ups: Seq<ClientUpdate>) -> Seq<(Seq<char>, Player)> {
    ps.map_values(
        |e: (Seq<char>, Player)|
            match accepted_from(ups, e.0) {
                Some(u) => (e.0, updated_player(e.1, u)),
                None => e,
            },
    )
}

/// Updates from distinct connections, applied in any order, lose nothing:
/// every player ends exactly as its own update alone would leave it (so the
/// order does not matter), and the projectiles keep their place.
pub proof fn lemma_updates_never_lost(w: WorldModel, ups: Seq<ClientUpdate>)
    requires
        distinct_senders(ups),
    ensures
        apply_all(w, ups).players == own_updates(w.players, ups),
        apply_all(w, ups).respawns == w.respawns,
    decreases ups.len(),
{
    if ups.len() == 0 {
        assert(own_updates(w.players, ups) =~= w.players);
    } else {
        let rest = ups.drop_last();
        let u = ups.last();
        let n = ups.len() - 1;
        assert(distinct_senders(rest));
        lemma_updates_never_lost(w, rest);
        let prev = apply_all(w, rest);
        let out = apply_all(w, ups);
        assert forall|j: int| 0 <= j < w.players.len() implies #[trigger] out.players[j] == own_updates(
            w.players,
            ups,
        )[j] by {
            let e = w.players[j];
            if e.0 == u.0 {
                assert forall|k: int| 0 <= k < rest.len() implies rest[k].0 != e.0 by {
                    assert(ups[k] == rest[k]);
                }
                assert(accepted_from(rest, e.0) is None);
                if !update_rejected(u.1) {
                    assert(ups[n].0 == e.0 && !update_rejected(ups[n].1));
                    let k = choose|k: int| 0 <= k < ups.len() && ups[k].0 == e.0 && !update_rejected(ups[k].1);
                    assert(k == n);
                } else {
                    assert forall|k: int| 0 <= k < ups.len() implies !(ups[k].0 == e.0 && !update_rejected(ups[k].1)) by {
                        if k < n {
                            assert(ups[k] == rest[k]);
                        }
                    }
                }
            } else {
                if exists|k: int| 0 <= k < ups.len() && ups[k].0 == e.0 && !update_rejected(ups[k].1) {
                    let k = choose|k: int| 0 <= k < ups.len() && ups[k].0 == e.0 && !update_rejected(ups[k].1);
                    assert(k < n);
                    assert(rest[k] == ups[k]);
                    let k2 = choose|k: int| 0 <= k < rest.len() && rest[k].0 == e.0 && !update_rejected(rest[k].1);
                    assert(ups[k2] == rest[k2]);
                    assert(k2 == k);
                } else {
                    assert forall|k: int| 0 <= k < rest.len() implies !(rest[k].0 == e.0 && !update_rejected(rest[k].1)) by {
                        assert(ups[k] == rest[k]);
                    }
                }
            }
        }
        assert(out.players =~= own_updates(w.players, ups));
    }
}

/// No projectile of `bs` hits the player `id` where it stands in `ps`,
/// except projectiles that `id` fired itself.
pub open spec fn only_own_shots_near(bs: Seq<BulletModel>, ps: Seq<(Seq<char>, Player)>, id: Seq<char>) -> bool {
    forall|k: int, j: int|
        #![trigger bs[k], ps[j]]
        0 <= k < bs.len() && 0 <= j < ps.len() && ps[j].0 == id && colliding(
            ps[j].1.x as int,
            ps[j].1.y as int,
            bs[k].x as int,
            bs[k].y as int,
        ) ==> bs[k].owner == id
}

proof fn lemma_targets_skip(b: BulletModel, ps: Seq<(Seq<char>, Player)>, id: Seq<char>)
    requires
        forall|j: int|
            0 <= j < ps.len() && #[trigger] ps[j].0 == id && colliding(ps[j].1.x as int, ps[j].1.y as int, b.x as int, b.y as int)
                ==> b.owner == id,
    ensures
        forall|m: int| 0 <= m < targets(b, ps).len() ==> #[trigger] targets(b, ps)[m] != id,
    decreases ps.len(),
{
    if ps.len() > 0 {
        let p = ps.drop_last();
        assert forall|j: int|
            0 <= j < p.len() && #[trigger] p[j].0 == id && colliding(p[j].1.x as int, p[j].1.y as int, b.x as int, b.y as int)
                implies b.owner == id by {
            assert(ps[j] == p[j]);
        }
        lemma_targets_skip(b, p, id);
        let t = targets(b, ps);
        let r = targets(b, p);
        assert(ps[ps.len() - 1] == ps.last());
        assert forall|m: int| 0 <= m < t.len() implies #[trigger] t[m] != id by {
            if m < r.len() {
                assert(t[m] == r[m]);
            }
        }
    }
}

proof fn lemma_hits_skip(bs: Seq<BulletModel>, ps: Seq<(Seq<char>, Player)>, id: Seq<char>)
    requires
        only_own_shots_near(bs, ps, id),
    ensures
        forall|m: int| 0 <= m < all_hits(bs, ps).len() ==> #[trigger] all_hits(bs, ps)[m] != id,
    decreases bs.len(),
{
    if bs.len() > 0 {
        let p = bs.drop_last();
        let b = bs.last();
        assert(only_own_shots_near(p, ps, id)) by {
            assert forall|k: int, j: int|
                #![trigger p[k], ps[j]]
                0 <= k < p.len() && 0 <= j < ps.len() && ps[j].0 == id && colliding(
                    ps[j].1.x as int,
                    ps[j].1.y as int,
                    p[k].x as int,
                    p[k].y as int,
                ) implies p[k].owner == id by {
                assert(bs[k] == p[k]);
            }
        }
        lemma_hits_skip(p, ps, id);
        assert forall|j: int|
            0 <= j < ps.len() && #[trigger] ps[j].0 == id && colliding(ps[j].1.x as int, ps[j].1.y as int, b.x as int, b.y as int)
                implies b.owner == id by {
            assert(bs[bs.len() - 1] == b);
        }
        lemma_targets_skip(b, ps, id);
        let h = all_hits(bs, ps);
        let r = all_hits(p, ps);
        let t = targets(b, ps);
        assert forall|m: int| 0 <= m < h.len() implies #[trigger] h[m] != id by {
            if m < r.len() {
                assert(h[m] == r[m]);
            } else {
                assert(h[m] == t[m - r.len()]);
            }
        }
    }
}

/// Hits on other players leave the entries of `id` and its timers alone;
/// timers of other players may be added after the existing ones.
proof fn lemma_damage_skip(w: WorldModel, hits: Seq<Seq<char>>, id: Seq<char>)
    requires
        forall|m: int| 0 <= m < hits.len() ==> #[trigger] hits[m] != id,
    ensures
        damaged_all(w, hits).players.len() == w.players.len(),
        forall|j: int| 0 <= j < w.players.len() ==> (#[trigger] damaged_all(w, hits).players[j]).0 == w.players[j].0,
        forall|j: int|
            0 <= j < w.players.len() && w.players[j].0 == id ==> #[trigger] damaged_all(w, hits).players[j] == w.players[j],
        damaged_all(w, hits).respawns.len() >= w.respawns.len(),
        forall|i: int| 0 <= i < w.respawns.len() ==> #[trigger] damaged_all(w, hits).respawns[i] == w.respawns[i],
        forall|i: int|
            w.respawns.len() <= i < damaged_all(w, hits).respawns.len() ==> (#[trigger] damaged_all(w, hits).respawns[i]).0 != id,
    decreases hits.len(),
{
    if hits.len() > 0 {
        let p = hits.drop_last();
        assert forall|m: int| 0 <= m < p.len() implies #[trigger] p[m] != id by {
            assert(hits[m] == p[m]);
        }
        lemma_damage_skip(w, p, id);
        assert(hits[hits.len() - 1] != id);
    }
}

/// Timers of other players leave the entries of `id` alone and leave no
/// timer of `id`.
proof fn lemma_respawn_skip(ps: Seq<(Seq<char>, Player)>, rs: Seq<(Seq<char>, i64)>, dt: u32, id: Seq<char>)
    requires
        forall|i: int| 0 <= i < rs.len() ==> (#[trigger] rs[i]).0 != id,
    ensures
        respawned(ps, rs, dt).0.len() == ps.len(),
        forall|j: int| 0 <= j < ps.len() ==> (#[trigger] respawned(ps, rs, dt).0[j]).0 == ps[j].0,
        forall|j: int| 0 <= j < ps.len() && ps[j].0 == id ==> #[trigger] respawned(ps, rs, dt).0[j] == ps[j],
        forall|i: int| 0 <= i < respawned(ps, rs, dt).1.len() ==> (#[trigger] respawned(ps, rs, dt).1[i]).0 != id,
    decreases rs.len(),
{
    if rs.len() > 0 {
        let p = rs.drop_last();
        assert forall|i: int| 0 <= i < p.len() implies (#[trigger] p[i]).0 != id by {
            assert(rs[i] == p[i]);
        }
        lemma_respawn_skip(ps, p, dt, id);
        assert(rs[rs.len() - 1] == rs.last());
    }
}

/// With exactly one timer of `id`, at index `r`, the entries of `id` move
/// to the spawn point when it runs out and stay put otherwise; a timer that
/// runs out leaves no timer of `id`, one that does not is shortened by `dt`.
proof fn lemma_respawn_one(ps: Seq<(Seq<char>, Player)>, rs: Seq<(Seq<char>, i64)>, dt: u32, id: Seq<char>, r: int)
    requires
        0 <= r < rs.len(),
        rs[r].0 == id,
        forall|i: int| 0 <= i < rs.len() && i != r ==> (#[trigger] rs[i]).0 != id,
    ensures
        respawned(ps, rs, dt).0.len() == ps.len(),
        forall|j: int| 0 <= j < ps.len() ==> (#[trigger] respawned(ps, rs, dt).0[j]).0 == ps[j].0,
        forall|j: int|
            0 <= j < ps.len() && ps[j].0 == id ==> (#[trigger] respawned(ps, rs, dt).0[j]).1 == (if rs[r].1 - dt <= 0 {
                Player { x: SPAWN_POS, y: SPAWN_POS, hp: ps[j].1.hp }
            } else {
                ps[j].1
            }),
        rs[r].1 - dt <= 0 ==> forall|i: int|
            0 <= i < respawned(ps, rs, dt).1.len() ==> (#[trigger] respawned(ps, rs, dt).1[i]).0 != id,
        rs[r].1 - dt > 0 ==> respawned(ps, rs, dt).1.contains((id, (rs[r].1 - dt) as i64)),
        rs[r].1 - dt > 0 ==> forall|i: int|
            0 <= i < respawned(ps, rs, dt).1.len() && (#[trigger] respawned(ps, rs, dt).1[i]).0 == id
                ==> respawned(ps, rs, dt).1[i].1 == rs[r].1 - dt,
    decreases rs.len(),
{
    let p = rs.drop_last();
    let n = rs.len() - 1;
    let out = respawned(ps, rs, dt);
    let prev = respawned(ps, p, dt);
    assert(rs[n] == rs.last());
    if r == n {
        assert forall|i: int| 0 <= i < p.len() implies (#[trigger] p[i]).0 != id by {
            assert(rs[i] == p[i]);
        }
        lemma_respawn_skip(ps, p, dt, id);
        if rs[r].1 - dt > 0 {
            assert(out.1[prev.1.len() as int] == (id, (rs[r].1 - dt) as i64));
        }
    } else {
        assert forall|i: int| 0 <= i < p.len() && i != r implies (#[trigger] p[i]).0 != id by {
            assert(rs[i] == p[i]);
        }
        assert(p[r] == rs[r]);
        lemma_respawn_one(ps, p, dt, id, r);
        if rs[r].1 - dt > 0 {
            let k = choose|k: int| 0 <= k < prev.1.len() && prev.1[k] == (id, (rs[r].1 - dt) as i64);
            assert(out.1[k] == prev.1[k]);
        }
    }
}

/// A projectile never damages its owner, over a whole tick: a player near
/// which only its own projectiles come, and with no respawn pending, is left
/// exactly as it was and gets no respawn timer.
pub proof fn lemma_tick_spares_owner(w: WorldModel, dt: u32, j: int)
    requires
        w.wf(),
        0 <= j < w.players.len(),
        only_own_shots_near(stepped(w.bullets, dt), w.players, w.players[j].0),
        forall|i: int| 0 <= i < w.respawns.len() ==> (#[trigger] w.respawns[i]).0 != w.players[j].0,
    ensures
        ticked(w, dt).players[j] == w.players[j],
        forall|i: int| 0 <= i < ticked(w, dt).respawns.len() ==> (#[trigger] ticked(w, dt).respawns[i]).0 != w.players[j].0,
{
    let id = w.players[j].0;
    let moved = WorldModel { bullets: stepped(w.bullets, dt), ..w };
    let hits = all_hits(moved.bullets, moved.players);
    lemma_hits_skip(moved.bullets, moved.players, id);
    let c = after_collisions(moved);
    let d = damaged_all(c, hits);
    lemma_damage_skip(c, hits, id);
    assert forall|i: int| 0 <= i < d.respawns.len() implies (#[trigger] d.respawns[i]).0 != id by {
        if i < w.respawns.len() {
            assert(d.respawns[i] == w.respawns[i]);
        }
    }
    lemma_respawn_skip(d.players, d.respawns, dt, id);
}

/// Respawn over a whole tick: for a player not hit this tick (only its own
/// projectiles come near) whose single pending timer is `t`, a timer that
/// runs out moves it exactly to the spawn point and clears the timer; one
/// that does not leaves it where it is (at the sentinel) with `t - dt` left.
pub proof fn lemma_tick_respawn(w: WorldModel, dt: u32, j: int, r: int)
    requires
        w.wf(),
        0 <= j < w.players.len(),
        only_own_shots_near(stepped(w.bullets, dt), w.players, w.players[j].0),
        0 <= r < w.respawns.len(),
        w.respawns[r].0 == w.players[j].0,
        forall|i: int| 0 <= i < w.respawns.len() && i != r ==> (#[trigger] w.respawns[i]).0 != w.players[j].0,
    ensures
        w.respawns[r].1 - dt <= 0 ==> ticked(w, dt).players[j] == (
            w.players[j].0,
            Player { x: SPAWN_POS, y: SPAWN_POS, hp: w.players[j].1.hp },
        ),
        w.respawns[r].1 - dt <= 0 ==> forall|i: int|
            0 <= i < ticked(w, dt).respawns.len() ==> (#[trigger] ticked(w, dt).respawns[i]).0 != w.players[j].0,
        w.respawns[r].1 - dt > 0 ==> ticked(w, dt).players[j] == w.players[j],
        w.respawns[r].1 - dt > 0 ==> ticked(w, dt).respawns.contains(
            (w.players[j].0, (w.respawns[r].1 - dt) as i64),
        ),
{
    let id = w.players[j].0;
    let moved = WorldModel { bullets: stepped(w.bullets, dt), ..w };
    let hits = all_hits(moved.bullets, moved.players);
    lemma_hits_skip(moved.bullets, moved.players, id);
    let c = after_collisions(moved);
    let d = damaged_all(c, hits);
    lemma_damage_skip(c, hits, id);
    assert(d.respawns[r] == w.respawns[r]);
    assert forall|i: int| 0 <= i < d.respawns.len() && i != r implies (#[trigger] d.respawns[i]).0 != id by {
        if i < w.respawns.len() {
            assert(d.respawns[i] == w.respawns[i]);
        }
    }
    lemma_respawn_one(d.players, d.respawns, dt, id, r);
    assert(d.players[j] == w.players[j]);
}

/// The hits `hits` hit `id` exactly once, at `m`.
pub open spec fn hit_once(hits: Seq<Seq<char>>, id: Seq<char>, m: int) -> bool {
    &&& 0 <= m < hits.len()
    &&& hits[m] == id
    &&& forall|k: int| 0 <= k < hits.len() && k != m ==> #[trigger] hits[k] != id
}

proof fn lemma_damage_once(w: WorldModel, hits: Seq<Seq<char>>, j: int, m: int)
    requires
        0 <= j < w.players.len(),
        hit_once(hits, w.players[j].0, m),
        w.players[j].1.hp - HIT_DAMAGE <= 0,
        forall|i: int| 0 <= i < w.respawns.len() ==> (#[trigger] w.respawns[i]).0 != w.players[j].0,
    ensures
        damaged_all(w, hits).players.len() == w.players.len(),
        damaged_all(w, hits).players[j] == (w.players[j].0, Player { x: SENTINEL_POS, y: SENTINEL_POS, hp: MAX_HP }),
        exists|r: int|
            #![trigger damaged_all(w, hits).respawns[r]]
            0 <= r < damaged_all(w, hits).respawns.len() && damaged_all(w, hits).respawns[r] == (
                w.players[j].0,
                RESPAWN_MS,
            ) && forall|i: int|
                0 <= i < damaged_all(w, hits).respawns.len() && i != r ==> (#[trigger] damaged_all(
                    w,
                    hits,
                ).respawns[i]).0 != w.players[j].0,
    decreases hits.len(),
{
    let id = w.players[j].0;
    let p = hits.drop_last();
    let n = hits.len() - 1;
    let d = damaged_all(w, hits);
    let prev = damaged_all(w, p);
    assert(hits[n] == hits.last());
    if m == n {
        assert forall|k: int| 0 <= k < p.len() implies #[trigger] p[k] != id by {
            assert(hits[k] == p[k]);
        }
        lemma_damage_skip(w, p, id);
        assert(prev.players[j] == w.players[j]);
        assert(crate::game_logic::hit_kills(prev.players, id, HIT_DAMAGE));
        assert(d.respawns == prev.respawns.push((id, RESPAWN_MS)));
        let r = prev.respawns.len() as int;
        assert forall|i: int| 0 <= i < d.respawns.len() && i != r implies (#[trigger] d.respawns[i]).0 != id by {
            assert(d.respawns[i] == prev.respawns[i]);
            if i < w.respawns.len() {
                assert(prev.respawns[i] == w.respawns[i]);
            }
        }
        assert(d.respawns[r] == (id, RESPAWN_MS));
    } else {
        assert(p[m] == hits[m]);
        assert forall|k: int| 0 <= k < p.len() && k != m implies #[trigger] p[k] != id by {
            assert(hits[k] == p[k]);
        }
        lemma_damage_once(w, p, j, m);
        let r = choose|r: int|
            0 <= r < prev.respawns.len() && prev.respawns[r] == (id, RESPAWN_MS) && forall|i: int|
                0 <= i < prev.respawns.len() && i != r ==> (#[trigger] prev.respawns[i]).0 != id;
        assert(hits[n] != id);
        assert(d.respawns[r] == prev.respawns[r]);
        assert forall|i: int| 0 <= i < d.respawns.len() && i != r implies (#[trigger] d.respawns[i]).0 != id by {
            if i < prev.respawns.len() {
                assert(d.respawns[i] == prev.respawns[i]);
            }
        }
        assert(d.respawns[r] == (id, RESPAWN_MS));
    }
}

/// Death over a whole tick: a player whose hp is at most one hit's damage,
/// hit exactly once this tick and with no respawn pending, ends the tick
/// with full hp at the sentinel, with one respawn timer of `RESPAWN_MS`
/// already shortened by this tick's `dt`.
pub proof fn lemma_tick_death(w: WorldModel, dt: u32, j: int, m: int)
    requires
        0 <= j < w.players.len(),
        hit_once(all_hits(stepped(w.bullets, dt), w.players), w.players[j].0, m),
        w.players[j].1.hp - HIT_DAMAGE <= 0,
        forall|i: int| 0 <= i < w.respawns.len() ==> (#[trigger] w.respawns[i]).0 != w.players[j].0,
        dt < RESPAWN_MS,
    ensures
        ticked(w, dt).players[j] == (w.players[j].0, Player { x: SENTINEL_POS, y: SENTINEL_POS, hp: MAX_HP }),
        ticked(w, dt).respawns.contains((w.players[j].0, (RESPAWN_MS - dt) as i64)),
        forall|i: int|
            0 <= i < ticked(w, dt).respawns.len() && (#[trigger] ticked(w, dt).respawns[i]).0 == w.players[j].0
                ==> ticked(w, dt).respawns[i].1 == RESPAWN_MS - dt,
{
    let id = w.players[j].0;
    let moved = WorldModel { bullets: stepped(w.bullets, dt), ..w };
    let hits = all_hits(moved.bullets, moved.players);
    let c = after_collisions(moved);
    let d = damaged_all(c, hits);
    lemma_damage_once(c, hits, j, m);
    let r = choose|r: int|
        0 <= r < d.respawns.len() && d.respawns[r] == (id, RESPAWN_MS) && forall|i: int|
            0 <= i < d.respawns.len() && i != r ==> (#[trigger] d.respawns[i]).0 != id;
    lemma_respawn_one(d.players, d.respawns, dt, id, r);
}

} // verus!
