use vstd::prelude::*;

use crate::text::str_eq;

verus! {

pub const HTTP_PORT: u16 = 8080;

pub const WS_PORT: u16 = 8081;

/// Snapshots sent to each client per second.
pub const WS_TICKRATE: u32 = 120;

/// Simulation ticks per second.
pub const PHYSICS_TICKRATE: u32 = 60;

/// Micro-units in one world unit.
pub const POS_SCALE: i64 = 1_000_000;

/// Full health, in thousandths of a hit point.
pub const MAX_HP: i64 = 100_000;

/// Damage dealt by one projectile hit, in thousandths of a hit point.
pub const HIT_DAMAGE: u32 = 10_000;

/// How long a dead player waits before respawning, in milliseconds.
pub const RESPAWN_MS: i64 = 5_000;

/// Out-of-map coordinate (both axes) of a dead player, in micro-units.
pub const SENTINEL_POS: i64 = 2_147_483_647_000_000;

/// Coordinate (both axes) where a player respawns, in micro-units.
pub const SPAWN_POS: i64 = 50_000_000;

/// A projectile hits a player whose centre is closer than this, in micro-units.
pub const COLLISION_RADIUS: i64 = 25_000_000;

/// Largest accepted displacement of one client position update, in micro-units.
pub const MAX_STEP: i64 = 50_000_000;

/// Directory that the static assets are served from, relative to the
/// working directory.
pub fn get_public_directory() -> (r: &'static str)
    ensures
        r@ == "./public/"@,
{
    "./public/"
}

/// How the server picks the address it listens on.
#[derive(Copy, Clone, PartialEq, Eq, Debug, Structural)]
pub enum ServerMode {
    /// Listen on the loopback address.
    Development,
    /// Listen on the machine's local network address.
    Production,
    /// Ask the operator which interface to use.
    Ask,
}

impl ServerMode {
    /// The mode chosen by the command line `args` (program name first):
    /// exactly one argument `prod` or `dev` picks that mode, anything else
    /// asks.
    pub open spec fn of_args(args: Seq<Seq<char>>) -> ServerMode {
        if args.len() == 2 && args[1] == "prod"@ {
            ServerMode::Production
        } else if args.len() == 2 && args[1] == "dev"@ {
            ServerMode::Development
        } else {
            ServerMode::Ask
        }
    }

    pub fn from_args(args: &Vec<String>) -> (r: ServerMode)
        ensures
            r == ServerMode::of_args(args@.map_values(|a: String| a@)),
    {
        if args.len() == 2 {
            if str_eq(args[1].as_str(), "prod") {
                ServerMode::Production
            } else if str_eq(args[1].as_str(), "dev") {
                ServerMode::Development
            } else {
                ServerMode::Ask
            }
        } else {
            ServerMode::Ask
        }
    }
}

/// `s` without leading and trailing whitespace.
pub uninterp spec fn trimmed(s: Seq<char>) -> Seq<char>;

/// Relies on `str::trim`: the result depends on the characters of `s` alone.
#[verifier::external_body]
fn trim(s: &str) -> (r: &str)
    ensures
        r@ == trimmed(s@),
{
    s.trim()
}

pub open spec fn is_digit(c: char) -> bool {
    48 <= (c as u32) <= 57
}

/// The number written by the decimal digits `d` (most significant first).
pub open spec fn decimal_value(d: Seq<char>) -> int
    decreases d.len(),
{
    if d.len() == 0 {
        0
    } else {
        decimal_value(d.drop_last()) * 10 + ((d.last() as u32) - 48)
    }
}

/// `s` without one leading `+`.
pub open spec fn unsigned_digits(s: Seq<char>) -> Seq<char> {
    if s.len() > 0 && s[0] == '+' {
        s.subrange(1, s.len() as int)
    } else {
        s
    }
}

/// The `usize` written by `s` as `str::parse::<usize>` reads it: an
/// optional `+`, then one or more decimal digits whose value fits a `usize`.
pub open spec fn parsed_usize(s: Seq<char>) -> Option<usize> {
    let d = unsigned_digits(s);
    if d.len() > 0 && (forall|i: int| 0 <= i < d.len() ==> is_digit(#[trigger] d[i]))
        && decimal_value(d) <= usize::MAX {
        Some(decimal_value(d) as usize)
    } else {
        None
    }
}

proof fn lemma_decimal_nonneg(d: Seq<char>)
    requires
        forall|i: int| 0 <= i < d.len() ==> is_digit(#[trigger] d[i]),
    ensures
        decimal_value(d) >= 0,
    decreases d.len(),
{
    if d.len() > 0 {
        assert(is_digit(d[d.len() - 1]));
        lemma_decimal_nonneg(d.drop_last());
    }
}

/// More digits never make a smaller number.
proof fn lemma_decimal_prefix(d: Seq<char>, k: int)
    requires
        0 <= k <= d.len(),
        forall|i: int| 0 <= i < d.len() ==> is_digit(#[trigger] d[i]),
    ensures
        decimal_value(d) >= decimal_value(d.subrange(0, k)),
    decreases d.len(),
{
    if k == d.len() {
        assert(d.subrange(0, k) =~= d);
    } else {
        let p = d.drop_last();
        assert(is_digit(d[d.len() - 1]));
        lemma_decimal_prefix(p, k);
        lemma_decimal_nonneg(p);
        assert(p.subrange(0, k) =~= d.subrange(0, k));
    }
}

/// Reads a `usize` written in decimal, as `str::parse::<usize>` does.
pub fn parse_usize(s: &str) -> (r: Option<usize>)
    ensures
        r == parsed_usize(s@),
{
    let n = s.unicode_len();
    let mut start: usize = 0;
    if n > 0 && s.get_char(0) == '+' {
        start = 1;
    }
    let ghost d = unsigned_digits(s@);
    assert(d =~= s@.subrange(start as int, n as int));
    if start == n {
        return None;
    }
    let mut acc: usize = 0;
    let mut i: usize = start;
    while i < n
        invariant
            start <= i <= n,
            n == s@.len(),
            d == s@.subrange(start as int, n as int),
            d == unsigned_digits(s@),
            forall|k: int| 0 <= k < i - start ==> is_digit(#[trigger] d[k]),
            acc == decimal_value(d.subrange(0, i - start)),
        decreases n - i,
    {
        let c = s.get_char(i);
        let cu = c as u32;
        assert(d[i - start] == c);
        if cu < 48 || cu > 57 {
            assert(!is_digit(d[i - start]));
            return None;
        }
        let v: usize = (cu - 48) as usize;
        assert(d.subrange(0, i - start + 1).drop_last() =~= d.subrange(0, i - start));
        assert(d.subrange(0, i - start + 1).last() == c);
        assert(decimal_value(d.subrange(0, i - start + 1)) == acc * 10 + v);
        if acc > (usize::MAX - v) / 10 {
            proof {
                let a = acc as int;
                let vv = v as int;
                let m = usize::MAX as int;
                assert(a * 10 + vv > m) by (nonlinear_arith)
                    requires
                        a > (m - vv) / 10,
                        0 <= vv <= 9,
                        m > 9,
                ;
                if forall|k: int| 0 <= k < d.len() ==> is_digit(#[trigger] d[k]) {
                    lemma_decimal_prefix(d, i - start + 1);
                }
            }
            return None;
        }
        proof {
            let a = acc as int;
            let vv = v as int;
            let m = usize::MAX as int;
            assert(a * 10 + vv <= m) by (nonlinear_arith)
                requires
                    a <= (m - vv) / 10,
                    0 <= vv <= 9,
            ;
        }
        acc = acc * 10 + v;
        i = i + 1;
    }
    assert(d.subrange(0, n - start) =~= d);
    Some(acc)
}

/// The interface picked by the operator's parsed answer among `count`
/// listed ones: the answer must name one of them.
pub open spec fn interface_choice(parsed: Option<usize>, count: usize) -> Option<usize> {
    match parsed {
        Some(k) => if k < count {
            Some(k)
        } else {
            None
        },
        None => None,
    }
}

/// See `interface_choice`.
pub fn pick_interface(parsed: Option<usize>, count: usize) -> (r: Option<usize>)
    ensures
        r == interface_choice(parsed, count),
{
    match parsed {
        Some(k) => if k < count {
            Some(k)
        } else {
            None
        },
        None => None,
    }
}

/// The index of the interface that the operator's answer line picks among
/// `count` listed ones, or `None` (the question is then asked again).
pub fn choose_interface(answer: &str, count: usize) -> (r: Option<usize>)
    ensures
        r == interface_choice(parsed_usize(trimmed(answer@)), count),
{
    pick_interface(parse_usize(trim(answer)), count)
}

/// A player: position and hit points.
#[derive(Copy, Clone, PartialEq, Eq, Debug, Structural)]
pub struct Player {
    pub x: i64,
    pub y: i64,
    pub hp: i64,
}

/// The player part of a client update. `hp` is optional on the wire.
#[derive(Copy, Clone, PartialEq, Eq, Debug, Structural)]
pub struct PartialPlayer {
    pub x: i64,
    pub y: i64,
    pub hp: Option<i64>,
}

/// A projectile in flight.
#[derive(Clone, Debug)]
pub struct Bullet {
    pub x: i64,
    pub y: i64,
    pub velx: i32,
    pub vely: i32,
    /// Remaining life in milliseconds.
    pub life: i64,
    /// Identifier of the connection that fired it.
    pub owner: String,
}

/// Mathematical value of a `Bullet`.
pub struct BulletModel {
    pub x: i64,
    pub y: i64,
    pub velx: i32,
    pub vely: i32,
    pub life: i64,
    pub owner: Seq<char>,
}

impl View for Bullet {
    type V = BulletModel;

    open spec fn view(&self) -> BulletModel {
        BulletModel {
            x: self.x,
            y: self.y,
            velx: self.velx,
            vely: self.vely,
            life: self.life,
            owner: self.owner@,
        }
    }
}

impl Bullet {
    /// A copy of the projectile.
    pub fn duplicate(&self) -> (r: Bullet)
        ensures
            r@ == self@,
    {
        Bullet {
            x: self.x,
            y: self.y,
            velx: self.velx,
            vely: self.vely,
            life: self.life,
            owner: self.owner.clone(),
        }
    }
}

/// What a client sends: its own position (and optionally hp) and the
/// projectiles it fired since its last message.
#[derive(Clone, Debug)]
pub struct WebSocketClientData {
    pub player: PartialPlayer,
    pub new_bullets: Vec<Bullet>,
}

impl WebSocketClientData {
    pub open spec fn bullets_model(&self) -> Seq<BulletModel> {
        bullets_model(self.new_bullets@)
    }
}

pub open spec fn bullets_model(bs: Seq<Bullet>) -> Seq<BulletModel> {
    bs.map_values(|b: Bullet| b@)
}

pub open spec fn players_model(ps: Seq<(String, Player)>) -> Seq<(Seq<char>, Player)> {
    ps.map_values(|e: (String, Player)| (e.0@, e.1))
}

pub open spec fn respawns_model(rs: Seq<(String, i64)>) -> Seq<(Seq<char>, i64)> {
    rs.map_values(|e: (String, i64)| (e.0@, e.1))
}

/// The shared world: players keyed by connection identifier (in the order
/// they joined), live projectiles, and the pending respawn timers of dead
/// players.
#[derive(Clone, Debug)]
pub struct GameState {
    pub players: Vec<(String, Player)>,
    pub bullets: Vec<Bullet>,
    pub respawns: Vec<(String, i64)>,
}

/// Mathematical value of a `GameState`.
pub struct WorldModel {
    pub players: Seq<(Seq<char>, Player)>,
    pub bullets: Seq<BulletModel>,
    pub respawns: Seq<(Seq<char>, i64)>,
}

impl View for GameState {
    type V = WorldModel;

    open spec fn view(&self) -> WorldModel {
        WorldModel {
            players: players_model(self.players@),
            bullets: bullets_model(self.bullets@),
            respawns: respawns_model(self.respawns@),
        }
    }
}

pub open spec fn hp_valid(hp: int) -> bool {
    0 <= hp <= MAX_HP
}

pub open spec fn has_id(ps: Seq<(Seq<char>, Player)>, id: Seq<char>) -> bool {
    exists|i: int| 0 <= i < ps.len() && ps[i].0 == id
}

pub open spec fn ids_unique(ps: Seq<(Seq<char>, Player)>) -> bool {
    forall|i: int, j: int| 0 <= i < ps.len() && 0 <= j < ps.len() && i != j ==> ps[i].0 != ps[j].0
}

impl WorldModel {
    /// Identifiers are unique, every hp is within range and every pending
    /// respawn timer is still running.
    pub open spec fn wf(self) -> bool {
        &&& ids_unique(self.players)
        &&& forall|i: int| 0 <= i < self.players.len() ==> hp_valid(#[trigger] self.players[i].1.hp as int)
        &&& forall|i: int| 0 <= i < self.respawns.len() ==> #[trigger] self.respawns[i].1 > 0
    }
}

impl Player {
    pub open spec fn wf(self) -> bool {
        hp_valid(self.hp as int)
    }

    /// Takes `damage` off the hit points. When they drop to zero or below the
    /// player is dead: hp is reset to full and `true` is returned.
    pub fn take_damage(&mut self, damage: u32) -> (died: bool)
        requires
            old(self).wf(),
        ensures
            died == (old(self).hp - damage <= 0),
            final(self).hp == (if died { MAX_HP as int } else { old(self).hp - damage }),
            final(self).x == old(self).x,
            final(self).y == old(self).y,
            final(self).wf(),
    {
        self.hp = self.hp - damage as i64;
        if self.hp <= 0 {
            self.hp = MAX_HP;
            true
        } else {
            false
        }
    }
}

impl Default for Player {
    /// A new player at the origin with full health.
    fn default() -> (r: Player)
        ensures
            r == (Player { x: 0, y: 0, hp: MAX_HP }),
    {
        Player { x: 0, y: 0, hp: MAX_HP }
    }
}

impl GameState {
    /// An empty world.
    pub fn new() -> (r: GameState)
        ensures
            r@.players.len() == 0,
            r@.bullets.len() == 0,
            r@.respawns.len() == 0,
            r@.wf(),
    {
        GameState { players: Vec::new(), bullets: Vec::new(), respawns: Vec::new() }
    }
}

/// A snapshot addressed to one client.
#[derive(Clone, Debug)]
pub struct GameStatePacket {
    pub recipient: String,
    pub game_state: GameState,
}

impl GameStatePacket {
    pub fn new(game_state: GameState, ws_identifier: &str) -> (r: GameStatePacket)
        ensures
            r.recipient@ == ws_identifier@,
            r.game_state@ == game_state@,
    {
        GameStatePacket { recipient: ws_identifier.to_owned(), game_state }
    }
}

} // verus!
