use vstd::prelude::*;

use crate::components::{GameState, GameStatePacket, WebSocketClientData, WorldModel};
use crate::world::{apply_update, join, leave};

verus! {

/// Where a connection is in its life.
#[derive(Copy, Clone, PartialEq, Eq, Debug, Structural)]
pub enum SessionPhase {
    /// The protocol handshake has not finished yet.
    Handshaking,
    /// The player is registered; frames are processed and snapshots sent.
    Active,
    /// The connection is over and its player removed (terminal).
    Closed,
}

/// One inbound frame, or the failure to read one.
#[derive(Clone, Debug)]
pub enum Inbound {
    /// A text frame, with its decoded content (`None`: it did not decode).
    Text(Option<WebSocketClientData>),
    /// The client closed the connection.
    Close,
    /// Any other kind of frame.
    Other,
    /// Reading failed.
    Failed,
}

/// The decisions of one client connection: registration, inbound frames,
/// paced snapshots and clean-up on every way out. The caller performs the
/// transport work and reports back what happened.
pub struct ConnectionSession {
    pub id: String,
    pub phase: SessionPhase,
    /// Time of the last snapshot sent, in milliseconds.
    pub last_broadcast_ms: u64,
    /// Least time between two snapshots, in milliseconds.
    pub interval_ms: u64,
}

/// The world after an inbound frame of an active session `id`.
pub open spec fn after_frame(w: WorldModel, id: Seq<char>, f: Inbound) -> WorldModel {
    match f {
        Inbound::Text(Some(d)) => apply_update(w, id, d.player, d.bullets_model()),
        Inbound::Close | Inbound::Failed => leave(w, id),
        _ => w,
    }
}

/// Whether a frame ends the session.
pub open spec fn ends_session(f: Inbound) -> bool {
    f is Close || f is Failed
}

/// A snapshot is due once `interval` milliseconds have passed since `last`.
pub open spec fn due(last: u64, interval: u64, now: u64) -> bool {
    now >= last && now - last >= interval
}

impl ConnectionSession {
    /// A session for the connection `id` that has not finished its
    /// handshake; `now_ms` starts the snapshot clock.
    pub fn new(id: &str, interval_ms: u64, now_ms: u64) -> (r: ConnectionSession)
        ensures
            r.id@ == id@,
            r.phase == SessionPhase::Handshaking,
            r.last_broadcast_ms == now_ms,
            r.interval_ms == interval_ms,
    {
        ConnectionSession {
            id: id.to_owned(),
            phase: SessionPhase::Handshaking,
            last_broadcast_ms: now_ms,
            interval_ms,
        }
    }

    /// The handshake finished. When it was accepted the player is registered
    /// with default stats and the session becomes active (the caller then
    /// sends the identity message); otherwise the session is closed and the
    /// world untouched.
    pub fn handshake_done(&mut self, world: &mut GameState, accepted: bool)
        requires
            old(self).phase == SessionPhase::Handshaking,
            old(world)@.wf(),
        ensures
            final(self).phase == (if accepted { SessionPhase::Active } else { SessionPhase::Closed }),
            final(world)@ == (if accepted { join(old(world)@, old(self).id@) } else { old(world)@ }),
            final(world)@.wf(),
            final(self).id == old(self).id,
            final(self).last_broadcast_ms == old(self).last_broadcast_ms,
            final(self).interval_ms == old(self).interval_ms,
    {
        if accepted {
            world.insert_player(self.id.as_str());
            self.phase = SessionPhase::Active;
        } else {
            self.phase = SessionPhase::Closed;
        }
    }

    /// Processes an inbound frame of an active session: a decoded text frame
    /// updates the world, one that does not decode is dropped, a close or a
    /// read failure removes the player and closes the session, other frames
    /// are ignored. A session that is not active ignores everything.
    /// Returns whether the session is over.
    pub fn on_frame(&mut self, world: &mut GameState, frame: Inbound) -> (closed: bool)
        requires
            old(world)@.wf(),
        ensures
            old(self).phase == SessionPhase::Active ==> {
                &&& final(world)@ == after_frame(old(world)@, old(self).id@, frame)
                &&& final(self).phase == (if ends_session(frame) {
                    SessionPhase::Closed
                } else {
                    SessionPhase::Active
                })
            },
            old(self).phase != SessionPhase::Active ==> final(world)@ == old(world)@
                && final(self).phase == old(self).phase,
            closed == (final(self).phase == SessionPhase::Closed),
            final(world)@.wf(),
            final(self).id == old(self).id,
            final(self).last_broadcast_ms == old(self).last_broadcast_ms,
            final(self).interval_ms == old(self).interval_ms,
    {
        if self.phase != SessionPhase::Active {
            return self.phase == SessionPhase::Closed;
        }
        match frame {
            Inbound::Text(Some(d)) => {
                world.apply_client_update(self.id.as_str(), d);
            },
            Inbound::Text(None) | Inbound::Other => {},
            Inbound::Close | Inbound::Failed => {
                world.remove_player(self.id.as_str());
                self.phase = SessionPhase::Closed;
            },
        }
        self.phase == SessionPhase::Closed
    }

    /// Whether a snapshot is due at `now_ms`.
    pub fn snapshot_due(&self, now_ms: u64) -> (r: bool)
        ensures
            r == due(self.last_broadcast_ms, self.interval_ms, now_ms),
    {
        now_ms >= self.last_broadcast_ms && now_ms - self.last_broadcast_ms >= self.interval_ms
    }

    /// The snapshot to send at `now_ms`, if the session is active and one is
    /// due. The snapshot clock is left alone: it restarts only once the
    /// caller reports a confirmed send (`snapshot_sent`).
    pub fn poll_snapshot(&self, world: &GameState, now_ms: u64) -> (r: Option<GameStatePacket>)
        ensures
            (r is Some) == (self.phase == SessionPhase::Active && due(
                self.last_broadcast_ms,
                self.interval_ms,
                now_ms,
            )),
            r matches Some(p) ==> p.recipient@ == self.id@ && p.game_state@ == world@,
    {
        if self.phase == SessionPhase::Active && self.snapshot_due(now_ms) {
            Some(GameStatePacket::new(world.get_snapshot(), self.id.as_str()))
        } else {
            None
        }
    }

    /// A snapshot was written and flushed at `now_ms`: the snapshot clock
    /// restarts there.
    pub fn snapshot_sent(&mut self, now_ms: u64)
        ensures
            final(self).last_broadcast_ms == now_ms,
            final(self).phase == old(self).phase,
            final(self).id == old(self).id,
            final(self).interval_ms == old(self).interval_ms,
    {
        self.last_broadcast_ms = now_ms;
    }

    /// Sending or flushing failed: the player is removed and the session
    /// closed (if it was active; otherwise nothing changes).
    pub fn send_failed(&mut self, world: &mut GameState)
        requires
            old(world)@.wf(),
        ensures
            old(self).phase == SessionPhase::Active ==> final(world)@ == leave(
                old(world)@,
                old(self).id@,
            ) && final(self).phase == SessionPhase::Closed,
            old(self).phase != SessionPhase::Active ==> final(world)@ == old(world)@
                && final(self).phase == old(self).phase,
            final(world)@.wf(),
            final(self).id == old(self).id,
            final(self).last_broadcast_ms == old(self).last_broadcast_ms,
            final(self).interval_ms == old(self).interval_ms,
    {
        if self.phase == SessionPhase::Active {
            world.remove_player(self.id.as_str());
            self.phase = SessionPhase::Closed;
        }
    }
}

} // verus!
