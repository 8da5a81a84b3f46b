//! The client side of the session layer: the lifecycle phases a client
//! mirrors, the handshake that extracts spawn positions from a snapshot, the
//! application of polled opponent state, and the ratio-based estimate that
//! keeps a stale opponent moving between polls.
//!
//! The surrounding process owns the sockets, clocks and channels; it hands
//! this module snapshots, poll results and elapsed-time verdicts as plain
//! values.

use vstd::prelude::*;
use crate::direction::{Direction, spec_dir_of_code};
use crate::player::{Player, spec_is_moving, PLAYER_MOVE_SPEED_MILLI};
use crate::session::{NetworkedGame, spec_find_name, spec_find_other};

verus! {

/// The largest coordinate the estimate arithmetic accepts.  Wire numbers can
/// reach fifteen integer digits and may be negative, so not every polled
/// value qualifies: the estimate skips, rather than misscales, the values
/// outside this range.
pub const COORD_LIMIT_MILLI: i64 = 1_000_000_000_000_000;

/// The phases a client passes through: joining the session, waiting for the
/// second player, waiting for both ready flags, then playing.
#[derive(Clone, Copy, Debug, PartialEq, Eq, Structural)]
pub enum ClientPhase {
    Connecting,
    AwaitingStart,
    AwaitingReady,
    Playing,
}

/// One observation the background polls hand the client.
#[derive(Clone, Copy, Debug, PartialEq, Eq, Structural)]
pub enum ClientEvent {
    /// The join handshake returned a snapshot.
    Joined,
    /// A world poll reported whether the session has started.
    WorldStarted(bool),
    /// A ready poll reported the aggregate.
    ReadyAggregate(bool),
}

/// The phase an observation moves the client to: the handshake leaves
/// `Connecting`, a started world leaves `AwaitingStart`, a true aggregate
/// leaves `AwaitingReady`, and every other observation changes nothing.
pub open spec fn spec_phase_step(p: ClientPhase, e: ClientEvent) -> ClientPhase {
    match (p, e) {
        (ClientPhase::Connecting, ClientEvent::Joined) => ClientPhase::AwaitingStart,
        (ClientPhase::AwaitingStart, ClientEvent::WorldStarted(true)) => ClientPhase::AwaitingReady,
        (ClientPhase::AwaitingReady, ClientEvent::ReadyAggregate(true)) => ClientPhase::Playing,
        _ => p,
    }
}

/// Applies one observation to the phase.
pub fn phase_step(p: ClientPhase, e: ClientEvent) -> (r: ClientPhase)
    ensures
        r == spec_phase_step(p, e),
{
    match (p, e) {
        (ClientPhase::Connecting, ClientEvent::Joined) => ClientPhase::AwaitingStart,
        (ClientPhase::AwaitingStart, ClientEvent::WorldStarted(true)) => ClientPhase::AwaitingReady,
        (ClientPhase::AwaitingReady, ClientEvent::ReadyAggregate(true)) => ClientPhase::Playing,
        _ => p,
    }
}

/// The spawn coordinates the handshake reads out of a join snapshot for the
/// named player: its own entry's position, or the fallback when the snapshot
/// has no such entry.
pub open spec fn spec_own_spawn(g: NetworkedGame, name: Seq<char>) -> (int, int) {
    let j = spec_find_name(g.players@, name);
    if j < g.players@.len() {
        (g.players@[j].body.x as int, g.players@[j].body.y as int)
    } else {
        (100_000int, 100_000int)
    }
}

/// The opponent's coordinates the handshake reads out of a join snapshot:
/// the first entry under another name, or the fallback when there is none.
pub open spec fn spec_opponent_spawn(g: NetworkedGame, name: Seq<char>) -> (int, int) {
    let j = spec_find_other(g.players@, name);
    if j < g.players@.len() {
        (g.players@[j].body.x as int, g.players@[j].body.y as int)
    } else {
        (100_000int, 100_000int)
    }
}

/// Reads the starting coordinates of the named player and of its opponent
/// out of a join snapshot: own pair first, opponent pair second.
pub fn extract_spawns(g: &NetworkedGame, name: &String) -> (r: ((i64, i64), (i64, i64)))
    ensures
        (r.0.0 as int, r.0.1 as int) == spec_own_spawn(*g, name@),
        (r.1.0 as int, r.1.1 as int) == spec_opponent_spawn(*g, name@),
{
    let own = match g.find_player(name) {
        Some(j) => (g.players[j].body.x, g.players[j].body.y),
        None => (100_000, 100_000),
    };
    let other = match g.find_opponent(name) {
        Some(j) => (g.players[j].body.x, g.players[j].body.y),
        None => (100_000, 100_000),
    };
    (own, other)
}

/// Overwrites the mirrored opponent with one polled snapshot vector:
/// position, direction, jumping flag and acceleration; the remaining fields,
/// the animation among them, stay local.
pub fn apply_opponent_snapshot(op: &mut Player, v: &Vec<i64>)
    requires
        v@.len() >= 5,
    ensures
        *final(op) == (Player {
            body: crate::player::Position { x: v@[0], y: v@[1], ..old(op).body },
            dir: spec_dir_of_code(v@[2] as int),
            jumping: v@[3] != 0,
            current_accel: v@[4],
            ..*old(op)
        }),
{
    op.body.x = v[0];
    op.body.y = v[1];
    op.dir = Direction::from_code_milli(v[2]);
    op.jumping = v[3] != 0;
    op.current_accel = v[4];
}

/// Keeps the last two received opponent fixes: a third fix pushes the oldest
/// one out.
pub fn push_opponent_fix(hist: &mut Vec<(i64, i64, i64)>, x: i64, y: i64, dir_code: i64)
    ensures
        final(hist)@ == if old(hist)@.len() < 2 {
            old(hist)@.push((x, y, dir_code))
        } else {
            old(hist)@.skip(1).push((x, y, dir_code))
        },
{
    if hist.len() < 2 {
        hist.push((x, y, dir_code));
    } else {
        hist.remove(0);
        hist.push((x, y, dir_code));
        proof {
            assert(old(hist)@.remove(0) =~= old(hist)@.skip(1));
        }
    }
}

/// The per-axis multiplier of the stale-opponent estimate, in thousandths:
/// the ratio of the two latest fixes, capped at the base movement speed, and
/// taken as the cap outright when the older fix sits at or left of the
/// origin, where a ratio says nothing.
pub open spec fn spec_clamped_ratio(newer: int, older: int) -> int {
    if older <= 0 {
        PLAYER_MOVE_SPEED_MILLI as int
    } else if newer * 1000 / older > PLAYER_MOVE_SPEED_MILLI {
        PLAYER_MOVE_SPEED_MILLI as int
    } else {
        newer * 1000 / older
    }
}

/// A coordinate scaled by a multiplier in thousandths.
pub open spec fn spec_scaled(x: int, ratio: int) -> int {
    x * ratio / 1000
}

/// Whether the estimate arithmetic accepts these values: nonnegative and
/// below the wire bound, which every parsed coordinate satisfies.
pub open spec fn spec_fix_in_range(v: int) -> bool {
    0 <= v <= COORD_LIMIT_MILLI
}

/// Estimates the opponent's position while no fresh fix arrives: each axis
/// of the displayed position is scaled by the capped ratio of the two latest
/// fixes, the remembered movement directions are cleared so the estimate is
/// not compounded, and the fix history is emptied.  A standing opponent, or
/// values outside the estimate's range, leave everything as it is.
pub fn reconcile_opponent(op: &mut Player, hist: &mut Vec<(i64, i64, i64)>) -> (applied: bool)
    requires
        old(hist)@.len() == 2,
    ensures
        applied == (spec_is_moving(*old(op)) && spec_fix_in_range(old(op).body.x as int)
            && spec_fix_in_range(old(op).body.y as int) && spec_fix_in_range(old(hist)@[0].0 as int)
            && spec_fix_in_range(old(hist)@[0].1 as int) && spec_fix_in_range(
            old(hist)@[1].0 as int,
        ) && spec_fix_in_range(old(hist)@[1].1 as int)),
        applied ==> *final(op) == (Player {
            body: crate::player::Position {
                x: spec_scaled(
                    old(op).body.x as int,
                    spec_clamped_ratio(old(hist)@[1].0 as int, old(hist)@[0].0 as int),
                ) as i64,
                y: spec_scaled(
                    old(op).body.y as int,
                    spec_clamped_ratio(old(hist)@[1].1 as int, old(hist)@[0].1 as int),
                ) as i64,
                ..old(op).body
            },
            last_dir: Direction { up: false, down: false, left: false, right: false },
            ..*old(op)
        }) && final(hist)@.len() == 0,
        !applied ==> *final(op) == *old(op) && final(hist)@ == old(hist)@,
{
    let moving = op.is_moving();
    let (x0, y0, _d0) = hist[0];
    let (x1, y1, _d1) = hist[1];
    let in_range = op.body.x >= 0 && op.body.x <= COORD_LIMIT_MILLI && op.body.y >= 0 && op.body.y
        <= COORD_LIMIT_MILLI && x0 >= 0 && x0 <= COORD_LIMIT_MILLI && y0 >= 0 && y0
        <= COORD_LIMIT_MILLI && x1 >= 0 && x1 <= COORD_LIMIT_MILLI && y1 >= 0 && y1
        <= COORD_LIMIT_MILLI;
    if !(moving && in_range) {
        return false;
    }
    let rx = clamped_ratio(x1, x0);
    let ry = clamped_ratio(y1, y0);
    op.body.x = scaled(op.body.x, rx);
    op.body.y = scaled(op.body.y, ry);
    op.last_dir.left = false;
    op.last_dir.right = false;
    op.last_dir.up = false;
    op.last_dir.down = false;
    hist.clear();
    true
}

/// The capped per-axis multiplier of the estimate.
fn clamped_ratio(newer: i64, older: i64) -> (r: i64)
    requires
        0 <= newer <= COORD_LIMIT_MILLI,
        0 <= older <= COORD_LIMIT_MILLI,
    ensures
        r == spec_clamped_ratio(newer as int, older as int),
        0 <= r <= PLAYER_MOVE_SPEED_MILLI,
{
    if older <= 0 {
        PLAYER_MOVE_SPEED_MILLI
    } else {
        let q = (newer * 1000) / older;
        if q > PLAYER_MOVE_SPEED_MILLI {
            PLAYER_MOVE_SPEED_MILLI
        } else {
            q
        }
    }
}

/// A coordinate scaled by a multiplier in thousandths.
fn scaled(x: i64, ratio: i64) -> (r: i64)
    requires
        0 <= x <= COORD_LIMIT_MILLI,
        0 <= ratio <= PLAYER_MOVE_SPEED_MILLI,
    ensures
        r == spec_scaled(x as int, ratio as int),
        0 <= r <= x,
{
    proof {
        assert(0 <= x * ratio <= x * 1000) by (nonlinear_arith)
            requires
                0 <= x,
                0 <= ratio <= 1000,
        ;
    }
    let p = x * ratio;
    p / 1000
}

} // verus!
