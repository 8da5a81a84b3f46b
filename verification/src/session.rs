//! One game session: up to two players, a started flag, and the mutations
//! the server applies on behalf of its dispatch loop.

use vstd::prelude::*;
use crate::direction::spec_dir_of_code;
use crate::player::{Player, Position, spec_is_new_player};

verus! {

/// The player cap of every session.
pub const MAX_PLAYERS: usize = 2;

/// The body rectangle a joiner spawns with: the first joiner at the left
/// spawn point, the second at the right one.
pub open spec fn spec_spawn(idx: int) -> Position {
    if idx == 0 {
        Position { x: 100_000, y: 250_000, w: 34_000, h: 44_000 }
    } else {
        Position { x: 500_000, y: 250_000, w: 34_000, h: 44_000 }
    }
}

/// The spawn rectangle of the joiner that arrives at position `idx`.
pub fn spawn_position(idx: usize) -> (p: Position)
    ensures
        p == spec_spawn(idx as int),
{
    if idx == 0 {
        Position { x: 100_000, y: 250_000, w: 34_000, h: 44_000 }
    } else {
        Position { x: 500_000, y: 250_000, w: 34_000, h: 44_000 }
    }
}

/// One session: its players in join order, its server-assigned id, and its
/// lifecycle flags.
#[derive(Clone, Debug)]
pub struct NetworkedGame {
    pub players: Vec<Player>,
    pub session_id: String,
    pub started: bool,
    pub completed: bool,
}

/// The invariant the registry keeps every session in: never more than two
/// players, and started exactly while the session is full.
pub open spec fn spec_wf_game(g: NetworkedGame) -> bool {
    &&& g.players@.len() <= 2
    &&& g.started <==> g.players@.len() == 2
}

/// Index of the first player called `name`, or the length when there is
/// none.
pub open spec fn spec_find_name(s: Seq<Player>, name: Seq<char>) -> int
    decreases s.len(),
{
    if s.len() == 0 {
        0
    } else if s[0].name@ == name {
        0
    } else {
        1 + spec_find_name(s.skip(1), name)
    }
}

/// Index of the first player *not* called `name` (the caller's opponent), or
/// the length when there is none.
pub open spec fn spec_find_other(s: Seq<Player>, name: Seq<char>) -> int
    decreases s.len(),
{
    if s.len() == 0 {
        0
    } else if s[0].name@ != name {
        0
    } else {
        1 + spec_find_other(s.skip(1), name)
    }
}

pub proof fn lemma_find_name_props(s: Seq<Player>, name: Seq<char>)
    ensures
        0 <= spec_find_name(s, name) <= s.len(),
        forall|i: int| 0 <= i < spec_find_name(s, name) ==> s[i].name@ != name,
        spec_find_name(s, name) < s.len() ==> s[spec_find_name(s, name)].name@ == name,
    decreases s.len(),
{
    if s.len() == 0 {
    } else if s[0].name@ == name {
    } else {
        lemma_find_name_props(s.skip(1), name);
        assert forall|i: int| 0 <= i < spec_find_name(s, name) implies s[i].name@ != name by {
            if i > 0 {
                assert(s.skip(1)[i - 1].name@ != name);
            }
        }
    }
}

pub proof fn lemma_find_name_unique(s: Seq<Player>, name: Seq<char>, k: int)
    requires
        0 <= k <= s.len(),
        forall|i: int| 0 <= i < k ==> s[i].name@ != name,
        k < s.len() ==> s[k].name@ == name,
    ensures
        spec_find_name(s, name) == k,
{
    lemma_find_name_props(s, name);
    let f = spec_find_name(s, name);
    if f < k {
        assert(s[f].name@ != name);
    } else if k < f {
        assert(s[k].name@ != name);
    }
}

pub proof fn lemma_find_other_props(s: Seq<Player>, name: Seq<char>)
    ensures
        0 <= spec_find_other(s, name) <= s.len(),
        forall|i: int| 0 <= i < spec_find_other(s, name) ==> s[i].name@ == name,
        spec_find_other(s, name) < s.len() ==> s[spec_find_other(s, name)].name@ != name,
    decreases s.len(),
{
    if s.len() == 0 {
    } else if s[0].name@ != name {
    } else {
        lemma_find_other_props(s.skip(1), name);
        assert forall|i: int| 0 <= i < spec_find_other(s, name) implies s[i].name@ == name by {
            if i > 0 {
                assert(s.skip(1)[i - 1].name@ == name);
            }
        }
    }
}

pub proof fn lemma_find_other_unique(s: Seq<Player>, name: Seq<char>, k: int)
    requires
        0 <= k <= s.len(),
        forall|i: int| 0 <= i < k ==> s[i].name@ == name,
        k < s.len() ==> s[k].name@ != name,
    ensures
        spec_find_other(s, name) == k,
{
    lemma_find_other_props(s, name);
    let f = spec_find_other(s, name);
    if f < k {
        assert(s[f].name@ == name);
    } else if k < f {
        assert(s[k].name@ == name);
    }
}

/// How many players have raised their ready flag.
pub open spec fn spec_ready_count(s: Seq<Player>) -> int
    decreases s.len(),
{
    if s.len() == 0 {
        0
    } else {
        spec_ready_count(s.drop_last()) + if s.last().ready {
            1int
        } else {
            0int
        }
    }
}

/// `p` with its ready flag set to `r` and nothing else touched.
pub open spec fn spec_with_ready(p: Player, r: bool) -> Player {
    Player { ready: r, ..p }
}

/// `p` after a position update: body coordinates, current and last direction,
/// jumping flag and animation frame come from the wire; the body extent,
/// identity, stats, acceleration, jump offset and ready flag stay.
pub open spec fn spec_apply_position(
    p: Player,
    x: i64,
    y: i64,
    dir_code: i64,
    jumping_flag: i64,
    frame: i64,
    last_dir_code: i64,
) -> Player {
    Player {
        body: Position { x, y, ..p.body },
        dir: spec_dir_of_code(dir_code as int),
        jumping: jumping_flag != 0,
        animation_frame: frame,
        last_dir: spec_dir_of_code(last_dir_code as int),
        ..p
    }
}

/// What one join attempt does: with room left it appends a fresh player at
/// the next spawn and starts the session the moment it becomes full; a full
/// session is left exactly as it was.
pub open spec fn spec_join_rel(
    pre: NetworkedGame,
    post: NetworkedGame,
    name: Seq<char>,
    joined: bool,
) -> bool {
    &&& joined == (pre.players@.len() < 2)
    &&& if joined {
        &&& post.players@.len() == pre.players@.len() + 1
        &&& (forall|i: int| 0 <= i < pre.players@.len() ==> post.players@[i] == pre.players@[i])
        &&& spec_is_new_player(
            post.players@.last(),
            name,
            spec_spawn(pre.players@.len() as int),
        )
        &&& post.started == (pre.started || post.players@.len() == 2)
        &&& post.session_id@ == pre.session_id@
        &&& post.completed == pre.completed
    } else {
        post == pre
    }
}

/// What one ready call does: every player of that name raises its flag, all
/// else stays, and the reported aggregate is true exactly when two players
/// are ready afterwards.
pub open spec fn spec_ready_rel(
    pre: NetworkedGame,
    post: NetworkedGame,
    name: Seq<char>,
    both: bool,
) -> bool {
    &&& post.players@.len() == pre.players@.len()
    &&& (forall|i: int|
        0 <= i < pre.players@.len() ==> post.players@[i] == spec_with_ready(
            pre.players@[i],
            pre.players@[i].ready || pre.players@[i].name@ == name,
        ))
    &&& post.session_id@ == pre.session_id@
    &&& post.started == pre.started
    &&& post.completed == pre.completed
    &&& both == (spec_ready_count(post.players@) == 2)
}

/// What one position update does: the first player of that name takes the
/// transmitted fields, every other player and the session itself stay as
/// they were; with no player of that name nothing changes.
pub open spec fn spec_position_rel(
    pre: NetworkedGame,
    post: NetworkedGame,
    name: Seq<char>,
    x: i64,
    y: i64,
    dir_code: i64,
    jumping_flag: i64,
    frame: i64,
    last_dir_code: i64,
) -> bool {
    let j = spec_find_name(pre.players@, name);
    if j == pre.players@.len() {
        post == pre
    } else {
        &&& post.players@ == pre.players@.update(
            j,
            spec_apply_position(pre.players@[j], x, y, dir_code, jumping_flag, frame, last_dir_code),
        )
        &&& post.session_id@ == pre.session_id@
        &&& post.started == pre.started
        &&& post.completed == pre.completed
    }
}

impl NetworkedGame {
    /// Creates an empty, not yet started session under the given id.
    pub fn new(game_id: String) -> (g: NetworkedGame)
        ensures
            g.players@.len() == 0,
            g.session_id@ == game_id@,
            !g.started,
            !g.completed,
            spec_wf_game(g),
    {
        NetworkedGame { players: Vec::new(), session_id: game_id, started: false, completed: false }
    }

    /// Admits a joiner while the session has room; returns whether the join
    /// was accepted.  The second join starts the session.
    pub fn join(&mut self, name: String) -> (joined: bool)
        ensures
            spec_join_rel(*old(self), *final(self), name@, joined),
            old(self).players@.len() < 2 ==> final(self).players@.len() == old(
                self,
            ).players@.len() + 1,
            spec_wf_game(*old(self)) ==> spec_wf_game(*final(self)),
    {
        let n = self.players.len();
        if n < MAX_PLAYERS {
            let pos = spawn_position(n);
            let p = Player::new(name, pos);
            self.players.push(p);
            if self.players.len() == MAX_PLAYERS {
                self.started = true;
            }
            true
        } else {
            false
        }
    }

    /// Index of the first player called `name`, if any.
    pub fn find_player(&self, name: &String) -> (r: Option<usize>)
        ensures
            r is Some <==> spec_find_name(self.players@, name@) < self.players@.len(),
            r is Some ==> r->0 == spec_find_name(self.players@, name@),
    {
        let n = self.players.len();
        let mut i: usize = 0;
        while i < n
            invariant
                0 <= i <= n,
                n == self.players@.len(),
                forall|k: int| 0 <= k < i ==> self.players@[k].name@ != name@,
            decreases n - i,
        {
            if self.players[i].name == *name {
                proof {
                    lemma_find_name_unique(self.players@, name@, i as int);
                }
                return Some(i);
            }
            i += 1;
        }
        proof {
            lemma_find_name_unique(self.players@, name@, n as int);
        }
        None
    }

    /// Index of the first player not called `name`: the caller's opponent,
    /// if present.
    pub fn find_opponent(&self, name: &String) -> (r: Option<usize>)
        ensures
            r is Some <==> spec_find_other(self.players@, name@) < self.players@.len(),
            r is Some ==> r->0 == spec_find_other(self.players@, name@),
    {
        let n = self.players.len();
        let mut i: usize = 0;
        while i < n
            invariant
                0 <= i <= n,
                n == self.players@.len(),
                forall|k: int| 0 <= k < i ==> self.players@[k].name@ == name@,
            decreases n - i,
        {
            if !(self.players[i].name == *name) {
                proof {
                    lemma_find_other_unique(self.players@, name@, i as int);
                }
                return Some(i);
            }
            i += 1;
        }
        proof {
            lemma_find_other_unique(self.players@, name@, n as int);
        }
        None
    }

    /// Raises the ready flag of every player called `name` and reports
    /// whether both players of a full session are now ready.  Calling again
    /// once ready changes nothing and still reports the aggregate.
    pub fn mark_ready(&mut self, name: &String) -> (both: bool)
        ensures
            spec_ready_rel(*old(self), *final(self), name@, both),
    {
        let n = self.players.len();
        let mut i: usize = 0;
        while i < n
            invariant
                0 <= i <= n,
                n == self.players@.len(),
                self.session_id == old(self).session_id,
                self.started == old(self).started,
                self.completed == old(self).completed,
                forall|k: int|
                    0 <= k < i ==> self.players@[k] == spec_with_ready(
                        old(self).players@[k],
                        old(self).players@[k].ready || old(self).players@[k].name@ == name@,
                    ),
                forall|k: int| i <= k < n ==> self.players@[k] == old(self).players@[k],
            decreases n - i,
        {
            if self.players[i].name == *name {
                self.players[i].ready = true;
            }
            i += 1;
        }
        let mut count: usize = 0;
        let mut j: usize = 0;
        while j < n
            invariant
                0 <= j <= n,
                n == self.players@.len(),
                count <= j,
                count as int == spec_ready_count(self.players@.take(j as int)),
            decreases n - j,
        {
            proof {
                assert(self.players@.take(j + 1).drop_last() =~= self.players@.take(j as int));
                assert(self.players@.take(j + 1).last() == self.players@[j as int]);
            }
            if self.players[j].ready {
                count += 1;
            }
            j += 1;
        }
        proof {
            assert(self.players@.take(n as int) =~= self.players@);
        }
        count == 2
    }

    /// Overwrites the transmitted fields of the first player called `name`;
    /// a session without such a player is left untouched.  Returns whether a
    /// player was updated.
    pub fn update_position(
        &mut self,
        name: &String,
        x: i64,
        y: i64,
        dir_code: i64,
        jumping_flag: i64,
        frame: i64,
        last_dir_code: i64,
    ) -> (updated: bool)
        ensures
            spec_position_rel(
                *old(self),
                *final(self),
                name@,
                x,
                y,
                dir_code,
                jumping_flag,
                frame,
                last_dir_code,
            ),
            updated == (spec_find_name(old(self).players@, name@) < old(self).players@.len()),
    {
        let idx = match self.find_player(name) {
            Some(i) => i,
            None => {
                proof {
                    lemma_find_name_props(self.players@, name@);
                }
                return false;
            },
        };
        let ghost pre = *self;
        let dir = crate::direction::Direction::from_code_milli(dir_code);
        let last = crate::direction::Direction::from_code_milli(last_dir_code);
        self.players[idx].body.x = x;
        self.players[idx].body.y = y;
        self.players[idx].dir = dir;
        self.players[idx].jumping = jumping_flag != 0;
        self.players[idx].animation_frame = frame;
        self.players[idx].last_dir = last;
        proof {
            assert(self.players@ =~= pre.players@.update(
                idx as int,
                spec_apply_position(
                    pre.players@[idx as int],
                    x,
                    y,
                    dir_code,
                    jumping_flag,
                    frame,
                    last_dir_code,
                ),
            ));
        }
        true
    }
}

/// A session accepts at most two joins: from empty, the first two attempts
/// are admitted, the third is refused, and the refused attempt moves neither
/// the player count nor anything else of the session.
pub proof fn lemma_at_most_two_joins(
    g0: NetworkedGame,
    g1: NetworkedGame,
    g2: NetworkedGame,
    g3: NetworkedGame,
    n1: Seq<char>,
    n2: Seq<char>,
    n3: Seq<char>,
    j1: bool,
    j2: bool,
    j3: bool,
)
    requires
        g0.players@.len() == 0,
        spec_join_rel(g0, g1, n1, j1),
        spec_join_rel(g1, g2, n2, j2),
        spec_join_rel(g2, g3, n3, j3),
    ensures
        j1,
        j2,
        !j3,
        g3 == g2,
        g3.players@.len() == 2,
{
}

/// The started flag comes up exactly once, at the moment the player count
/// reaches two: it is down with zero and one player, comes up with the
/// second join, and a later refused join leaves the session untouched.
pub proof fn lemma_started_flips_once(
    g0: NetworkedGame,
    g1: NetworkedGame,
    g2: NetworkedGame,
    g3: NetworkedGame,
    n1: Seq<char>,
    n2: Seq<char>,
    n3: Seq<char>,
    j1: bool,
    j2: bool,
    j3: bool,
)
    requires
        g0.players@.len() == 0,
        !g0.started,
        spec_join_rel(g0, g1, n1, j1),
        spec_join_rel(g1, g2, n2, j2),
        spec_join_rel(g2, g3, n3, j3),
    ensures
        !g1.started,
        g1.players@.len() == 1,
        g2.started,
        g2.players@.len() == 2,
        g3 == g2,
{
}

/// In a full session the ready aggregate a ready call reports is true
/// exactly when both players' individual flags are up afterwards.
pub proof fn lemma_ready_aggregate_iff(
    pre: NetworkedGame,
    post: NetworkedGame,
    name: Seq<char>,
    both: bool,
)
    requires
        pre.players@.len() == 2,
        spec_ready_rel(pre, post, name, both),
    ensures
        both == (post.players@[0].ready && post.players@[1].ready),
{
    let s = post.players@;
    reveal_with_fuel(spec_ready_count, 3);
    assert(s.drop_last().drop_last() =~= Seq::<Player>::empty());
    assert(s.drop_last().last() == s[0]);
    assert(s.last() == s[1]);
    assert(spec_ready_count(s) == spec_ready_count(s.drop_last()) + if s[1].ready {
        1int
    } else {
        0int
    });
}

/// Whichever order the two players of a full session send their ready calls
/// in, the second call reports the aggregate as true.
pub proof fn lemma_ready_any_order(
    g0: NetworkedGame,
    g1: NetworkedGame,
    g2: NetworkedGame,
    first: Seq<char>,
    second: Seq<char>,
    r1: bool,
    both: bool,
)
    requires
        g0.players@.len() == 2,
        (g0.players@[0].name@ == first && g0.players@[1].name@ == second) || (g0.players@[0].name@
            == second && g0.players@[1].name@ == first),
        spec_ready_rel(g0, g1, first, r1),
        spec_ready_rel(g1, g2, second, both),
    ensures
        both,
{
    lemma_ready_aggregate_iff(g1, g2, second, both);
}

/// A position update for one player mutates only that player: every player
/// of a different name keeps its state exactly, and even the updated player
/// keeps its identity, body extent, stats, acceleration, jump offset and
/// ready flag.
pub proof fn lemma_position_update_no_cross_talk(
    pre: NetworkedGame,
    post: NetworkedGame,
    name: Seq<char>,
    x: i64,
    y: i64,
    dir_code: i64,
    jumping_flag: i64,
    frame: i64,
    last_dir_code: i64,
)
    requires
        spec_position_rel(pre, post, name, x, y, dir_code, jumping_flag, frame, last_dir_code),
    ensures
        post.players@.len() == pre.players@.len(),
        forall|i: int|
            0 <= i < pre.players@.len() && i != spec_find_name(pre.players@, name)
                ==> post.players@[i] == pre.players@[i],
        forall|i: int|
            0 <= i < pre.players@.len() && pre.players@[i].name@ != name ==> post.players@[i]
                == pre.players@[i],
        spec_find_name(pre.players@, name) < pre.players@.len() ==> {
            let j = spec_find_name(pre.players@, name);
            &&& post.players@[j].name == pre.players@[j].name
            &&& post.players@[j].body.w == pre.players@[j].body.w
            &&& post.players@[j].body.h == pre.players@[j].body.h
            &&& post.players@[j].hp == pre.players@[j].hp
            &&& post.players@[j].mp == pre.players@[j].mp
            &&& post.players@[j].str == pre.players@[j].str
            &&& post.players@[j].current_accel == pre.players@[j].current_accel
            &&& post.players@[j].jump_offset == pre.players@[j].jump_offset
            &&& post.players@[j].ready == pre.players@[j].ready
        },
{
    lemma_find_name_props(pre.players@, name);
    let j = spec_find_name(pre.players@, name);
    if j < pre.players@.len() {
        assert forall|i: int|
            0 <= i < pre.players@.len() && pre.players@[i].name@ != name implies post.players@[i]
            == pre.players@[i] by {
            if i == j {
                assert(pre.players@[j].name@ == name);
            }
        }
    }
}

} // verus!
