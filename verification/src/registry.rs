//! The session registry: every active session, the id counter, and the
//! dispatch of one decoded datagram to the session it addresses.

use vstd::prelude::*;
use vstd::string::StringExecFns;
use crate::action::NetActions;
use crate::codec::{decode_request, spec_decode_request};
use crate::json::{
    emit_game,
    emit_list,
    emit_opponent,
    emit_ready,
    parse_milli_array,
    spec_emit_game,
    spec_emit_list,
    spec_emit_opponent,
    spec_emit_ready,
    spec_parse_milli_array,
};
use crate::numfmt::{spec_udec, u64_to_string};
use crate::direction::spec_dir_code;
use crate::session::{
    NetworkedGame,
    spec_find_name,
    spec_find_other,
    spec_join_rel,
    spec_position_rel,
    spec_ready_count,
    spec_ready_rel,
    spec_wf_game,
};

verus! {

/// A session that was just minted: empty, not started, under the given id.
pub open spec fn spec_is_fresh_game(g: NetworkedGame, id: Seq<char>) -> bool {
    &&& g.players@.len() == 0
    &&& g.session_id@ == id
    &&& !g.started
    &&& !g.completed
}

/// Index of the first session under id `id`, or the length when there is
/// none.
pub open spec fn spec_find_game(s: Seq<NetworkedGame>, id: Seq<char>) -> int
    decreases s.len(),
{
    if s.len() == 0 {
        0
    } else if s[0].session_id@ == id {
        0
    } else {
        1 + spec_find_game(s.skip(1), id)
    }
}

pub proof fn lemma_find_game_props(s: Seq<NetworkedGame>, id: Seq<char>)
    ensures
        0 <= spec_find_game(s, id) <= s.len(),
        forall|i: int| 0 <= i < spec_find_game(s, id) ==> s[i].session_id@ != id,
        spec_find_game(s, id) < s.len() ==> s[spec_find_game(s, id)].session_id@ == id,
    decreases s.len(),
{
    if s.len() == 0 {
    } else if s[0].session_id@ == id {
    } else {
        lemma_find_game_props(s.skip(1), id);
        assert forall|i: int| 0 <= i < spec_find_game(s, id) implies s[i].session_id@ != id by {
            if i > 0 {
                assert(s.skip(1)[i - 1].session_id@ != id);
            }
        }
    }
}

pub proof fn lemma_find_game_unique(s: Seq<NetworkedGame>, id: Seq<char>, k: int)
    requires
        0 <= k <= s.len(),
        forall|i: int| 0 <= i < k ==> s[i].session_id@ != id,
        k < s.len() ==> s[k].session_id@ == id,
    ensures
        spec_find_game(s, id) == k,
{
    lemma_find_game_props(s, id);
    let f = spec_find_game(s, id);
    if f < k {
        assert(s[f].session_id@ != id);
    } else if k < f {
        assert(s[k].session_id@ != id);
    }
}

/// The server side of the protocol: the sessions it hosts, in creation
/// order, and the counter its ids are minted from.
pub struct GameServer {
    /// The address the socket of the surrounding process binds; the dispatch
    /// logic itself never reads it.
    pub hostname: String,
    pub games: Vec<NetworkedGame>,
    pub game_count: u64,
}

/// Whether a dispatch left the registry exactly as it found it.
pub open spec fn spec_unchanged(pre: GameServer, post: GameServer) -> bool {
    &&& post.games@ == pre.games@
    &&& post.game_count == pre.game_count
    &&& post.hostname@ == pre.hostname@
}

/// Every session of the registry is well formed.
pub open spec fn spec_wf_registry(s: Seq<NetworkedGame>) -> bool {
    forall|i: int| 0 <= i < s.len() ==> spec_wf_game(s[i])
}


/// A registry stays well formed when one well-formed session replaces
/// another in place.
proof fn lemma_wf_update(pre: Seq<NetworkedGame>, post: Seq<NetworkedGame>, j: int)
    requires
        spec_wf_registry(pre),
        0 <= j < pre.len(),
        post == pre.update(j, post[j]),
        spec_wf_game(post[j]),
    ensures
        spec_wf_registry(post),
{
    assert forall|i: int| 0 <= i < post.len() implies spec_wf_game(post[i]) by {
        if i != j {
            assert(post[i] == pre[i]);
        }
    }
}

impl GameServer {
    /// Creates a registry with no sessions for a server bound to `hostname`.
    pub fn new(hostname: String) -> (r: GameServer)
        ensures
            r.games@.len() == 0,
            r.game_count == 0,
            r.hostname@ == hostname@,
            spec_wf_registry(r.games@),
    {
        GameServer { hostname, games: Vec::new(), game_count: 0 }
    }

    /// Mints the next session id, registers a fresh session under it, and
    /// returns the id.
    pub fn new_game(&mut self) -> (id: String)
        requires
            old(self).game_count < u64::MAX,
        ensures
            final(self).game_count == old(self).game_count + 1,
            id@ == spec_udec((old(self).game_count + 1) as nat),
            final(self).games@.len() == old(self).games@.len() + 1,
            forall|i: int|
                0 <= i < old(self).games@.len() ==> final(self).games@[i] == old(self).games@[i],
            spec_is_fresh_game(final(self).games@.last(), id@),
            final(self).hostname@ == old(self).hostname@,
    {
        let count = self.game_count + 1;
        self.game_count = count;
        let id = u64_to_string(count);
        let game = NetworkedGame::new(id.clone());
        self.games.push(game);
        id
    }

    /// Index of the session under id `id`, if any.
    fn find_game(&self, id: &String) -> (r: Option<usize>)
        ensures
            r is Some <==> spec_find_game(self.games@, id@) < self.games@.len(),
            r is Some ==> r->0 == spec_find_game(self.games@, id@),
    {
        let n = self.games.len();
        let mut i: usize = 0;
        while i < n
            invariant
                0 <= i <= n,
                n == self.games@.len(),
                forall|k: int| 0 <= k < i ==> self.games@[k].session_id@ != id@,
            decreases n - i,
        {
            if self.games[i].session_id == *id {
                proof {
                    lemma_find_game_unique(self.games@, id@, i as int);
                }
                return Some(i);
            }
            i += 1;
        }
        proof {
            lemma_find_game_unique(self.games@, id@, n as int);
        }
        None
    }

    /// Decodes one datagram and dispatches it: mutates the addressed session
    /// as the action asks and returns the reply to send back, or nothing for
    /// fire-and-forget actions, lookup misses, refused joins and malformed
    /// datagrams.  A malformed datagram never disturbs the registry.
    pub fn handle_request(&mut self, request: &str) -> (reply: Option<String>)
        requires
            old(self).game_count < u64::MAX,
        ensures
            spec_wf_registry(old(self).games@) ==> spec_wf_registry(final(self).games@),
            spec_decode_request(request@) is None ==> spec_unchanged(*old(self), *final(self)) && reply is None,
            ({
                let d = spec_decode_request(request@);
                let t = d->0;
                d is Some && !(1 <= t.2 <= 8) ==> spec_unchanged(*old(self), *final(self)) && reply is Some
                    && reply->0@ == "Invalid Command"@
            }),
            ({
                let d = spec_decode_request(request@);
                let t = d->0;
                d is Some && t.2 == 2 ==> {
                    &&& final(self).game_count == old(self).game_count + 1
                    &&& final(self).games@.len() == old(self).games@.len() + 1
                    &&& (forall|i: int|
                        0 <= i < old(self).games@.len() ==> final(self).games@[i] == old(
                            self,
                        ).games@[i])
                    &&& spec_is_fresh_game(
                        final(self).games@.last(),
                        spec_udec((old(self).game_count + 1) as nat),
                    )
                    &&& reply is Some
                    &&& reply->0@ == spec_udec((old(self).game_count + 1) as nat)
                }
            }),
            ({
                let d = spec_decode_request(request@);
                let t = d->0;
                d is Some && t.2 == 3 ==> spec_unchanged(*old(self), *final(self)) && reply is Some
                    && reply->0@ == spec_emit_list(old(self).games@)
            }),
            ({
                let d = spec_decode_request(request@);
                let t = d->0;
                let j = spec_find_game(old(self).games@, t.0);
                d is Some && t.2 == 5 ==> spec_unchanged(*old(self), *final(self)) && if j < old(
                    self,
                ).games@.len() {
                    reply is Some && reply->0@ == spec_emit_game(old(self).games@[j])
                } else {
                    reply is None
                }
            }),
            ({
                let d = spec_decode_request(request@);
                let t = d->0;
                let j = spec_find_game(old(self).games@, t.0);
                d is Some && t.2 == 7 ==> if j < old(self).games@.len() && old(
                    self,
                ).games@[j].players@.len() < 2 {
                    &&& final(self).games@ == old(self).games@.update(j, final(self).games@[j])
                    &&& spec_join_rel(old(self).games@[j], final(self).games@[j], t.1, true)
                    &&& reply is Some
                    &&& reply->0@ == spec_emit_game(final(self).games@[j])
                    &&& final(self).game_count == old(self).game_count
                    &&& final(self).hostname == old(self).hostname
                } else {
                    spec_unchanged(*old(self), *final(self)) && reply is None
                }
            }),
            ({
                let d = spec_decode_request(request@);
                let t = d->0;
                let j = spec_find_game(old(self).games@, t.0);
                d is Some && t.2 == 4 ==> if j < old(self).games@.len() {
                    &&& final(self).games@ == old(self).games@.update(j, final(self).games@[j])
                    &&& spec_ready_rel(
                        old(self).games@[j],
                        final(self).games@[j],
                        t.1,
                        spec_ready_count(final(self).games@[j].players@) == 2,
                    )
                    &&& reply is Some
                    &&& reply->0@ == spec_emit_ready(
                        spec_ready_count(final(self).games@[j].players@) == 2,
                    )
                    &&& final(self).game_count == old(self).game_count
                    &&& final(self).hostname == old(self).hostname
                } else {
                    spec_unchanged(*old(self), *final(self)) && reply is None
                }
            }),
            ({
                let d = spec_decode_request(request@);
                let t = d->0;
                let j = spec_find_game(old(self).games@, t.0);
                let pm = spec_parse_milli_array(t.3);
                d is Some && t.2 == 1 ==> reply is None && if j < old(self).games@.len() && pm
                    is Some && pm->0.len() == 6 {
                    &&& final(self).games@ == old(self).games@.update(j, final(self).games@[j])
                    &&& spec_position_rel(
                        old(self).games@[j],
                        final(self).games@[j],
                        t.1,
                        pm->0[0] as i64,
                        pm->0[1] as i64,
                        pm->0[2] as i64,
                        pm->0[3] as i64,
                        pm->0[4] as i64,
                        pm->0[5] as i64,
                    )
                    &&& final(self).game_count == old(self).game_count
                    &&& final(self).hostname == old(self).hostname
                } else {
                    spec_unchanged(*old(self), *final(self))
                }
            }),
            ({
                let d = spec_decode_request(request@);
                let t = d->0;
                let j = spec_find_game(old(self).games@, t.0);
                d is Some && t.2 == 6 ==> spec_unchanged(*old(self), *final(self)) && if j < old(
                    self,
                ).games@.len() && spec_find_other(old(self).games@[j].players@, t.1) < old(
                    self,
                ).games@[j].players@.len() {
                    let p = old(self).games@[j].players@[spec_find_other(
                        old(self).games@[j].players@,
                        t.1,
                    )];
                    reply is Some && reply->0@ == spec_emit_opponent(
                        p.body.x,
                        p.body.y,
                        spec_dir_code(p.dir),
                        if p.jumping {
                            1000i64
                        } else {
                            0i64
                        },
                        p.current_accel,
                        p.animation_frame,
                    )
                } else {
                    reply is None
                }
            }),
            ({
                let d = spec_decode_request(request@);
                let t = d->0;
                let j = spec_find_game(old(self).games@, t.0);
                d is Some && t.2 == 8 ==> spec_unchanged(*old(self), *final(self)) && if j < old(
                    self,
                ).games@.len() && spec_find_other(old(self).games@[j].players@, t.1) < old(
                    self,
                ).games@[j].players@.len() {
                    reply is Some && reply->0@ == old(self).games@[j].players@[spec_find_other(
                        old(self).games@[j].players@,
                        t.1,
                    )].name@
                } else {
                    reply is None
                }
            }),
    {
        let req = match decode_request(request) {
            Some(r) => r,
            None => {
                return None;
            },
        };
        let code: usize = if req.code <= 8 {
            req.code as usize
        } else {
            0
        };
        match NetActions::from_usize(code) {
            NetActions::Newgame => {
                let ghost pre = *self;
                let id = self.new_game();
                proof {
                    if spec_wf_registry(pre.games@) {
                        assert forall|i: int|
                            0 <= i < self.games@.len() implies spec_wf_game(self.games@[i]) by {
                            if i < pre.games@.len() {
                                assert(self.games@[i] == pre.games@[i]);
                            } else {
                                assert(self.games@[i] == self.games@.last());
                            }
                        }
                    }
                }
                Some(id)
            },
            NetActions::Listgames => {
                Some(emit_list(&self.games))
            },
            NetActions::Getworld => {
                match self.find_game(&req.game_id) {
                    Some(j) => Some(emit_game(&self.games[j])),
                    None => None,
                }
            },
            NetActions::Joingame => {
                match self.find_game(&req.game_id) {
                    Some(j) => {
                        let ghost pre = *self;
                        let joined = self.games[j].join(req.player);
                        proof {
                            assert(self.games@ =~= pre.games@.update(
                                j as int,
                                self.games@[j as int],
                            ));
                            if spec_wf_registry(pre.games@) {
                                lemma_wf_update(pre.games@, self.games@, j as int);
                            }
                        }
                        if joined {
                            Some(emit_game(&self.games[j]))
                        } else {
                            proof {
                                assert(self.games@ =~= pre.games@);
                            }
                            None
                        }
                    },
                    None => None,
                }
            },
            NetActions::Ready => {
                match self.find_game(&req.game_id) {
                    Some(j) => {
                        let ghost pre = *self;
                        let both = self.games[j].mark_ready(&req.player);
                        proof {
                            assert(self.games@ =~= pre.games@.update(
                                j as int,
                                self.games@[j as int],
                            ));
                            if spec_wf_registry(pre.games@) {
                                lemma_wf_update(pre.games@, self.games@, j as int);
                            }
                        }
                        Some(emit_ready(both))
                    },
                    None => None,
                }
            },
            NetActions::Sendposition => {
                match self.find_game(&req.game_id) {
                    Some(j) => {
                        match parse_milli_array(req.meta.as_str()) {
                            Some(vals) => {
                                if vals.len() == 6 {
                                    let ghost pre = *self;
                                    self.games[j].update_position(
                                        &req.player,
                                        vals[0],
                                        vals[1],
                                        vals[2],
                                        vals[3],
                                        vals[4],
                                        vals[5],
                                    );
                                    proof {
                                        assert(self.games@ =~= pre.games@.update(
                                            j as int,
                                            self.games@[j as int],
                                        ));
                                        if spec_wf_registry(pre.games@) {
                                            let g0 = pre.games@[j as int];
                                            let g1 = self.games@[j as int];
                                            crate::session::lemma_find_name_props(
                                                g0.players@,
                                                req.player@,
                                            );
                                            if spec_find_name(g0.players@, req.player@)
                                                == g0.players@.len() {
                                                assert(spec_wf_game(g1));
                                            } else {
                                                assert(g1.players@.len() == g0.players@.len());
                                                assert(spec_wf_game(g1));
                                            }
                                            lemma_wf_update(pre.games@, self.games@, j as int);
                                        }
                                    }
                                    None
                                } else {
                                    None
                                }
                            },
                            None => None,
                        }
                    },
                    None => None,
                }
            },
            NetActions::Getopponent => {
                match self.find_game(&req.game_id) {
                    Some(j) => {
                        match self.games[j].find_opponent(&req.player) {
                            Some(k) => {
                                let p = &self.games[j].players[k];
                                let dir_code = p.dir.to_code_milli();
                                let jump: i64 = if p.jumping {
                                    1000
                                } else {
                                    0
                                };
                                Some(
                                    emit_opponent(
                                        p.body.x,
                                        p.body.y,
                                        dir_code,
                                        jump,
                                        p.current_accel,
                                        p.animation_frame,
                                    ),
                                )
                            },
                            None => None,
                        }
                    },
                    None => None,
                }
            },
            NetActions::GetopponentName => {
                match self.find_game(&req.game_id) {
                    Some(j) => {
                        match self.games[j].find_opponent(&req.player) {
                            Some(k) => Some(self.games[j].players[k].name.clone()),
                            None => None,
                        }
                    },
                    None => None,
                }
            },
            _ => {
                Some(String::from_str("Invalid Command"))
            },
        }
    }
}

} // verus!
