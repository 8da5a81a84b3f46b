//! The reply bodies the server sends: session snapshots, the ready
//! aggregate, the opponent vector and the session listing, as canonical
//! JSON-shaped text.
//!
//! Every emitter has a reading companion that accepts exactly the emitted
//! canonical text, so what a client decodes is precisely some state's
//! snapshot.

use vstd::prelude::*;
use vstd::string::{StrSliceExecFns, StringExecFns};
use crate::direction::Direction;
use crate::player::{Player, Position};
use crate::session::NetworkedGame;
use crate::numfmt::{
    spec_fmt_milli,
    spec_idec,
    spec_udec,
    spec_milli_valid,
    spec_milli_val,
    fmt_milli,
    i64_to_string,
    u64_to_string,
    parse_milli,
    parse_digits,
    spec_dec_valid,
    spec_dec_val,
};
use crate::text::{spec_find, find_char};

verus! {

/// The JSON text of a boolean.
pub open spec fn spec_json_bool(b: bool) -> Seq<char> {
    if b {
        "true"@
    } else {
        "false"@
    }
}

/// Appends the JSON text of a boolean.
fn push_bool(s: &mut String, b: bool)
    ensures
        final(s)@ == old(s)@ + spec_json_bool(b),
{
    proof {
        reveal_strlit("true");
        reveal_strlit("false");
    }
    if b {
        s.append("true");
    } else {
        s.append("false");
    }
}

/// The JSON text of a direction: its four flags as an object.
pub open spec fn spec_emit_dir(d: Direction) -> Seq<char> {
    "{\"up\":"@ + spec_json_bool(d.up) + ",\"down\":"@ + spec_json_bool(d.down) + ",\"left\":"@
        + spec_json_bool(d.left) + ",\"right\":"@ + spec_json_bool(d.right) + "}"@
}

/// Appends the JSON text of a direction.
#[verifier::rlimit(50)]
fn push_dir(s: &mut String, d: Direction)
    ensures
        final(s)@ == old(s)@ + spec_emit_dir(d),
{
    s.append("{\"up\":");
    push_bool(s, d.up);
    s.append(",\"down\":");
    push_bool(s, d.down);
    s.append(",\"left\":");
    push_bool(s, d.left);
    s.append(",\"right\":");
    push_bool(s, d.right);
    s.append("}");
}

/// The JSON text of one player: body rectangle, both directions, identity,
/// stats and the transient simulation fields, in four runs.
pub open spec fn spec_emit_player(p: Player) -> Seq<char> {
    spec_player_body(p) + spec_player_mid(p) + spec_player_stats(p) + spec_player_tail(p)
}

/// The opening run of a player's JSON: the body rectangle up to the first
/// direction key.
#[verifier::opaque]
pub open spec fn spec_player_body(p: Player) -> Seq<char> {
    "{\"body\":{\"x\":"@ + spec_fmt_milli(p.body.x as int) + ",\"y\":"@ + spec_fmt_milli(
        p.body.y as int,
    ) + ",\"w\":"@ + spec_fmt_milli(p.body.w as int) + ",\"h\":"@ + spec_fmt_milli(p.body.h as int)
        + "},\"dir\":"@
}

/// The directions and name of a player's JSON, up to the first stat key.
#[verifier::opaque]
pub open spec fn spec_player_mid(p: Player) -> Seq<char> {
    spec_emit_dir(p.dir) + ",\"last_dir\":"@ + spec_emit_dir(p.last_dir) + ",\"name\":\""@
        + p.name@ + "\",\"hp\":"@
}

/// The stats of a player's JSON, up to the jumping key.
#[verifier::opaque]
pub open spec fn spec_player_stats(p: Player) -> Seq<char> {
    spec_idec(p.hp as int) + ",\"mp\":"@ + spec_idec(p.mp as int) + ",\"str\":"@ + spec_idec(
        p.str as int,
    ) + ",\"current_accel\":"@ + spec_fmt_milli(p.current_accel as int) + ",\"jumping\":"@
}

/// The closing run of a player's JSON: the jump state, ready flag and
/// animation frame.
#[verifier::opaque]
pub open spec fn spec_player_tail(p: Player) -> Seq<char> {
    spec_json_bool(p.jumping) + ",\"jump_offset\":"@ + spec_fmt_milli(p.jump_offset as int)
        + ",\"ready\":"@ + spec_json_bool(p.ready) + ",\"jump_direction\":"@ + spec_json_bool(
        p.jump_direction,
    ) + ",\"animation_frame\":"@ + spec_fmt_milli(p.animation_frame as int) + "}"@
}

/// Appends the opening run of a player's JSON.
#[verifier::rlimit(50)]
fn push_player_body(s: &mut String, p: &Player)
    ensures
        final(s)@ == old(s)@ + spec_player_body(*p),
{
    s.append("{\"body\":{\"x\":");
    s.append(fmt_milli(p.body.x).as_str());
    s.append(",\"y\":");
    s.append(fmt_milli(p.body.y).as_str());
    s.append(",\"w\":");
    s.append(fmt_milli(p.body.w).as_str());
    s.append(",\"h\":");
    s.append(fmt_milli(p.body.h).as_str());
    s.append("},\"dir\":");
    proof {
        reveal(crate::json::spec_player_body);
        assert(s@ =~= old(s)@ + spec_player_body(*p));
    }
}

/// Appends the directions and name of a player's JSON.
#[verifier::rlimit(50)]
fn push_player_mid(s: &mut String, p: &Player)
    ensures
        final(s)@ == old(s)@ + spec_player_mid(*p),
{
    push_dir(s, p.dir);
    s.append(",\"last_dir\":");
    push_dir(s, p.last_dir);
    s.append(",\"name\":\"");
    s.append(p.name.as_str());
    s.append("\",\"hp\":");
    proof {
        reveal(crate::json::spec_player_mid);
        assert(s@ =~= old(s)@ + spec_player_mid(*p));
    }
}

/// Appends the stats of a player's JSON.
#[verifier::rlimit(50)]
fn push_player_stats(s: &mut String, p: &Player)
    ensures
        final(s)@ == old(s)@ + spec_player_stats(*p),
{
    s.append(i64_to_string(p.hp).as_str());
    s.append(",\"mp\":");
    s.append(i64_to_string(p.mp).as_str());
    s.append(",\"str\":");
    s.append(i64_to_string(p.str).as_str());
    s.append(",\"current_accel\":");
    s.append(fmt_milli(p.current_accel).as_str());
    s.append(",\"jumping\":");
    proof {
        reveal(crate::json::spec_player_stats);
        assert(s@ =~= old(s)@ + spec_player_stats(*p));
    }
}

/// Appends the closing run of a player's JSON.
#[verifier::rlimit(50)]
fn push_player_tail(s: &mut String, p: &Player)
    ensures
        final(s)@ == old(s)@ + spec_player_tail(*p),
{
    push_bool(s, p.jumping);
    s.append(",\"jump_offset\":");
    s.append(fmt_milli(p.jump_offset).as_str());
    s.append(",\"ready\":");
    push_bool(s, p.ready);
    s.append(",\"jump_direction\":");
    push_bool(s, p.jump_direction);
    s.append(",\"animation_frame\":");
    s.append(fmt_milli(p.animation_frame).as_str());
    s.append("}");
    proof {
        reveal(crate::json::spec_player_tail);
        assert(s@ =~= old(s)@ + spec_player_tail(*p));
    }
}

/// Appends the JSON text of one player.
fn push_player(s: &mut String, p: &Player)
    ensures
        final(s)@ == old(s)@ + spec_emit_player(*p),
{
    push_player_body(s, p);
    push_player_mid(s, p);
    push_player_stats(s, p);
    push_player_tail(s, p);
    proof {
        assert(s@ =~= old(s)@ + spec_emit_player(*p));
    }
}

/// The JSON text of a player list: the players in join order, comma
/// separated.
pub open spec fn spec_emit_players(s: Seq<Player>) -> Seq<char>
    decreases s.len(),
{
    if s.len() == 0 {
        Seq::<char>::empty()
    } else if s.len() == 1 {
        spec_emit_player(s[0])
    } else {
        spec_emit_players(s.drop_last()) + ","@ + spec_emit_player(s.last())
    }
}

/// The JSON text of a whole session snapshot.
pub open spec fn spec_emit_game(g: NetworkedGame) -> Seq<char> {
    "{\"players\":["@ + spec_emit_players(g.players@) + "],\"session_id\":\""@ + g.session_id@
        + "\",\"started\":"@ + spec_json_bool(g.started) + ",\"completed\":"@ + spec_json_bool(
        g.completed,
    ) + "}"@
}

/// Prints a whole session snapshot, the reply to a world query or an
/// accepted join.
pub fn emit_game(g: &NetworkedGame) -> (s: String)
    ensures
        s@ == spec_emit_game(*g),
{
    let mut s = String::from_str("{\"players\":[");
    let n = g.players.len();
    let mut i: usize = 0;
    while i < n
        invariant
            0 <= i <= n,
            n == g.players@.len(),
            s@ == "{\"players\":["@ + spec_emit_players(g.players@.take(i as int)),
        decreases n - i,
    {
        if i > 0 {
            s.append(",");
        }
        push_player(&mut s, &g.players[i]);
        proof {
            assert(g.players@.take(i + 1).drop_last() =~= g.players@.take(i as int));
            assert(g.players@.take(i + 1).last() == g.players@[i as int]);
            if i == 0 {
                assert(g.players@.take(1)[0] == g.players@[0]);
            }
            reveal_strlit(",");
            assert(","@ =~= seq![',']);
            assert(s@ =~= "{\"players\":["@ + spec_emit_players(g.players@.take(i + 1)));
        }
        i += 1;
    }
    proof {
        assert(g.players@.take(n as int) =~= g.players@);
    }
    s.append("],\"session_id\":\"");
    s.append(g.session_id.as_str());
    s.append("\",\"started\":");
    push_bool(&mut s, g.started);
    s.append(",\"completed\":");
    push_bool(&mut s, g.completed);
    s.append("}");
    proof {
        assert(s@ =~= spec_emit_game(*g));
    }
    s
}

/// The JSON text of the ready aggregate reply.
pub open spec fn spec_emit_ready(b: bool) -> Seq<char> {
    "{\"ready\":"@ + spec_json_bool(b) + "}"@
}

/// Prints the ready aggregate reply.
pub fn emit_ready(b: bool) -> (s: String)
    ensures
        s@ == spec_emit_ready(b),
{
    let mut s = String::from_str("{\"ready\":");
    push_bool(&mut s, b);
    s.append("}");
    proof {
        assert(s@ =~= spec_emit_ready(b));
    }
    s
}

/// The JSON text of the opponent vector: position, direction code, jumping
/// flag, acceleration and animation frame, all in fixed-point notation.
pub open spec fn spec_emit_opponent(
    x: i64,
    y: i64,
    dir_code: i64,
    jumping: i64,
    accel: i64,
    frame: i64,
) -> Seq<char> {
    "{\"opponent\":["@ + spec_fmt_milli(x as int) + ","@ + spec_fmt_milli(y as int) + ","@
        + spec_fmt_milli(dir_code as int) + ","@ + spec_fmt_milli(jumping as int) + ","@
        + spec_fmt_milli(accel as int) + ","@ + spec_fmt_milli(frame as int) + "]}"@
}

/// Prints the opponent vector reply.
pub fn emit_opponent(x: i64, y: i64, dir_code: i64, jumping: i64, accel: i64, frame: i64) -> (s:
    String)
    ensures
        s@ == spec_emit_opponent(x, y, dir_code, jumping, accel, frame),
{
    proof {
        reveal_strlit(",");
        assert(","@ =~= seq![',']);
    }
    let mut s = String::from_str("{\"opponent\":[");
    s.append(fmt_milli(x).as_str());
    s.append(",");
    s.append(fmt_milli(y).as_str());
    s.append(",");
    s.append(fmt_milli(dir_code).as_str());
    s.append(",");
    s.append(fmt_milli(jumping).as_str());
    s.append(",");
    s.append(fmt_milli(accel).as_str());
    s.append(",");
    s.append(fmt_milli(frame).as_str());
    s.append("]}");
    proof {
        assert(s@ =~= spec_emit_opponent(x, y, dir_code, jumping, accel, frame));
    }
    s
}

/// The bracketed six-value payload of a position update: coordinates,
/// direction code, jumping flag, animation frame and last direction, in
/// fixed-point notation.
pub open spec fn spec_emit_position_meta(
    x: i64,
    y: i64,
    dir_code: i64,
    jumping_flag: i64,
    frame: i64,
    last_dir_code: i64,
) -> Seq<char> {
    "["@ + spec_fmt_milli(x as int) + ","@ + spec_fmt_milli(y as int) + ","@ + spec_fmt_milli(
        dir_code as int,
    ) + ","@ + spec_fmt_milli(jumping_flag as int) + ","@ + spec_fmt_milli(frame as int) + ","@
        + spec_fmt_milli(last_dir_code as int) + "]"@
}

/// Prints the payload of a position update.
pub fn emit_position_meta(
    x: i64,
    y: i64,
    dir_code: i64,
    jumping_flag: i64,
    frame: i64,
    last_dir_code: i64,
) -> (s: String)
    ensures
        s@ == spec_emit_position_meta(x, y, dir_code, jumping_flag, frame, last_dir_code),
{
    proof {
        reveal_strlit("[");
        reveal_strlit(",");
        reveal_strlit("]");
        assert("["@ =~= seq!['[']);
        assert(","@ =~= seq![',']);
        assert("]"@ =~= seq![']']);
    }
    let mut s = String::from_str("[");
    s.append(fmt_milli(x).as_str());
    s.append(",");
    s.append(fmt_milli(y).as_str());
    s.append(",");
    s.append(fmt_milli(dir_code).as_str());
    s.append(",");
    s.append(fmt_milli(jumping_flag).as_str());
    s.append(",");
    s.append(fmt_milli(frame).as_str());
    s.append(",");
    s.append(fmt_milli(last_dir_code).as_str());
    s.append("]");
    proof {
        assert(s@ =~= spec_emit_position_meta(x, y, dir_code, jumping_flag, frame, last_dir_code));
    }
    s
}

/// One entry of the session listing: the session id and its player count,
/// each quoted, as a bracketed pair.
pub open spec fn spec_list_pair(g: NetworkedGame) -> Seq<char> {
    "[\""@ + g.session_id@ + "\", \""@ + spec_udec(g.players@.len() as nat) + "\"]"@
}

/// The listing entries of the sessions still waiting for players, in
/// registry order: started sessions are hidden from discovery.
pub open spec fn spec_list_entries(s: Seq<NetworkedGame>) -> Seq<Seq<char>>
    decreases s.len(),
{
    if s.len() == 0 {
        Seq::<Seq<char>>::empty()
    } else {
        spec_list_entries(s.drop_last()) + if !s.last().started {
            seq![spec_list_pair(s.last())]
        } else {
            Seq::<Seq<char>>::empty()
        }
    }
}

/// Entries joined with a comma and a space.
pub open spec fn spec_join_entries(es: Seq<Seq<char>>) -> Seq<char>
    decreases es.len(),
{
    if es.len() == 0 {
        Seq::<char>::empty()
    } else if es.len() == 1 {
        es[0]
    } else {
        spec_join_entries(es.drop_last()) + ", "@ + es.last()
    }
}

/// The session listing reply: the waiting sessions' id and player count
/// pairs in one bracketed list.
pub open spec fn spec_emit_list(s: Seq<NetworkedGame>) -> Seq<char> {
    "["@ + spec_join_entries(spec_list_entries(s)) + "]"@
}

/// Prints the session listing reply.
pub fn emit_list(games: &Vec<NetworkedGame>) -> (s: String)
    ensures
        s@ == spec_emit_list(games@),
{
    let mut s = String::from_str("[");
    let mut count: usize = 0;
    let n = games.len();
    let mut i: usize = 0;
    while i < n
        invariant
            0 <= i <= n,
            n == games@.len(),
            count <= i,
            count as int == spec_list_entries(games@.take(i as int)).len(),
            s@ == "["@ + spec_join_entries(spec_list_entries(games@.take(i as int))),
        decreases n - i,
    {
        proof {
            assert(games@.take(i + 1).drop_last() =~= games@.take(i as int));
            assert(games@.take(i + 1).last() == games@[i as int]);
        }
        if !games[i].started {
            if count > 0 {
                s.append(", ");
            }
            s.append("[\"");
            s.append(games[i].session_id.as_str());
            s.append("\", \"");
            s.append(u64_to_string(games[i].players.len() as u64).as_str());
            s.append("\"]");
            count += 1;
            proof {
                let es = spec_list_entries(games@.take(i as int));
                let es2 = spec_list_entries(games@.take(i + 1));
                assert(es2 =~= es.push(spec_list_pair(games@[i as int])));
                assert(es2.drop_last() =~= es);
                assert(spec_list_pair(games@[i as int]) =~= "[\""@ + games@[
                    i as int
                ].session_id@ + "\", \""@ + spec_udec(games@[i as int].players@.len() as nat)
                    + "\"]"@);
                assert(s@ =~= "["@ + spec_join_entries(es2));
            }
        } else {
            proof {
                assert(spec_list_entries(games@.take(i + 1)) =~= spec_list_entries(
                    games@.take(i as int),
                ));
            }
        }
        i += 1;
    }
    proof {
        assert(games@.take(n as int) =~= games@);
    }
    s.append("]");
    proof {
        assert(s@ =~= spec_emit_list(games@));
    }
    s
}

/// The numbers of a comma-separated run of fixed-point texts, or nothing
/// when any segment is malformed (an empty run is malformed).
pub open spec fn spec_parse_segments(s: Seq<char>) -> Option<Seq<int>>
    decreases s.len(),
{
    let c = spec_find(s, ',');
    if c == s.len() {
        if spec_milli_valid(s) {
            Some(seq![spec_milli_val(s)])
        } else {
            None
        }
    } else if !(0 <= c < s.len()) {
        // never reached: a first-occurrence index is always in range
        None
    } else {
        match spec_parse_segments(s.skip(c + 1)) {
            None => None,
            Some(rest) => if spec_milli_valid(s.take(c)) {
                Some(seq![spec_milli_val(s.take(c))] + rest)
            } else {
                None
            },
        }
    }
}

/// The numbers of a bracketed JSON array of fixed-point texts, such as a
/// position-update payload, or nothing when the text is not such an array.
pub open spec fn spec_parse_milli_array(s: Seq<char>) -> Option<Seq<int>> {
    if s.len() >= 2 && s[0] == '[' && s.last() == ']' {
        spec_parse_segments(s.subrange(1, s.len() - 1))
    } else {
        None
    }
}

/// Reads the comma-separated run of fixed-point texts that starts at `from`.
fn parse_segments(s: &str, from: usize) -> (r: Option<Vec<i64>>)
    requires
        from <= s@.len(),
    ensures
        r is Some <==> spec_parse_segments(s@.skip(from as int)) is Some,
        r is Some ==> r->0@.map_values(|v: i64| v as int) == spec_parse_segments(
            s@.skip(from as int),
        )->0,
    decreases s@.len() - from,
{
    let t = s.unicode_len();
    let c = find_char(s, from, ',');
    let ghost suffix = s@.skip(from as int);
    if c == t {
        let seg = s.substring_char(from, t);
        proof {
            assert(seg@ =~= suffix);
        }
        match parse_milli(seg) {
            Some(v) => {
                let mut out = Vec::new();
                out.push(v);
                proof {
                    assert(out@.map_values(|w: i64| w as int) =~= seq![v as int]);
                }
                Some(out)
            },
            None => None,
        }
    } else {
        let seg = s.substring_char(from, c);
        proof {
            assert(seg@ =~= suffix.take(c - from));
            assert(s@.skip(c + 1) =~= suffix.skip(c - from + 1));
        }
        let head = match parse_milli(seg) {
            Some(v) => v,
            None => {
                return None;
            },
        };
        match parse_segments(s, c + 1) {
            Some(rest) => {
                let mut out = Vec::new();
                out.push(head);
                let mut k: usize = 0;
                let n = rest.len();
                while k < n
                    invariant
                        0 <= k <= n,
                        n == rest@.len(),
                        out@ =~= seq![head] + rest@.take(k as int),
                    decreases n - k,
                {
                    out.push(rest[k]);
                    proof {
                        assert(rest@.take(k + 1) =~= rest@.take(k as int).push(rest@[k as int]));
                    }
                    k += 1;
                }
                proof {
                    assert(rest@.take(n as int) =~= rest@);
                    assert(out@.map_values(|w: i64| w as int) =~= seq![head as int]
                        + rest@.map_values(|w: i64| w as int));
                }
                Some(out)
            },
            None => None,
        }
    }
}

/// Reads a bracketed JSON array of fixed-point numbers, the payload of a
/// position update.
pub fn parse_milli_array(s: &str) -> (r: Option<Vec<i64>>)
    ensures
        r is Some <==> spec_parse_milli_array(s@) is Some,
        r is Some ==> r->0@.map_values(|v: i64| v as int) == spec_parse_milli_array(s@)->0,
{
    let n = s.unicode_len();
    if n < 2 {
        return None;
    }
    if !(s.get_char(0) == '[') || !(s.get_char(n - 1) == ']') {
        return None;
    }
    parse_segments_window(s, n)
}

/// Reads the run between the brackets: positions `1..n-1` of `s`.
fn parse_segments_window(s: &str, n: usize) -> (r: Option<Vec<i64>>)
    requires
        n == s@.len(),
        n >= 2,
    ensures
        r is Some <==> spec_parse_segments(s@.subrange(1, s@.len() - 1)) is Some,
        r is Some ==> r->0@.map_values(|v: i64| v as int) == spec_parse_segments(
            s@.subrange(1, s@.len() - 1),
        )->0,
{
    let inner = s.substring_char(1, n - 1);
    proof {
        assert(inner@ =~= s@.subrange(1, s@.len() - 1));
        assert(inner@.skip(0) =~= inner@);
    }
    parse_segments(inner, 0)
}

/// Reads a ready-aggregate reply: accepts exactly the two texts the server
/// emits.
pub fn parse_ready(s: &str) -> (r: Option<bool>)
    ensures
        r is Some <==> (s@ == spec_emit_ready(true) || s@ == spec_emit_ready(false)),
        r is Some ==> s@ == spec_emit_ready(r->0),
{
    proof {
        reveal_strlit("{\"ready\":");
        reveal_strlit("true");
        reveal_strlit("false");
        reveal_strlit("}");
        reveal_strlit("{\"ready\":true}");
        reveal_strlit("{\"ready\":false}");
        assert("{\"ready\":true}"@ =~= spec_emit_ready(true));
        assert("{\"ready\":false}"@ =~= spec_emit_ready(false));
    }
    let owned = String::from_str(s);
    if owned == String::from_str("{\"ready\":true}") {
        Some(true)
    } else if owned == String::from_str("{\"ready\":false}") {
        Some(false)
    } else {
        None
    }
}

/// Reads an opponent-vector reply: the braced key, then a bracketed run of
/// fixed-point numbers.
pub open spec fn spec_parse_opponent(s: Seq<char>) -> Option<Seq<int>> {
    if s.len() >= 13 && s.subrange(0, 12) == "{\"opponent\":"@ && s.last() == '}' {
        spec_parse_milli_array(s.subrange(12, s.len() - 1))
    } else {
        None
    }
}

/// Reads an opponent-vector reply into its numbers.
pub fn parse_opponent(s: &str) -> (r: Option<Vec<i64>>)
    ensures
        r is Some <==> spec_parse_opponent(s@) is Some,
        r is Some ==> r->0@.map_values(|v: i64| v as int) == spec_parse_opponent(s@)->0,
{
    proof {
        reveal_strlit("{\"opponent\":");
        assert("{\"opponent\":"@.len() == 12);
    }
    let n = s.unicode_len();
    if n < 13 {
        return None;
    }
    let head = s.substring_char(0, 12);
    if !(String::from_str(head) == String::from_str("{\"opponent\":")) {
        proof {
            assert(head@ =~= s@.subrange(0, 12));
        }
        return None;
    }
    if !(s.get_char(n - 1) == '}') {
        return None;
    }
    let body = s.substring_char(12, n - 1);
    proof {
        assert(head@ =~= s@.subrange(0, 12));
        assert(body@ =~= s@.subrange(12, s@.len() - 1));
    }
    parse_milli_array(body)
}

/// Whether the text `t` stands in `s` beginning at position `i`.
pub open spec fn spec_text_at(s: Seq<char>, i: int, t: Seq<char>) -> bool {
    0 <= i && i + t.len() <= s.len() && s.subrange(i, i + t.len()) == t
}

/// Splitting a text known to stand at `i` into its two halves.
pub proof fn lemma_text_at_concat(s: Seq<char>, i: int, a: Seq<char>, b: Seq<char>)
    requires
        spec_text_at(s, i, a + b),
    ensures
        spec_text_at(s, i, a),
        spec_text_at(s, i + a.len(), b),
{
    let ab = a + b;
    assert forall|q: int| 0 <= q < a.len() implies s.subrange(i, i + a.len())[q] == a[q] by {
        assert(s.subrange(i, i + ab.len())[q] == ab[q]);
    }
    assert(s.subrange(i, i + a.len()) =~= a);
    assert forall|q: int| 0 <= q < b.len() implies s.subrange(
        i + a.len(),
        i + a.len() + b.len(),
    )[q] == b[q] by {
        assert(s.subrange(i, i + ab.len())[a.len() + q] == ab[a.len() + q]);
    }
    assert(s.subrange(i + a.len(), i + a.len() + b.len()) =~= b);
}

/// One character of a text known to stand at `i`.
pub proof fn lemma_text_at_char(s: Seq<char>, i: int, t: Seq<char>, k: int)
    requires
        spec_text_at(s, i, t),
        0 <= k < t.len(),
    ensures
        s[i + k] == t[k],
{
    assert(s.subrange(i, i + t.len())[k] == t[k]);
}

/// The open numeric range the wire can carry: eighteen digits, signed.
pub open spec fn spec_wire_num(v: int) -> bool {
    -1_000_000_000_000_000_000 < v < 1_000_000_000_000_000_000
}

/// The shape of a whole number on the wire: an optional minus sign and one
/// to eighteen digits.
pub open spec fn spec_int_valid(t: Seq<char>) -> bool {
    if t.len() > 0 && t[0] == '-' {
        spec_dec_valid(t.skip(1), 18)
    } else {
        spec_dec_valid(t, 18)
    }
}

/// The value a well-shaped whole-number text denotes.
pub open spec fn spec_int_val(t: Seq<char>) -> int {
    if t.len() > 0 && t[0] == '-' {
        -(spec_dec_val(t.skip(1)) as int)
    } else {
        spec_dec_val(t) as int
    }
}

/// A printed whole number reads back to itself, and consists of digits with
/// at most a leading minus sign.
proof fn lemma_idec_round_trip(v: int)
    requires
        spec_wire_num(v),
    ensures
        spec_int_valid(spec_idec(v)),
        spec_int_val(spec_idec(v)) == v,
        forall|i: int|
            0 <= i < spec_idec(v).len() ==> (crate::numfmt::spec_is_digit(spec_idec(v)[i])
                || spec_idec(v)[i] == '-'),
{
    let a = (if v < 0 {
        -v
    } else {
        v
    }) as nat;
    crate::numfmt::lemma_udec_digits(a);
    crate::numfmt::lemma_udec_val(a);
    crate::numfmt::lemma_pow10_concrete();
    crate::numfmt::lemma_udec_len(a, 18);
    let t = spec_idec(v);
    if v < 0 {
        assert(t == seq!['-'] + spec_udec(a));
        assert(t[0] == '-');
        assert(t.skip(1) =~= spec_udec(a));
        assert forall|i: int|
            0 <= i < t.len() implies (crate::numfmt::spec_is_digit(t[i]) || t[i] == '-') by {
            if i > 0 {
                assert(t[i] == spec_udec(a)[i - 1]);
            }
        }
    } else {
        assert(crate::numfmt::spec_is_digit(t[0]));
        assert(t[0] != '-');
    }
}

/// Every character of a fixed-point print is a digit, a minus sign or a dot.
proof fn lemma_fmt_milli_chars(v: int)
    ensures
        forall|i: int|
            0 <= i < spec_fmt_milli(v).len() ==> (crate::numfmt::spec_is_digit(
                spec_fmt_milli(v)[i],
            ) || spec_fmt_milli(v)[i] == '-' || spec_fmt_milli(v)[i] == '.'),
{
    let a = if v < 0 {
        -v
    } else {
        v
    };
    let ip = crate::numfmt::spec_udec((a / 1000) as nat);
    let fp = crate::numfmt::spec_frac(a % 1000);
    crate::numfmt::lemma_udec_digits((a / 1000) as nat);
    crate::numfmt::lemma_frac_val(a % 1000);
    let mag = crate::numfmt::spec_fmt_milli_mag(a);
    assert forall|i: int|
        0 <= i < mag.len() implies (crate::numfmt::spec_is_digit(mag[i]) || mag[i] == '-'
            || mag[i] == '.') by {
        if i < ip.len() {
            assert(mag[i] == ip[i]);
            assert(crate::numfmt::spec_is_digit(ip[i]));
        } else if i == ip.len() {
            assert(mag[i] == '.');
        } else {
            assert(mag[i] == fp[i - ip.len() - 1]);
            assert(crate::numfmt::spec_is_digit(fp[i - ip.len() - 1]));
        }
    }
    if v < 0 {
        assert forall|i: int|
            0 <= i < spec_fmt_milli(v).len() implies (crate::numfmt::spec_is_digit(
                spec_fmt_milli(v)[i],
            ) || spec_fmt_milli(v)[i] == '-' || spec_fmt_milli(v)[i] == '.') by {
            if i > 0 {
                assert(spec_fmt_milli(v)[i] == mag[i - 1]);
            }
        }
    }
}

/// Advances past `lit` exactly when the text at `i` is `lit`.
fn expect_lit(s: &str, i: usize, lit: &str) -> (r: Option<usize>)
    ensures
        r is Some <==> spec_text_at(s@, i as int, lit@),
        r is Some ==> r->0 == i + lit@.len(),
{
    let n = s.unicode_len();
    let ll = lit.unicode_len();
    let r: Option<usize>;
    if i > n || ll > n - i {
        r = None;
    } else {
        let seg = s.substring_char(i, i + ll);
        proof {
            assert(seg@ =~= s@.subrange(i as int, i + lit@.len()));
        }
        if String::from_str(seg) == String::from_str(lit) {
            r = Some(i + ll);
        } else {
            r = None;
        }
    }
    r
}

/// Reads a JSON boolean at `i`.
fn scan_bool(s: &str, i: usize) -> (r: Option<(bool, usize)>)
    ensures
        r is Some ==> ({
            let t = r->0;
            i < t.1 <= s@.len()
        }),
        spec_text_at(s@, i as int, "true"@) ==> r is Some && ({
            let t = r->0;
            t.0 == true && t.1 == i + 4
        }),
        spec_text_at(s@, i as int, "false"@) ==> r is Some && ({
            let t = r->0;
            t.0 == false && t.1 == i + 5
        }),
{
    proof {
        reveal_strlit("true");
        reveal_strlit("false");
        if spec_text_at(s@, i as int, "true"@) {
            lemma_text_at_char(s@, i as int, "true"@, 0);
        }
        if spec_text_at(s@, i as int, "false"@) {
            lemma_text_at_char(s@, i as int, "false"@, 0);
        }
    }
    match expect_lit(s, i, "true") {
        Some(j) => Some((true, j)),
        None => match expect_lit(s, i, "false") {
            Some(j) => Some((false, j)),
            None => None,
        },
    }
}

/// Reads a fixed-point number from `i` up to the next `stop` character.
fn scan_milli_until(s: &str, i: usize, stop: char) -> (r: Option<(i64, usize)>)
    ensures
        r is Some ==> ({
            let t = r->0;
            i <= t.1 < s@.len()
        }),
        forall|v: i64|
            (spec_wire_num(v as int) && (stop == ',' || stop == '}') && #[trigger] spec_text_at(
                s@,
                i as int,
                spec_fmt_milli(v as int),
            ) && i + spec_fmt_milli(v as int).len() < s@.len() && s@[i + spec_fmt_milli(
                v as int,
            ).len()] == stop) ==> r is Some && ({
                let t = r->0;
                t.0 == v && t.1 == i + spec_fmt_milli(v as int).len()
            }),
{
    let n = s.unicode_len();
    let r: Option<(i64, usize)>;
    if i > n {
        r = None;
    } else {
        let k = find_char(s, i, stop);
        if k == n {
            r = None;
        } else {
            let seg = s.substring_char(i, k);
            proof {
                assert(seg@ =~= s@.subrange(i as int, k as int));
            }
            match parse_milli(seg) {
                Some(v) => {
                    r = Some((v, k));
                },
                None => {
                    r = None;
                },
            }
        }
    }
    proof {
        assert forall|v: i64|
            (spec_wire_num(v as int) && (stop == ',' || stop == '}') && #[trigger] spec_text_at(
                s@,
                i as int,
                spec_fmt_milli(v as int),
            ) && i + spec_fmt_milli(v as int).len() < s@.len() && s@[i + spec_fmt_milli(
                v as int,
            ).len()] == stop) implies r is Some && ({
            let t = r->0;
            t.0 == v && t.1 == i + spec_fmt_milli(v as int).len()
        }) by {
            let f = spec_fmt_milli(v as int);
            crate::numfmt::lemma_milli_round_trip(v as int);
            lemma_fmt_milli_chars(v as int);
            let u = s@.skip(i as int);
            assert forall|q: int| 0 <= q < f.len() implies u[q] != stop by {
                lemma_text_at_char(s@, i as int, f, q);
                assert(u[q] == s@[i + q]);
            }
            assert(u[f.len() as int] == s@[i + f.len()]);
            crate::text::lemma_find_unique(u, stop, f.len() as int);
            assert(s@.subrange(i as int, i + f.len()) == f);
        }
    }
    r
}

/// Reads a plain whole number: an optional minus sign and digits.
fn parse_plain_i64(t: &str) -> (r: Option<i64>)
    ensures
        r is Some <==> spec_int_valid(t@),
        r is Some ==> r->0 as int == spec_int_val(t@),
{
    let n = t.unicode_len();
    let r: Option<i64>;
    if n >= 1 && t.get_char(0) == '-' {
        let rest = t.substring_char(1, n);
        proof {
            assert(rest@ =~= t@.skip(1));
        }
        match parse_digits(rest, 18) {
            Some(v) => {
                proof {
                    crate::numfmt::lemma_dec_val_bound(rest@);
                    crate::numfmt::lemma_pow10_mono(rest@.len() as nat, 18);
                    crate::numfmt::lemma_pow10_concrete();
                }
                r = Some(0i64 - (v as i64));
            },
            None => {
                r = None;
            },
        }
    } else {
        match parse_digits(t, 18) {
            Some(v) => {
                proof {
                    crate::numfmt::lemma_dec_val_bound(t@);
                    crate::numfmt::lemma_pow10_mono(t@.len() as nat, 18);
                    crate::numfmt::lemma_pow10_concrete();
                }
                r = Some(v as i64);
            },
            None => {
                r = None;
            },
        }
    }
    r
}

/// Reads a whole number from `i` up to the next `stop` character.
fn scan_int_until(s: &str, i: usize, stop: char) -> (r: Option<(i64, usize)>)
    ensures
        r is Some ==> ({
            let t = r->0;
            i <= t.1 < s@.len()
        }),
        forall|v: i64|
            (spec_wire_num(v as int) && stop == ',' && #[trigger] spec_text_at(
                s@,
                i as int,
                spec_idec(v as int),
            ) && i + spec_idec(v as int).len() < s@.len() && s@[i + spec_idec(v as int).len()]
                == stop) ==> r is Some && ({
                let t = r->0;
                t.0 == v && t.1 == i + spec_idec(v as int).len()
            }),
{
    let n = s.unicode_len();
    let r: Option<(i64, usize)>;
    if i > n {
        r = None;
    } else {
        let k = find_char(s, i, stop);
        if k == n {
            r = None;
        } else {
            let seg = s.substring_char(i, k);
            proof {
                assert(seg@ =~= s@.subrange(i as int, k as int));
            }
            match parse_plain_i64(seg) {
                Some(v) => {
                    r = Some((v, k));
                },
                None => {
                    r = None;
                },
            }
        }
    }
    proof {
        assert forall|v: i64|
            (spec_wire_num(v as int) && stop == ',' && #[trigger] spec_text_at(
                s@,
                i as int,
                spec_idec(v as int),
            ) && i + spec_idec(v as int).len() < s@.len() && s@[i + spec_idec(v as int).len()]
                == stop) implies r is Some && ({
            let t = r->0;
            t.0 == v && t.1 == i + spec_idec(v as int).len()
        }) by {
            let f = spec_idec(v as int);
            lemma_idec_round_trip(v as int);
            let u = s@.skip(i as int);
            assert forall|q: int| 0 <= q < f.len() implies u[q] != stop by {
                lemma_text_at_char(s@, i as int, f, q);
                assert(u[q] == s@[i + q]);
            }
            assert(u[f.len() as int] == s@[i + f.len()]);
            crate::text::lemma_find_unique(u, stop, f.len() as int);
            assert(s@.subrange(i as int, i + f.len()) == f);
        }
    }
    r
}

/// Reads the characters up to the next quote.
fn scan_name(s: &str, i: usize) -> (r: Option<(String, usize)>)
    ensures
        r is Some ==> ({
            let t = r->0;
            i <= t.1 < s@.len()
        }),
        forall|nm: Seq<char>|
            ((forall|j: int| 0 <= j < nm.len() ==> nm[j] != '"') && #[trigger] spec_text_at(
                s@,
                i as int,
                nm,
            ) && i + nm.len() < s@.len() && s@[i + nm.len()] == '"') ==> r is Some && ({
                let t = r->0;
                t.0@ == nm && t.1 == i + nm.len()
            }),
{
    let n = s.unicode_len();
    let r: Option<(String, usize)>;
    if i > n {
        r = None;
    } else {
        let q = find_char(s, i, '"');
        if q == n {
            r = None;
        } else {
            let seg = s.substring_char(i, q);
            proof {
                assert(seg@ =~= s@.subrange(i as int, q as int));
            }
            r = Some((String::from_str(seg), q));
        }
    }
    proof {
        assert forall|nm: Seq<char>|
            ((forall|j: int| 0 <= j < nm.len() ==> nm[j] != '"') && #[trigger] spec_text_at(
                s@,
                i as int,
                nm,
            ) && i + nm.len() < s@.len() && s@[i + nm.len()] == '"') implies r is Some && ({
            let t = r->0;
            t.0@ == nm && t.1 == i + nm.len()
        }) by {
            let u = s@.skip(i as int);
            assert forall|q2: int| 0 <= q2 < nm.len() implies u[q2] != '"' by {
                lemma_text_at_char(s@, i as int, nm, q2);
                assert(u[q2] == s@[i + q2]);
            }
            assert(u[nm.len() as int] == s@[i + nm.len()]);
            crate::text::lemma_find_unique(u, '"', nm.len() as int);
            assert(s@.subrange(i as int, i + nm.len()) == nm);
        }
    }
    r
}

/// Runs `expect_lit` at a threaded cursor.
fn step_lit(s: &str, cur: Option<usize>, lit: &str) -> (r: Option<usize>)
    ensures
        r is Some <==> cur is Some && spec_text_at(s@, cur->0 as int, lit@),
        r is Some ==> r->0 == cur->0 + lit@.len(),
{
    match cur {
        Some(i) => expect_lit(s, i, lit),
        None => None,
    }
}

/// Runs `scan_bool` at a threaded cursor.
fn step_bool(s: &str, cur: Option<usize>) -> (r: Option<(bool, usize)>)
    ensures
        r is Some ==> cur is Some && ({
            let t = r->0;
            cur->0 < t.1 <= s@.len()
        }),
        cur is Some && spec_text_at(s@, cur->0 as int, "true"@) ==> r is Some && ({
            let t = r->0;
            t.0 == true && t.1 == cur->0 + 4
        }),
        cur is Some && spec_text_at(s@, cur->0 as int, "false"@) ==> r is Some && ({
            let t = r->0;
            t.0 == false && t.1 == cur->0 + 5
        }),
{
    match cur {
        Some(i) => scan_bool(s, i),
        None => None,
    }
}

/// Runs `scan_milli_until` at a threaded cursor.
fn step_milli(s: &str, cur: Option<usize>, stop: char) -> (r: Option<(i64, usize)>)
    ensures
        r is Some ==> cur is Some && ({
            let t = r->0;
            cur->0 <= t.1 < s@.len()
        }),
        forall|v: i64|
            (cur is Some && spec_wire_num(v as int) && (stop == ',' || stop == '}')
                && #[trigger] spec_text_at(s@, cur->0 as int, spec_fmt_milli(v as int)) && cur->0
                + spec_fmt_milli(v as int).len() < s@.len() && s@[cur->0 + spec_fmt_milli(
                v as int,
            ).len()] == stop) ==> r is Some && ({
                let t = r->0;
                t.0 == v && t.1 == cur->0 + spec_fmt_milli(v as int).len()
            }),
{
    match cur {
        Some(i) => scan_milli_until(s, i, stop),
        None => None,
    }
}

/// Runs `scan_int_until` at a threaded cursor.
fn step_int(s: &str, cur: Option<usize>, stop: char) -> (r: Option<(i64, usize)>)
    ensures
        r is Some ==> cur is Some && ({
            let t = r->0;
            cur->0 <= t.1 < s@.len()
        }),
        forall|v: i64|
            (cur is Some && spec_wire_num(v as int) && stop == ',' && #[trigger] spec_text_at(
                s@,
                cur->0 as int,
                spec_idec(v as int),
            ) && cur->0 + spec_idec(v as int).len() < s@.len() && s@[cur->0 + spec_idec(
                v as int,
            ).len()] == stop) ==> r is Some && ({
                let t = r->0;
                t.0 == v && t.1 == cur->0 + spec_idec(v as int).len()
            }),
{
    match cur {
        Some(i) => scan_int_until(s, i, stop),
        None => None,
    }
}

/// Splits a scanned value from the cursor it leaves behind; a failed scan
/// yields the fallback value and no cursor.
fn split_step<T: Copy>(m: Option<(T, usize)>, fallback: T) -> (r: (T, Option<usize>))
    ensures
        r.1 is Some <==> m is Some,
        m is Some ==> ({
            let t = m->0;
            r.0 == t.0 && r.1->0 == t.1
        }),
{
    match m {
        Some((v, j)) => (v, Some(j)),
        None => (fallback, None),
    }
}
/// Reads a direction object at a threaded cursor.
#[verifier::spinoff_prover]
#[verifier::rlimit(100)]
fn scan_dir(s: &str, cur0: Option<usize>) -> (r: Option<(Direction, usize)>)
    ensures
        r is Some ==> cur0 is Some && ({
            let t = r->0;
            cur0->0 < t.1 <= s@.len()
        }),
        forall|d: Direction|
            (cur0 is Some && #[trigger] spec_text_at(s@, cur0->0 as int, spec_emit_dir(d)))
                ==> r is Some && ({
                let t = r->0;
                t.0 == d && t.1 == cur0->0 + spec_emit_dir(d).len()
            }),
{
    let c1 = step_lit(s, cur0, "{\"up\":");
    let (up, c2) = split_step(step_bool(s, c1), false);
    let c3 = step_lit(s, c2, ",\"down\":");
    let (down, c4) = split_step(step_bool(s, c3), false);
    let c5 = step_lit(s, c4, ",\"left\":");
    let (left, c6) = split_step(step_bool(s, c5), false);
    let c7 = step_lit(s, c6, ",\"right\":");
    let (right, c8) = split_step(step_bool(s, c7), false);
    let c9 = step_lit(s, c8, "}");
    let r: Option<(Direction, usize)> = match c9 {
        Some(j) => Some((Direction { up, down, left, right }, j)),
        None => None,
    };
    proof {
        assert forall|d: Direction|
            (cur0 is Some && #[trigger] spec_text_at(s@, cur0->0 as int, spec_emit_dir(d)))
                implies r is Some && ({
            let t = r->0;
            t.0 == d && t.1 == cur0->0 + spec_emit_dir(d).len()
        }) by {
            reveal_strlit("{\"up\":");
            reveal_strlit(",\"down\":");
            reveal_strlit(",\"left\":");
            reveal_strlit(",\"right\":");
            reveal_strlit("}");
            reveal_strlit("true");
            reveal_strlit("false");
            let i = cur0->0 as int;
            let b1 = spec_json_bool(d.up);
            let b2 = spec_json_bool(d.down);
            let b3 = spec_json_bool(d.left);
            let b4 = spec_json_bool(d.right);
            let r1 = b1 + (",\"down\":"@ + (b2 + (",\"left\":"@ + (b3 + (",\"right\":"@ + (b4
                + "}"@))))));
            assert(spec_emit_dir(d) =~= "{\"up\":"@ + r1);
            lemma_text_at_concat(s@, i, "{\"up\":"@, r1);
            let o1 = i + "{\"up\":"@.len();
            lemma_text_at_concat(s@, o1, b1, ",\"down\":"@ + (b2 + (",\"left\":"@ + (b3 + (
            ",\"right\":"@ + (b4 + "}"@))))));
            let o2 = o1 + b1.len();
            lemma_text_at_concat(s@, o2, ",\"down\":"@, b2 + (",\"left\":"@ + (b3 + (",\"right\":"@
                + (b4 + "}"@)))));
            let o3 = o2 + ",\"down\":"@.len();
            lemma_text_at_concat(s@, o3, b2, ",\"left\":"@ + (b3 + (",\"right\":"@ + (b4 + "}"@))));
            let o4 = o3 + b2.len();
            lemma_text_at_concat(s@, o4, ",\"left\":"@, b3 + (",\"right\":"@ + (b4 + "}"@)));
            let o5 = o4 + ",\"left\":"@.len();
            lemma_text_at_concat(s@, o5, b3, ",\"right\":"@ + (b4 + "}"@));
            let o6 = o5 + b3.len();
            lemma_text_at_concat(s@, o6, ",\"right\":"@, b4 + "}"@);
            let o7 = o6 + ",\"right\":"@.len();
            lemma_text_at_concat(s@, o7, b4, "}"@);
        }
    }
    r
}

/// Runs `scan_dir` at a threaded cursor (it already threads; this name keeps
/// call sites uniform).
fn step_dir(s: &str, cur: Option<usize>) -> (r: Option<(Direction, usize)>)
    ensures
        r is Some ==> cur is Some && ({
            let t = r->0;
            cur->0 < t.1 <= s@.len()
        }),
        forall|d: Direction|
            (cur is Some && #[trigger] spec_text_at(s@, cur->0 as int, spec_emit_dir(d))) ==> r
                is Some && ({
                let t = r->0;
                t.0 == d && t.1 == cur->0 + spec_emit_dir(d).len()
            }),
{
    scan_dir(s, cur)
}

/// What re-reading a player's snapshot needs: a quote-free name and numbers
/// inside the range the wire can carry.
pub open spec fn spec_player_printable(p: Player) -> bool {
    &&& (forall|j: int| 0 <= j < p.name@.len() ==> p.name@[j] != '"')
    &&& spec_wire_num(p.body.x as int)
    &&& spec_wire_num(p.body.y as int)
    &&& spec_wire_num(p.body.w as int)
    &&& spec_wire_num(p.body.h as int)
    &&& spec_wire_num(p.hp as int)
    &&& spec_wire_num(p.mp as int)
    &&& spec_wire_num(p.str as int)
    &&& spec_wire_num(p.current_accel as int)
    &&& spec_wire_num(p.jump_offset as int)
    &&& spec_wire_num(p.animation_frame as int)
}

/// Where each piece of a player's body run stands, given the run itself
/// stands at `i`.
#[verifier::spinoff_prover]
#[verifier::rlimit(100)]
proof fn lemma_player_body_positions(s: Seq<char>, i: int, p: Player)
    requires
        spec_text_at(s, i, spec_player_body(p)),
    ensures
        ({
            let f1 = spec_fmt_milli(p.body.x as int);
            let f2 = spec_fmt_milli(p.body.y as int);
            let f3 = spec_fmt_milli(p.body.w as int);
            let f4 = spec_fmt_milli(p.body.h as int);
            let o1 = i + "{\"body\":{\"x\":"@.len();
            let o2 = o1 + f1.len();
            let o3 = o2 + ",\"y\":"@.len();
            let o4 = o3 + f2.len();
            let o5 = o4 + ",\"w\":"@.len();
            let o6 = o5 + f3.len();
            let o7 = o6 + ",\"h\":"@.len();
            let o8 = o7 + f4.len();
            &&& spec_text_at(s, i, "{\"body\":{\"x\":"@)
            &&& spec_text_at(s, o1, f1)
            &&& o2 < s.len() && s[o2] == ','
            &&& spec_text_at(s, o2, ",\"y\":"@)
            &&& spec_text_at(s, o3, f2)
            &&& o4 < s.len() && s[o4] == ','
            &&& spec_text_at(s, o4, ",\"w\":"@)
            &&& spec_text_at(s, o5, f3)
            &&& o6 < s.len() && s[o6] == ','
            &&& spec_text_at(s, o6, ",\"h\":"@)
            &&& spec_text_at(s, o7, f4)
            &&& o8 < s.len() && s[o8] == '}'
            &&& spec_text_at(s, o8, "},\"dir\":"@)
            &&& o8 + "},\"dir\":"@.len() == i + spec_player_body(p).len()
        }),
{
    reveal(crate::json::spec_player_body);
    reveal_strlit("{\"body\":{\"x\":");
    reveal_strlit(",\"y\":");
    reveal_strlit(",\"w\":");
    reveal_strlit(",\"h\":");
    reveal_strlit("},\"dir\":");
    let f1 = spec_fmt_milli(p.body.x as int);
    let f2 = spec_fmt_milli(p.body.y as int);
    let f3 = spec_fmt_milli(p.body.w as int);
    let f4 = spec_fmt_milli(p.body.h as int);
    let r1 = f1 + (",\"y\":"@ + (f2 + (",\"w\":"@ + (f3 + (",\"h\":"@ + (f4 + "},\"dir\":"@))))));
    assert(spec_player_body(p) =~= "{\"body\":{\"x\":"@ + r1);
    lemma_text_at_concat(s, i, "{\"body\":{\"x\":"@, r1);
    let o1 = i + "{\"body\":{\"x\":"@.len();
    lemma_text_at_concat(s, o1, f1, ",\"y\":"@ + (f2 + (",\"w\":"@ + (f3 + (",\"h\":"@ + (f4
        + "},\"dir\":"@))))));
    let o2 = o1 + f1.len();
    lemma_text_at_char(s, o2, ",\"y\":"@ + (f2 + (",\"w\":"@ + (f3 + (",\"h\":"@ + (f4
        + "},\"dir\":"@))))), 0);
    lemma_text_at_concat(s, o2, ",\"y\":"@, f2 + (",\"w\":"@ + (f3 + (",\"h\":"@ + (f4
        + "},\"dir\":"@)))));
    let o3 = o2 + ",\"y\":"@.len();
    lemma_text_at_concat(s, o3, f2, ",\"w\":"@ + (f3 + (",\"h\":"@ + (f4 + "},\"dir\":"@))));
    let o4 = o3 + f2.len();
    lemma_text_at_char(s, o4, ",\"w\":"@ + (f3 + (",\"h\":"@ + (f4 + "},\"dir\":"@))), 0);
    lemma_text_at_concat(s, o4, ",\"w\":"@, f3 + (",\"h\":"@ + (f4 + "},\"dir\":"@)));
    let o5 = o4 + ",\"w\":"@.len();
    lemma_text_at_concat(s, o5, f3, ",\"h\":"@ + (f4 + "},\"dir\":"@));
    let o6 = o5 + f3.len();
    lemma_text_at_char(s, o6, ",\"h\":"@ + (f4 + "},\"dir\":"@), 0);
    lemma_text_at_concat(s, o6, ",\"h\":"@, f4 + "},\"dir\":"@);
    let o7 = o6 + ",\"h\":"@.len();
    lemma_text_at_concat(s, o7, f4, "},\"dir\":"@);
    let o8 = o7 + f4.len();
    lemma_text_at_char(s, o8, "},\"dir\":"@, 0);
}

/// Reads the body rectangle of a player object.
#[verifier::spinoff_prover]
#[verifier::rlimit(100)]
fn scan_player_body(s: &str, cur0: Option<usize>) -> (r: Option<((i64, i64, i64, i64), usize)>)
    ensures
        r is Some ==> cur0 is Some && ({
            let t = r->0;
            cur0->0 < t.1 <= s@.len()
        }),
        forall|p: Player|
            (cur0 is Some && #[trigger] spec_text_at(s@, cur0->0 as int, spec_player_body(p))
                && spec_wire_num(p.body.x as int) && spec_wire_num(p.body.y as int)
                && spec_wire_num(p.body.w as int) && spec_wire_num(p.body.h as int)) ==> r
                is Some && ({
                let t = r->0;
                t.0 == (p.body.x, p.body.y, p.body.w, p.body.h) && t.1 == cur0->0
                    + spec_player_body(p).len()
            }),
{
    proof {
        reveal_strlit("{\"body\":{\"x\":");
        reveal_strlit(",\"y\":");
        reveal_strlit(",\"w\":");
        reveal_strlit(",\"h\":");
        reveal_strlit("},\"dir\":");
    }
    let c1 = step_lit(s, cur0, "{\"body\":{\"x\":");
    let m1 = step_milli(s, c1, ',');
    let (x, c2) = split_step(m1, 0i64);
    let c3 = step_lit(s, c2, ",\"y\":");
    let m2 = step_milli(s, c3, ',');
    let (y, c4) = split_step(m2, 0i64);
    let c5 = step_lit(s, c4, ",\"w\":");
    let m3 = step_milli(s, c5, ',');
    let (w, c6) = split_step(m3, 0i64);
    let c7 = step_lit(s, c6, ",\"h\":");
    let m4 = step_milli(s, c7, '}');
    let (h, c8) = split_step(m4, 0i64);
    let c9 = step_lit(s, c8, "},\"dir\":");
    let r: Option<((i64, i64, i64, i64), usize)> = match c9 {
        Some(j) => Some(((x, y, w, h), j)),
        None => None,
    };
    proof {
        assert forall|p: Player|
            (cur0 is Some && #[trigger] spec_text_at(s@, cur0->0 as int, spec_player_body(p))
                && spec_wire_num(p.body.x as int) && spec_wire_num(p.body.y as int)
                && spec_wire_num(p.body.w as int) && spec_wire_num(p.body.h as int)) implies r
            is Some && ({
            let t = r->0;
            t.0 == (p.body.x, p.body.y, p.body.w, p.body.h) && t.1 == cur0->0 + spec_player_body(
                p,
            ).len()
        }) by {
            let i = cur0->0 as int;
            lemma_player_body_positions(s@, i, p);
            let f1 = spec_fmt_milli(p.body.x as int);
            let f2 = spec_fmt_milli(p.body.y as int);
            let f3 = spec_fmt_milli(p.body.w as int);
            let f4 = spec_fmt_milli(p.body.h as int);
            let o1 = i + "{\"body\":{\"x\":"@.len();
            let o2 = o1 + f1.len();
            let o3 = o2 + ",\"y\":"@.len();
            let o4 = o3 + f2.len();
            let o5 = o4 + ",\"w\":"@.len();
            let o6 = o5 + f3.len();
            let o7 = o6 + ",\"h\":"@.len();
            let o8 = o7 + f4.len();
            assert(c1 == Some((o1) as usize));
            assert(m1 is Some && ({
                let t = m1->0;
                t.0 == p.body.x && t.1 == o2
            }));
            assert(c3 == Some((o3) as usize));
            assert(m2 is Some && ({
                let t = m2->0;
                t.0 == p.body.y && t.1 == o4
            }));
            assert(c5 == Some((o5) as usize));
            assert(m3 is Some && ({
                let t = m3->0;
                t.0 == p.body.w && t.1 == o6
            }));
            assert(c7 == Some((o7) as usize));
            assert(m4 is Some && ({
                let t = m4->0;
                t.0 == p.body.h && t.1 == o8
            }));
            assert(c9 == Some((o8 + "},\"dir\":"@.len()) as usize));
        }
    }
    r
}

/// Reads the directions and name of a player object.
#[verifier::spinoff_prover]
#[verifier::rlimit(100)]
fn scan_player_mid(s: &str, cur0: Option<usize>) -> (r: Option<(Direction, Direction, String, usize)>)
    ensures
        r is Some ==> cur0 is Some,
        forall|p: Player|
            (cur0 is Some && #[trigger] spec_text_at(s@, cur0->0 as int, spec_player_mid(p)) && (
            forall|j: int| 0 <= j < p.name@.len() ==> p.name@[j] != '"')) ==> r is Some && ({
                let t = r->0;
                t.0 == p.dir && t.1 == p.last_dir && t.2@ == p.name@ && t.3 == cur0->0
                    + spec_player_mid(p).len()
            }),
{
    let dflt = Direction { up: false, down: false, left: false, right: false };
    let (dir, c1) = split_step(step_dir(s, cur0), dflt);
    let c2 = step_lit(s, c1, ",\"last_dir\":");
    let (last_dir, c3) = split_step(step_dir(s, c2), dflt);
    let c4 = step_lit(s, c3, ",\"name\":\"");
    let r: Option<(Direction, Direction, String, usize)> = match c4 {
        Some(i4) => match scan_name(s, i4) {
            Some((name, q)) => match expect_lit(s, q, "\",\"hp\":") {
                Some(j) => Some((dir, last_dir, name, j)),
                None => None,
            },
            None => None,
        },
        None => None,
    };
    proof {
        assert forall|p: Player|
            (cur0 is Some && #[trigger] spec_text_at(s@, cur0->0 as int, spec_player_mid(p)) && (
            forall|j: int| 0 <= j < p.name@.len() ==> p.name@[j] != '"')) implies r is Some && ({
            let t = r->0;
            t.0 == p.dir && t.1 == p.last_dir && t.2@ == p.name@ && t.3 == cur0->0
                + spec_player_mid(p).len()
        }) by {
            reveal(crate::json::spec_player_mid);
            reveal_strlit(",\"last_dir\":");
            reveal_strlit(",\"name\":\"");
            reveal_strlit("\",\"hp\":");
            let i = cur0->0 as int;
            let e1 = spec_emit_dir(p.dir);
            let e2 = spec_emit_dir(p.last_dir);
            let nm = p.name@;
            let r1 = e1 + (",\"last_dir\":"@ + (e2 + (",\"name\":\""@ + (nm + "\",\"hp\":"@))));
            assert(spec_player_mid(p) =~= r1);
            lemma_text_at_concat(s@, i, e1, ",\"last_dir\":"@ + (e2 + (",\"name\":\""@ + (nm
                + "\",\"hp\":"@))));
            let o1 = i + e1.len();
            lemma_text_at_concat(s@, o1, ",\"last_dir\":"@, e2 + (",\"name\":\""@ + (nm
                + "\",\"hp\":"@)));
            let o2 = o1 + ",\"last_dir\":"@.len();
            lemma_text_at_concat(s@, o2, e2, ",\"name\":\""@ + (nm + "\",\"hp\":"@));
            let o3 = o2 + e2.len();
            lemma_text_at_concat(s@, o3, ",\"name\":\""@, nm + "\",\"hp\":"@);
            let o4 = o3 + ",\"name\":\""@.len();
            lemma_text_at_concat(s@, o4, nm, "\",\"hp\":"@);
            let o5 = o4 + nm.len();
            lemma_text_at_char(s@, o5, "\",\"hp\":"@, 0);
        }
    }
    r
}

/// Reads the stats of a player object.
#[verifier::spinoff_prover]
#[verifier::rlimit(100)]
fn scan_player_stats(s: &str, cur0: Option<usize>) -> (r: Option<((i64, i64, i64, i64), usize)>)
    ensures
        r is Some ==> cur0 is Some,
        forall|p: Player|
            (cur0 is Some && #[trigger] spec_text_at(s@, cur0->0 as int, spec_player_stats(p))
                && spec_wire_num(p.hp as int) && spec_wire_num(p.mp as int) && spec_wire_num(
                p.str as int,
            ) && spec_wire_num(p.current_accel as int)) ==> r is Some && ({
                let t = r->0;
                t.0 == (p.hp, p.mp, p.str, p.current_accel) && t.1 == cur0->0 + spec_player_stats(
                    p,
                ).len()
            }),
{
    let (hp, c1) = split_step(step_int(s, cur0, ','), 0i64);
    let c2 = step_lit(s, c1, ",\"mp\":");
    let (mp, c3) = split_step(step_int(s, c2, ','), 0i64);
    let c4 = step_lit(s, c3, ",\"str\":");
    let (strv, c5) = split_step(step_int(s, c4, ','), 0i64);
    let c6 = step_lit(s, c5, ",\"current_accel\":");
    let (accel, c7) = split_step(step_milli(s, c6, ','), 0i64);
    let c8 = step_lit(s, c7, ",\"jumping\":");
    let r: Option<((i64, i64, i64, i64), usize)> = match c8 {
        Some(j) => Some(((hp, mp, strv, accel), j)),
        None => None,
    };
    proof {
        assert forall|p: Player|
            (cur0 is Some && #[trigger] spec_text_at(s@, cur0->0 as int, spec_player_stats(p))
                && spec_wire_num(p.hp as int) && spec_wire_num(p.mp as int) && spec_wire_num(
                p.str as int,
            ) && spec_wire_num(p.current_accel as int)) implies r is Some && ({
            let t = r->0;
            t.0 == (p.hp, p.mp, p.str, p.current_accel) && t.1 == cur0->0 + spec_player_stats(
                p,
            ).len()
        }) by {
            reveal(crate::json::spec_player_stats);
            reveal_strlit(",\"mp\":");
            reveal_strlit(",\"str\":");
            reveal_strlit(",\"current_accel\":");
            reveal_strlit(",\"jumping\":");
            let i = cur0->0 as int;
            let f1 = spec_idec(p.hp as int);
            let f2 = spec_idec(p.mp as int);
            let f3 = spec_idec(p.str as int);
            let f4 = spec_fmt_milli(p.current_accel as int);
            let r1 = f1 + (",\"mp\":"@ + (f2 + (",\"str\":"@ + (f3 + (",\"current_accel\":"@ + (f4
                + ",\"jumping\":"@))))));
            assert(spec_player_stats(p) =~= r1);
            lemma_text_at_concat(s@, i, f1, ",\"mp\":"@ + (f2 + (",\"str\":"@ + (f3 + (
            ",\"current_accel\":"@ + (f4 + ",\"jumping\":"@))))));
            let o1 = i + f1.len();
            lemma_text_at_char(s@, o1, ",\"mp\":"@ + (f2 + (",\"str\":"@ + (f3 + (
            ",\"current_accel\":"@ + (f4 + ",\"jumping\":"@))))), 0);
            lemma_text_at_concat(s@, o1, ",\"mp\":"@, f2 + (",\"str\":"@ + (f3 + (
            ",\"current_accel\":"@ + (f4 + ",\"jumping\":"@)))));
            let o2 = o1 + ",\"mp\":"@.len();
            lemma_text_at_concat(s@, o2, f2, ",\"str\":"@ + (f3 + (",\"current_accel\":"@ + (f4
                + ",\"jumping\":"@))));
            let o3 = o2 + f2.len();
            lemma_text_at_char(s@, o3, ",\"str\":"@ + (f3 + (",\"current_accel\":"@ + (f4
                + ",\"jumping\":"@))), 0);
            lemma_text_at_concat(s@, o3, ",\"str\":"@, f3 + (",\"current_accel\":"@ + (f4
                + ",\"jumping\":"@)));
            let o4 = o3 + ",\"str\":"@.len();
            lemma_text_at_concat(s@, o4, f3, ",\"current_accel\":"@ + (f4 + ",\"jumping\":"@));
            let o5 = o4 + f3.len();
            lemma_text_at_char(s@, o5, ",\"current_accel\":"@ + (f4 + ",\"jumping\":"@), 0);
            lemma_text_at_concat(s@, o5, ",\"current_accel\":"@, f4 + ",\"jumping\":"@);
            let o6 = o5 + ",\"current_accel\":"@.len();
            lemma_text_at_concat(s@, o6, f4, ",\"jumping\":"@);
            let o7 = o6 + f4.len();
            lemma_text_at_char(s@, o7, ",\"jumping\":"@, 0);
        }
    }
    r
}

/// Reads the closing run of a player object.
#[verifier::spinoff_prover]
#[verifier::rlimit(100)]
fn scan_player_tail(s: &str, cur0: Option<usize>) -> (r: Option<((bool, i64, bool, bool, i64), usize)>)
    ensures
        r is Some ==> cur0 is Some && ({
            let t = r->0;
            cur0->0 < t.1 <= s@.len()
        }),
        forall|p: Player|
            (cur0 is Some && #[trigger] spec_text_at(s@, cur0->0 as int, spec_player_tail(p))
                && spec_wire_num(p.jump_offset as int) && spec_wire_num(p.animation_frame as int))
                ==> r is Some && ({
                let t = r->0;
                t.0 == (p.jumping, p.jump_offset, p.ready, p.jump_direction, p.animation_frame)
                    && t.1 == cur0->0 + spec_player_tail(p).len()
            }),
{
    let (jumping, c1) = split_step(step_bool(s, cur0), false);
    let c2 = step_lit(s, c1, ",\"jump_offset\":");
    let (jump_offset, c3) = split_step(step_milli(s, c2, ','), 0i64);
    let c4 = step_lit(s, c3, ",\"ready\":");
    let (ready, c5) = split_step(step_bool(s, c4), false);
    let c6 = step_lit(s, c5, ",\"jump_direction\":");
    let (jump_direction, c7) = split_step(step_bool(s, c6), false);
    let c8 = step_lit(s, c7, ",\"animation_frame\":");
    let (frame, c9) = split_step(step_milli(s, c8, '}'), 0i64);
    let c10 = step_lit(s, c9, "}");
    let r: Option<((bool, i64, bool, bool, i64), usize)> = match c10 {
        Some(j) => Some(((jumping, jump_offset, ready, jump_direction, frame), j)),
        None => None,
    };
    proof {
        assert forall|p: Player|
            (cur0 is Some && #[trigger] spec_text_at(s@, cur0->0 as int, spec_player_tail(p))
                && spec_wire_num(p.jump_offset as int) && spec_wire_num(p.animation_frame as int))
                implies r is Some && ({
            let t = r->0;
            t.0 == (p.jumping, p.jump_offset, p.ready, p.jump_direction, p.animation_frame) && t.1
                == cur0->0 + spec_player_tail(p).len()
        }) by {
            reveal(crate::json::spec_player_tail);
            reveal_strlit(",\"jump_offset\":");
            reveal_strlit(",\"ready\":");
            reveal_strlit(",\"jump_direction\":");
            reveal_strlit(",\"animation_frame\":");
            reveal_strlit("}");
            reveal_strlit("true");
            reveal_strlit("false");
            let i = cur0->0 as int;
            let b1 = spec_json_bool(p.jumping);
            let f1 = spec_fmt_milli(p.jump_offset as int);
            let b2 = spec_json_bool(p.ready);
            let b3 = spec_json_bool(p.jump_direction);
            let f2 = spec_fmt_milli(p.animation_frame as int);
            let r1 = b1 + (",\"jump_offset\":"@ + (f1 + (",\"ready\":"@ + (b2 + (
            ",\"jump_direction\":"@ + (b3 + (",\"animation_frame\":"@ + (f2 + "}"@))))))));
            assert(spec_player_tail(p) =~= r1);
            lemma_text_at_concat(s@, i, b1, ",\"jump_offset\":"@ + (f1 + (",\"ready\":"@ + (b2 + (
            ",\"jump_direction\":"@ + (b3 + (",\"animation_frame\":"@ + (f2 + "}"@))))))));
            let o1 = i + b1.len();
            lemma_text_at_concat(s@, o1, ",\"jump_offset\":"@, f1 + (",\"ready\":"@ + (b2 + (
            ",\"jump_direction\":"@ + (b3 + (",\"animation_frame\":"@ + (f2 + "}"@)))))));
            let o2 = o1 + ",\"jump_offset\":"@.len();
            lemma_text_at_concat(s@, o2, f1, ",\"ready\":"@ + (b2 + (",\"jump_direction\":"@ + (b3
                + (",\"animation_frame\":"@ + (f2 + "}"@))))));
            let o3 = o2 + f1.len();
            lemma_text_at_char(s@, o3, ",\"ready\":"@ + (b2 + (",\"jump_direction\":"@ + (b3 + (
            ",\"animation_frame\":"@ + (f2 + "}"@))))), 0);
            lemma_text_at_concat(s@, o3, ",\"ready\":"@, b2 + (",\"jump_direction\":"@ + (b3 + (
            ",\"animation_frame\":"@ + (f2 + "}"@)))));
            let o4 = o3 + ",\"ready\":"@.len();
            lemma_text_at_concat(s@, o4, b2, ",\"jump_direction\":"@ + (b3 + (
            ",\"animation_frame\":"@ + (f2 + "}"@))));
            let o5 = o4 + b2.len();
            lemma_text_at_concat(s@, o5, ",\"jump_direction\":"@, b3 + (",\"animation_frame\":"@ + (
            f2 + "}"@)));
            let o6 = o5 + ",\"jump_direction\":"@.len();
            lemma_text_at_concat(s@, o6, b3, ",\"animation_frame\":"@ + (f2 + "}"@));
            let o7 = o6 + b3.len();
            lemma_text_at_concat(s@, o7, ",\"animation_frame\":"@, f2 + "}"@);
            let o8 = o7 + ",\"animation_frame\":"@.len();
            lemma_text_at_concat(s@, o8, f2, "}"@);
            let o9 = o8 + f2.len();
            lemma_text_at_char(s@, o9, "}"@, 0);
        }
    }
    r
}

/// What re-reading a whole snapshot needs: at most the two players a
/// session can hold, each printable, under a quote-free id.
pub open spec fn spec_snapshot_printable(g: NetworkedGame) -> bool {
    &&& g.players@.len() <= 2
    &&& (forall|k: int| 0 <= k < g.players@.len() ==> spec_player_printable(#[trigger] g.players@[k]))
    &&& (forall|j: int| 0 <= j < g.session_id@.len() ==> g.session_id@[j] != '"')
}

/// Where the four runs of a player's JSON stand, given the player stands at
/// `i`.
#[verifier::spinoff_prover]
#[verifier::rlimit(100)]
proof fn lemma_player_chunk_positions(s: Seq<char>, i: int, p: Player)
    requires
        spec_text_at(s, i, spec_emit_player(p)),
    ensures
        spec_text_at(s, i, spec_player_body(p)),
        spec_text_at(s, i + spec_player_body(p).len(), spec_player_mid(p)),
        spec_text_at(
            s,
            i + spec_player_body(p).len() + spec_player_mid(p).len(),
            spec_player_stats(p),
        ),
        spec_text_at(
            s,
            i + spec_player_body(p).len() + spec_player_mid(p).len() + spec_player_stats(p).len(),
            spec_player_tail(p),
        ),
{
    let pb = spec_player_body(p);
    let pm = spec_player_mid(p);
    let pst = spec_player_stats(p);
    let pt = spec_player_tail(p);
    assert(spec_emit_player(p) =~= pb + (pm + (pst + pt)));
    lemma_text_at_concat(s, i, pb, pm + (pst + pt));
    lemma_text_at_concat(s, i + pb.len(), pm, pst + pt);
    lemma_text_at_concat(s, i + pb.len() + pm.len(), pst, pt);
}

/// Where the players of a list of at most two stand, given the list stands
/// at `i`.
#[verifier::spinoff_prover]
#[verifier::rlimit(100)]
proof fn lemma_players_positions(s: Seq<char>, i: int, ps: Seq<Player>)
    requires
        spec_text_at(s, i, spec_emit_players(ps)),
        1 <= ps.len() <= 2,
    ensures
        s[i] == '{',
        spec_text_at(s, i, spec_emit_player(ps[0])),
        ps.len() == 1 ==> spec_emit_players(ps).len() == spec_emit_player(ps[0]).len(),
        ps.len() == 2 ==> ({
            let e0 = spec_emit_player(ps[0]);
            let e1 = spec_emit_player(ps[1]);
            &&& s[i + e0.len()] == ','
            &&& spec_text_at(s, i + e0.len() + 1, e1)
            &&& spec_emit_players(ps).len() == e0.len() + 1 + e1.len()
        }),
{
    reveal(crate::json::spec_player_body);
    reveal_strlit("{\"body\":{\"x\":");
    reveal_strlit(",");
    if ps.len() == 1 {
        assert(spec_emit_players(ps) == spec_emit_player(ps[0]));
    } else {
        assert(ps.drop_last().len() == 1);
        assert(ps.drop_last()[0] == ps[0]);
        assert(spec_emit_players(ps.drop_last()) == spec_emit_player(ps[0]));
        assert(ps.last() == ps[1]);
        let e0 = spec_emit_player(ps[0]);
        let e1 = spec_emit_player(ps[1]);
        assert(spec_emit_players(ps) =~= e0 + (","@ + e1));
        lemma_text_at_concat(s, i, e0, ","@ + e1);
        lemma_text_at_concat(s, i + e0.len(), ","@, e1);
        lemma_text_at_char(s, i + e0.len(), ","@, 0);
        assert(","@.len() == 1);
    }
    assert(spec_emit_player(ps[0])[0] == '{') by {
        assert(spec_player_body(ps[0])[0] == "{\"body\":{\"x\":"@[0]);
        assert(spec_emit_player(ps[0])[0] == spec_player_body(ps[0])[0]);
    }
    lemma_text_at_char(s, i, spec_emit_player(ps[0]), 0);
}

/// Two players whose snapshots print identically: every transmitted field
/// agrees (only the untransmitted hit flag may differ).
pub open spec fn spec_prints_like(a: Player, b: Player) -> bool {
    &&& a.body == b.body
    &&& a.dir == b.dir
    &&& a.last_dir == b.last_dir
    &&& a.name@ == b.name@
    &&& a.hp == b.hp
    &&& a.mp == b.mp
    &&& a.str == b.str
    &&& a.current_accel == b.current_accel
    &&& a.jumping == b.jumping
    &&& a.jump_offset == b.jump_offset
    &&& a.ready == b.ready
    &&& a.jump_direction == b.jump_direction
    &&& a.animation_frame == b.animation_frame
}

/// Players that print alike have the same snapshot text.
#[verifier::spinoff_prover]
proof fn lemma_prints_like_emit(a: Player, b: Player)
    requires
        spec_prints_like(a, b),
    ensures
        spec_emit_player(a) == spec_emit_player(b),
{
    reveal(crate::json::spec_player_body);
    reveal(crate::json::spec_player_mid);
    reveal(crate::json::spec_player_stats);
    reveal(crate::json::spec_player_tail);
    assert(spec_player_body(a) == spec_player_body(b));
    assert(spec_player_mid(a) == spec_player_mid(b));
    assert(spec_player_stats(a) == spec_player_stats(b));
    assert(spec_player_tail(a) == spec_player_tail(b));
}

/// Two sessions whose snapshots print identically.
pub open spec fn spec_game_prints_like(a: NetworkedGame, b: NetworkedGame) -> bool {
    &&& a.players@.len() == b.players@.len()
    &&& (forall|k: int|
        0 <= k < a.players@.len() ==> spec_prints_like(#[trigger] a.players@[k], b.players@[k]))
    &&& a.session_id@ == b.session_id@
    &&& a.started == b.started
    &&& a.completed == b.completed
}

/// Sessions of at most two players that print alike have the same snapshot
/// text.
#[verifier::spinoff_prover]
proof fn lemma_game_prints_like_emit(a: NetworkedGame, b: NetworkedGame)
    requires
        spec_game_prints_like(a, b),
        a.players@.len() <= 2,
    ensures
        spec_emit_game(a) == spec_emit_game(b),
{
    let qs = a.players@;
    let ps = b.players@;
    assert(spec_emit_players(qs) == spec_emit_players(ps)) by {
        if qs.len() == 1 {
            lemma_prints_like_emit(qs[0], ps[0]);
        } else if qs.len() == 2 {
            lemma_prints_like_emit(qs[0], ps[0]);
            lemma_prints_like_emit(qs[1], ps[1]);
            assert(qs.drop_last().len() == 1 && qs.drop_last()[0] == qs[0]);
            assert(ps.drop_last().len() == 1 && ps.drop_last()[0] == ps[0]);
            assert(spec_emit_players(qs.drop_last()) == spec_emit_players(ps.drop_last()));
            assert(qs.last() == qs[1] && ps.last() == ps[1]);
        }
    }
}

/// Reads one player object at a threaded cursor.
#[verifier::spinoff_prover]
#[verifier::rlimit(100)]
fn scan_player(s: &str, cur0: Option<usize>) -> (r: Option<(Player, usize)>)
    ensures
        r is Some ==> cur0 is Some,
        forall|p: Player|
            (cur0 is Some && #[trigger] spec_text_at(s@, cur0->0 as int, spec_emit_player(p))
                && spec_player_printable(p)) ==> r is Some && ({
                let t = r->0;
                spec_prints_like(t.0, p) && t.1 == cur0->0 + spec_emit_player(p).len()
            }),
{
    let b = scan_player_body(s, cur0);
    let (bv, c1) = split_step(b, (0i64, 0i64, 0i64, 0i64));
    let m = scan_player_mid(s, c1);
    let mpos: Option<usize> = match &m {
        Some(t) => Some(t.3),
        None => None,
    };
    let st = scan_player_stats(s, mpos);
    let (sv, c3) = split_step(st, (0i64, 0i64, 0i64, 0i64));
    let tl = scan_player_tail(s, c3);
    let (tv, c4) = split_step(tl, (false, 0i64, false, false, 0i64));
    let r: Option<(Player, usize)> = match (m, c4) {
        (Some((dir, last_dir, name, _)), Some(end)) => Some(
            (
                Player {
                    body: Position { x: bv.0, y: bv.1, w: bv.2, h: bv.3 },
                    is_hit: false,
                    dir,
                    last_dir,
                    name,
                    hp: sv.0,
                    mp: sv.1,
                    str: sv.2,
                    current_accel: sv.3,
                    jumping: tv.0,
                    jump_offset: tv.1,
                    ready: tv.2,
                    jump_direction: tv.3,
                    animation_frame: tv.4,
                },
                end,
            ),
        ),
        _ => None,
    };
    proof {
        assert forall|p: Player|
            (cur0 is Some && #[trigger] spec_text_at(s@, cur0->0 as int, spec_emit_player(p))
                && spec_player_printable(p)) implies r is Some && ({
            let t = r->0;
            spec_prints_like(t.0, p) && t.1 == cur0->0 + spec_emit_player(p).len()
        }) by {
            let i = cur0->0 as int;
            let pb = spec_player_body(p);
            let pm = spec_player_mid(p);
            let pst = spec_player_stats(p);
            let pt = spec_player_tail(p);
            lemma_player_chunk_positions(s@, i, p);
            assert(spec_emit_player(p).len() == pb.len() + pm.len() + pst.len() + pt.len()) by {
                assert(spec_emit_player(p) =~= pb + (pm + (pst + pt)));
            }
            assert(b is Some && ({
                let t = b->0;
                t.0 == (p.body.x, p.body.y, p.body.w, p.body.h) && t.1 == i + pb.len()
            }));
            assert(m is Some && ({
                let t = m->0;
                t.0 == p.dir && t.1 == p.last_dir && t.2@ == p.name@ && t.3 == i + pb.len()
                    + pm.len()
            }));
            assert(mpos is Some && mpos->0 == i + pb.len() + pm.len());
            assert(st is Some && ({
                let t = st->0;
                t.0 == (p.hp, p.mp, p.str, p.current_accel) && t.1 == i + pb.len() + pm.len()
                    + pst.len()
            }));
            assert(tl is Some && ({
                let t = tl->0;
                t.0 == (p.jumping, p.jump_offset, p.ready, p.jump_direction, p.animation_frame)
                    && t.1 == i + pb.len() + pm.len() + pst.len() + pt.len()
            }));
            assert(r is Some);
        }
    }
    r
}

/// A player's JSON text is nonempty and opens with a brace.
proof fn lemma_emit_player_first(p: Player)
    ensures
        spec_emit_player(p).len() > 0,
        spec_emit_player(p)[0] == '{',
{
    reveal(crate::json::spec_player_body);
    reveal_strlit("{\"body\":{\"x\":");
    assert(spec_player_body(p)[0] == "{\"body\":{\"x\":"@[0]);
    assert(spec_emit_player(p)[0] == spec_player_body(p)[0]);
}

/// A one-element player list.
fn vec_one(p: Player) -> (r: Vec<Player>)
    ensures
        r@.len() == 1 && r@[0] == p,
{
    let mut out: Vec<Player> = Vec::new();
    out.push(p);
    out
}

/// A two-element player list.
fn vec_two(p: Player, q: Player) -> (r: Vec<Player>)
    ensures
        r@.len() == 2 && r@[0] == p && r@[1] == q,
{
    let mut out: Vec<Player> = Vec::new();
    out.push(p);
    out.push(q);
    out
}

/// Reads the player list of a snapshot: none, one or two players, as a
/// session can hold.  A longer list is never printed, and is refused.
#[verifier::spinoff_prover]
#[verifier::rlimit(100)]
fn scan_players(s: &str, cur0: Option<usize>) -> (r: Option<(Vec<Player>, usize)>)
    ensures
        r is Some ==> cur0 is Some,
        (cur0 is Some && cur0->0 < s@.len() && s@[cur0->0 as int] == ']') ==> r is Some && ({
            let t = r->0;
            t.0@.len() == 0 && t.1 == cur0->0
        }),
        forall|p0: Player|
            (cur0 is Some && #[trigger] spec_text_at(s@, cur0->0 as int, spec_emit_player(p0))
                && spec_player_printable(p0) && cur0->0 + spec_emit_player(p0).len() < s@.len()
                && s@[cur0->0 + spec_emit_player(p0).len()] == ']') ==> r is Some && ({
                let t = r->0;
                &&& t.0@.len() == 1
                &&& spec_prints_like(t.0@[0], p0)
                &&& t.1 == cur0->0 + spec_emit_player(p0).len()
            }),
        forall|p0: Player, p1: Player|
            (cur0 is Some && #[trigger] spec_text_at(s@, cur0->0 as int, spec_emit_player(p0))
                && spec_player_printable(p0) && s@[cur0->0 + spec_emit_player(p0).len()] == ','
                && #[trigger] spec_text_at(
                s@,
                cur0->0 + spec_emit_player(p0).len() + 1,
                spec_emit_player(p1),
            ) && spec_player_printable(p1) && cur0->0 + spec_emit_player(p0).len() + 1
                + spec_emit_player(p1).len() < s@.len() && s@[cur0->0 + spec_emit_player(
                p0,
            ).len() + 1 + spec_emit_player(p1).len()] == ']') ==> r is Some && ({
                let t = r->0;
                &&& t.0@.len() == 2
                &&& spec_prints_like(t.0@[0], p0)
                &&& spec_prints_like(t.0@[1], p1)
                &&& t.1 == cur0->0 + spec_emit_player(p0).len() + 1 + spec_emit_player(p1).len()
            }),
{
    let n = s.unicode_len();
    let empty: bool = match cur0 {
        Some(i0) => i0 < n && s.get_char(i0) == ']',
        None => false,
    };
    let start: Option<usize> = match cur0 {
        Some(i0) => if i0 < n && s.get_char(i0) == ']' {
            None
        } else {
            Some(i0)
        },
        None => None,
    };
    let first = scan_player(s, start);
    let comma1: bool = match &first {
        Some(t) => t.1 < n && s.get_char(t.1) == ',',
        None => false,
    };
    let next: Option<usize> = match &first {
        Some(t) => if t.1 < n && s.get_char(t.1) == ',' {
            Some(t.1 + 1)
        } else {
            None
        },
        None => None,
    };
    let second = scan_player(s, next);
    let comma2: bool = match &second {
        Some(t) => t.1 < n && s.get_char(t.1) == ',',
        None => false,
    };
    let ghost gf = first;
    let ghost gs = second;
    let r: Option<(Vec<Player>, usize)> = match cur0 {
        None => None,
        Some(i0) => {
            if empty {
                Some((Vec::new(), i0))
            } else {
                match (first, second) {
                    (Some((p1, _)), Some((p2, j2))) => {
                        if comma2 {
                            None
                        } else {
                            Some((vec_two(p1, p2), j2))
                        }
                    },
                    (Some((p1, j1)), None) => {
                        if comma1 {
                            None
                        } else {
                            Some((vec_one(p1), j1))
                        }
                    },
                    (None, _) => None,
                }
            }
        },
    };
    proof {
        assert forall|p0: Player|
            (cur0 is Some && #[trigger] spec_text_at(s@, cur0->0 as int, spec_emit_player(p0))
                && spec_player_printable(p0) && cur0->0 + spec_emit_player(p0).len() < s@.len()
                && s@[cur0->0 + spec_emit_player(p0).len()] == ']') implies r is Some && ({
            let t = r->0;
            &&& t.0@.len() == 1
            &&& spec_prints_like(t.0@[0], p0)
            &&& t.1 == cur0->0 + spec_emit_player(p0).len()
        }) by {
            let i0 = cur0->0 as int;
            lemma_emit_player_first(p0);
            lemma_text_at_char(s@, i0, spec_emit_player(p0), 0);
            assert(!empty);
            assert(start == Some((i0) as usize));
            assert(gf is Some && ({
                let t = gf->0;
                spec_prints_like(t.0, p0) && t.1 == i0 + spec_emit_player(p0).len()
            }));
            assert(!comma1);
            assert(next is None && gs is None);
        }
        assert forall|p0: Player, p1: Player|
            (cur0 is Some && #[trigger] spec_text_at(s@, cur0->0 as int, spec_emit_player(p0))
                && spec_player_printable(p0) && s@[cur0->0 + spec_emit_player(p0).len()] == ','
                && #[trigger] spec_text_at(
                s@,
                cur0->0 + spec_emit_player(p0).len() + 1,
                spec_emit_player(p1),
            ) && spec_player_printable(p1) && cur0->0 + spec_emit_player(p0).len() + 1
                + spec_emit_player(p1).len() < s@.len() && s@[cur0->0 + spec_emit_player(
                p0,
            ).len() + 1 + spec_emit_player(p1).len()] == ']') implies r is Some && ({
            let t = r->0;
            &&& t.0@.len() == 2
            &&& spec_prints_like(t.0@[0], p0)
            &&& spec_prints_like(t.0@[1], p1)
            &&& t.1 == cur0->0 + spec_emit_player(p0).len() + 1 + spec_emit_player(p1).len()
        }) by {
            let i0 = cur0->0 as int;
            let l0 = spec_emit_player(p0).len();
            let l1 = spec_emit_player(p1).len();
            lemma_emit_player_first(p0);
            lemma_emit_player_first(p1);
            lemma_text_at_char(s@, i0, spec_emit_player(p0), 0);
            assert(!empty);
            assert(start == Some((i0) as usize));
            assert(gf is Some && ({
                let t = gf->0;
                spec_prints_like(t.0, p0) && t.1 == i0 + l0
            }));
            assert(comma1);
            assert(next == Some((i0 + l0 + 1) as usize));
            assert(next is Some && next->0 as int == i0 + l0 + 1);
            assert(spec_text_at(s@, next->0 as int, spec_emit_player(p1)));
            assert(gs is Some && ({
                let t = gs->0;
                spec_prints_like(t.0, p1) && t.1 == i0 + l0 + 1 + l1
            }));
            assert(!comma2);
        }
    }
    r
}

/// Reads a whole snapshot text.
#[verifier::spinoff_prover]
#[verifier::rlimit(100)]
fn scan_game(s: &str) -> (r: Option<NetworkedGame>)
    ensures
        forall|g: NetworkedGame|
            (#[trigger] spec_snapshot_printable(g) && s@ == spec_emit_game(g)) ==> r is Some
                && spec_game_prints_like(r->0, g),
{
    let n = s.unicode_len();
    let zero: usize = 0;
    let c1 = step_lit(s, Some(zero), "{\"players\":[");
    let pl = scan_players(s, c1);
    let plpos: Option<usize> = match &pl {
        Some(t) => Some(t.1),
        None => None,
    };
    let c2 = step_lit(s, plpos, "],\"session_id\":\"");
    let nm = match c2 {
        Some(i2) => scan_name(s, i2),
        None => None,
    };
    let nmpos: Option<usize> = match &nm {
        Some(t) => Some(t.1),
        None => None,
    };
    let c3 = step_lit(s, nmpos, "\",\"started\":");
    let (started, c4) = split_step(step_bool(s, c3), false);
    let c5 = step_lit(s, c4, ",\"completed\":");
    let (completed, c6) = split_step(step_bool(s, c5), false);
    let c7 = step_lit(s, c6, "}");
    let ghost gpl = pl;
    let ghost gnm = nm;
    let r: Option<NetworkedGame> = match (pl, nm, c7) {
        (Some((players, _)), Some((session_id, _)), Some(endpos)) => {
            if endpos == n {
                Some(NetworkedGame { players, session_id, started, completed })
            } else {
                None
            }
        },
        _ => None,
    };
    proof {
        assert forall|g: NetworkedGame|
            (#[trigger] spec_snapshot_printable(g) && s@ == spec_emit_game(g)) implies r is Some
            && spec_game_prints_like(r->0, g) by {
            reveal_strlit("{\"players\":[");
            reveal_strlit("],\"session_id\":\"");
            reveal_strlit("\",\"started\":");
            reveal_strlit(",\"completed\":");
            reveal_strlit("}");
            reveal_strlit("true");
            reveal_strlit("false");
            let e = spec_emit_game(g);
            let ps = g.players@;
            let pls = spec_emit_players(ps);
            let sid = g.session_id@;
            let b1 = spec_json_bool(g.started);
            let b2 = spec_json_bool(g.completed);
            let r1 = pls + ("],\"session_id\":\""@ + (sid + ("\",\"started\":"@ + (b1 + (
            ",\"completed\":"@ + (b2 + "}"@))))));
            assert(e =~= "{\"players\":["@ + r1);
            assert(spec_text_at(s@, 0, e)) by {
                assert(s@.subrange(0, e.len() as int) =~= e);
            }
            lemma_text_at_concat(s@, 0, "{\"players\":["@, r1);
            let o1 = "{\"players\":["@.len() as int;
            assert(c1 == Some((o1) as usize));
            lemma_text_at_concat(s@, o1, pls, "],\"session_id\":\""@ + (sid + ("\",\"started\":"@
                + (b1 + (",\"completed\":"@ + (b2 + "}"@))))));
            let o2 = o1 + pls.len();
            lemma_text_at_char(s@, o2, "],\"session_id\":\""@ + (sid + ("\",\"started\":"@ + (b1 + (
            ",\"completed\":"@ + (b2 + "}"@))))), 0);
            if ps.len() == 0 {
                assert(pls.len() == 0);
                assert(s@[o1] == ']');
            } else {
                lemma_players_positions(s@, o1, ps);
                assert(s@[o1 + pls.len()] == ']');
            }
            assert(gpl is Some && ({
                let t = gpl->0;
                &&& t.0@.len() == ps.len()
                &&& (forall|k: int|
                    0 <= k < ps.len() ==> spec_prints_like(#[trigger] t.0@[k], ps[k]))
                &&& t.1 == o2
            })) by {
                assert(gpl is Some);
            }
            lemma_text_at_concat(s@, o2, "],\"session_id\":\""@, sid + ("\",\"started\":"@ + (b1
                + (",\"completed\":"@ + (b2 + "}"@)))));
            let o3 = o2 + "],\"session_id\":\""@.len();
            assert(c2 == Some((o3) as usize));
            lemma_text_at_concat(s@, o3, sid, "\",\"started\":"@ + (b1 + (",\"completed\":"@ + (b2
                + "}"@))));
            let o4 = o3 + sid.len();
            lemma_text_at_char(s@, o4, "\",\"started\":"@ + (b1 + (",\"completed\":"@ + (b2
                + "}"@))), 0);
            assert(gnm is Some && ({
                let t = gnm->0;
                t.0@ == sid && t.1 == o4
            }));
            lemma_text_at_concat(s@, o4, "\",\"started\":"@, b1 + (",\"completed\":"@ + (b2
                + "}"@)));
            let o5 = o4 + "\",\"started\":"@.len();
            assert(c3 == Some((o5) as usize));
            lemma_text_at_concat(s@, o5, b1, ",\"completed\":"@ + (b2 + "}"@));
            let o6 = o5 + b1.len();
            assert(started == g.started && c4 == Some((o6) as usize));
            lemma_text_at_concat(s@, o6, ",\"completed\":"@, b2 + "}"@);
            let o7 = o6 + ",\"completed\":"@.len();
            assert(c5 == Some((o7) as usize));
            lemma_text_at_concat(s@, o7, b2, "}"@);
            let o8 = o7 + b2.len();
            assert(completed == g.completed && c6 == Some((o8) as usize));
            assert(c7 == Some((o8 + 1) as usize));
            assert(o8 + 1 == e.len());
            assert(r is Some);
        }
    }
    r
}

/// Reads a session snapshot: a text is accepted exactly when it is the
/// snapshot of the returned session, letter for letter, and every printable
/// snapshot - at most two players, quote-free names and id, numbers in the
/// wire's range, which is everything the registry ever prints - is accepted.
pub fn parse_game(s: &str) -> (r: Option<NetworkedGame>)
    ensures
        r is Some ==> s@ == spec_emit_game(r->0),
        (exists|g: NetworkedGame|
            #[trigger] spec_snapshot_printable(g) && s@ == spec_emit_game(g)) ==> r is Some,
{
    match scan_game(s) {
        Some(g0) => {
            let out = emit_game(&g0);
            let ok = out == String::from_str(s);
            proof {
                if exists|g: NetworkedGame|
                    #[trigger] spec_snapshot_printable(g) && s@ == spec_emit_game(g) {
                    let g = choose|g: NetworkedGame|
                        #[trigger] spec_snapshot_printable(g) && s@ == spec_emit_game(g);
                    assert(spec_game_prints_like(g0, g));
                    lemma_game_prints_like_emit(g0, g);
                    assert(spec_emit_game(g0) == spec_emit_game(g));
                }
            }
            if ok {
                Some(g0)
            } else {
                None
            }
        },
        None => {
            proof {
                if exists|g: NetworkedGame|
                    #[trigger] spec_snapshot_printable(g) && s@ == spec_emit_game(g) {
                    let g = choose|g: NetworkedGame|
                        #[trigger] spec_snapshot_printable(g) && s@ == spec_emit_game(g);
                    assert(spec_snapshot_printable(g) && s@ == spec_emit_game(g));
                }
            }
            None
        },
    }
}

/// A printed fixed-point number never contains the list separator.
proof fn lemma_fmt_milli_no_comma(v: int)
    ensures
        forall|i: int| 0 <= i < spec_fmt_milli(v).len() ==> spec_fmt_milli(v)[i] != ',',
{
    let a = if v < 0 { -v } else { v };
    let ip = crate::numfmt::spec_udec((a / 1000) as nat);
    let fp = crate::numfmt::spec_frac(a % 1000);
    crate::numfmt::lemma_udec_digits((a / 1000) as nat);
    crate::numfmt::lemma_frac_val(a % 1000);
    let mag = crate::numfmt::spec_fmt_milli_mag(a);
    assert forall|i: int| 0 <= i < mag.len() implies mag[i] != ',' by {
        if i < ip.len() {
            assert(mag[i] == ip[i]);
            assert(crate::numfmt::spec_is_digit(ip[i]));
        } else if i == ip.len() {
            assert(mag[i] == '.');
        } else {
            assert(mag[i] == fp[i - ip.len() - 1]);
            assert(crate::numfmt::spec_is_digit(fp[i - ip.len() - 1]));
        }
    }
    if v < 0 {
        assert forall|i: int| 0 <= i < spec_fmt_milli(v).len() implies spec_fmt_milli(v)[i] != ','
            by {
            if i > 0 {
                assert(spec_fmt_milli(v)[i] == mag[i - 1]);
            }
        }
    }
}

/// Splitting a well-shaped segment off the front of a comma-separated run
/// parses the segment and the rest independently.
proof fn lemma_parse_segments_cons(seg: Seq<char>, rest: Seq<char>)
    requires
        spec_milli_valid(seg),
        forall|i: int| 0 <= i < seg.len() ==> seg[i] != ',',
    ensures
        spec_parse_segments(seg + seq![','] + rest) == match spec_parse_segments(rest) {
            Some(t) => Some(seq![spec_milli_val(seg)] + t),
            None => None::<Seq<int>>,
        },
{
    let s = seg + seq![','] + rest;
    let tail = seq![','] + rest;
    assert(s =~= seg + tail);
    crate::text::lemma_find_over_concat(seg, tail, ',');
    assert(tail[0] == ',');
    let c = spec_find(s, ',');
    assert(c == seg.len());
    assert(s.take(c) =~= seg);
    assert(s.skip(c + 1) =~= rest);
}

/// A well-shaped run of one segment parses to its one value.
proof fn lemma_parse_segments_single(seg: Seq<char>)
    requires
        spec_milli_valid(seg),
        forall|i: int| 0 <= i < seg.len() ==> seg[i] != ',',
    ensures
        spec_parse_segments(seg) == Some(seq![spec_milli_val(seg)]),
{
    crate::text::lemma_find_unique(seg, ',', seg.len() as int);
}

/// The joined segments of an opponent reply parse back to the six values.
#[verifier::spinoff_prover]
#[verifier::rlimit(100)]
proof fn lemma_opponent_segments(
    x: i64,
    y: i64,
    dir_code: i64,
    jumping: i64,
    accel: i64,
    frame: i64,
)
    requires
        -1_000_000_000_000_000_000 < x < 1_000_000_000_000_000_000,
        -1_000_000_000_000_000_000 < y < 1_000_000_000_000_000_000,
        -1_000_000_000_000_000_000 < dir_code < 1_000_000_000_000_000_000,
        -1_000_000_000_000_000_000 < jumping < 1_000_000_000_000_000_000,
        -1_000_000_000_000_000_000 < accel < 1_000_000_000_000_000_000,
        -1_000_000_000_000_000_000 < frame < 1_000_000_000_000_000_000,
    ensures
        spec_parse_segments(
            spec_fmt_milli(x as int) + seq![','] + spec_fmt_milli(y as int) + seq![',']
                + spec_fmt_milli(dir_code as int) + seq![','] + spec_fmt_milli(jumping as int)
                + seq![','] + spec_fmt_milli(accel as int) + seq![','] + spec_fmt_milli(
                frame as int,
            ),
        ) == Some(
            seq![x as int, y as int, dir_code as int, jumping as int, accel as int, frame as int],
        ),
{
    let n1 = spec_fmt_milli(x as int);
    let n2 = spec_fmt_milli(y as int);
    let n3 = spec_fmt_milli(dir_code as int);
    let n4 = spec_fmt_milli(jumping as int);
    let n5 = spec_fmt_milli(accel as int);
    let n6 = spec_fmt_milli(frame as int);
    crate::numfmt::lemma_milli_round_trip(x as int);
    crate::numfmt::lemma_milli_round_trip(y as int);
    crate::numfmt::lemma_milli_round_trip(dir_code as int);
    crate::numfmt::lemma_milli_round_trip(jumping as int);
    crate::numfmt::lemma_milli_round_trip(accel as int);
    crate::numfmt::lemma_milli_round_trip(frame as int);
    lemma_fmt_milli_no_comma(x as int);
    lemma_fmt_milli_no_comma(y as int);
    lemma_fmt_milli_no_comma(dir_code as int);
    lemma_fmt_milli_no_comma(jumping as int);
    lemma_fmt_milli_no_comma(accel as int);
    lemma_fmt_milli_no_comma(frame as int);
    let inner = n1 + seq![','] + n2 + seq![','] + n3 + seq![','] + n4 + seq![','] + n5 + seq![',']
        + n6;
    lemma_parse_segments_single(n6);
    let r5 = n5 + seq![','] + n6;
    lemma_parse_segments_cons(n5, n6);
    let r4 = n4 + seq![','] + r5;
    lemma_parse_segments_cons(n4, r5);
    assert(n4 + seq![','] + (n5 + seq![','] + n6) =~= r4);
    let r3 = n3 + seq![','] + r4;
    lemma_parse_segments_cons(n3, r4);
    assert(n3 + seq![','] + r4 =~= r3);
    let r2 = n2 + seq![','] + r3;
    lemma_parse_segments_cons(n2, r3);
    assert(n2 + seq![','] + r3 =~= r2);
    let r1 = n1 + seq![','] + r2;
    lemma_parse_segments_cons(n1, r2);
    assert(n1 + seq![','] + r2 =~= r1);
    assert(inner =~= r1);
    assert(seq![x as int] + (seq![y as int] + (seq![dir_code as int] + (seq![jumping as int] + (
    seq![accel as int] + seq![frame as int])))) =~= seq![
        x as int,
        y as int,
        dir_code as int,
        jumping as int,
        accel as int,
        frame as int,
    ]);
}

/// An opponent reply decodes back to exactly the six values the server put
/// into it, for the whole numeric range the wire admits: what a client
/// mirrors is what the registry stored.
#[verifier::spinoff_prover]
#[verifier::rlimit(100)]
pub proof fn lemma_opponent_round_trip(
    x: i64,
    y: i64,
    dir_code: i64,
    jumping: i64,
    accel: i64,
    frame: i64,
)
    requires
        -1_000_000_000_000_000_000 < x < 1_000_000_000_000_000_000,
        -1_000_000_000_000_000_000 < y < 1_000_000_000_000_000_000,
        -1_000_000_000_000_000_000 < dir_code < 1_000_000_000_000_000_000,
        -1_000_000_000_000_000_000 < jumping < 1_000_000_000_000_000_000,
        -1_000_000_000_000_000_000 < accel < 1_000_000_000_000_000_000,
        -1_000_000_000_000_000_000 < frame < 1_000_000_000_000_000_000,
    ensures
        spec_parse_opponent(spec_emit_opponent(x, y, dir_code, jumping, accel, frame)) == Some(
            seq![x as int, y as int, dir_code as int, jumping as int, accel as int, frame as int],
        ),
{
    let n1 = spec_fmt_milli(x as int);
    let n2 = spec_fmt_milli(y as int);
    let n3 = spec_fmt_milli(dir_code as int);
    let n4 = spec_fmt_milli(jumping as int);
    let n5 = spec_fmt_milli(accel as int);
    let n6 = spec_fmt_milli(frame as int);
    let s = spec_emit_opponent(x, y, dir_code, jumping, accel, frame);
    let inner = n1 + seq![','] + n2 + seq![','] + n3 + seq![','] + n4 + seq![','] + n5 + seq![',']
        + n6;
    reveal_strlit("{\"opponent\":[");
    reveal_strlit("{\"opponent\":");
    reveal_strlit(",");
    reveal_strlit("]}");
    assert(s.subrange(0, 12) =~= "{\"opponent\":"@);
    assert(s.len() >= 13);
    assert(s.last() == '}');
    let body = s.subrange(12, s.len() - 1);
    assert(body =~= seq!['['] + inner + seq![']']);
    assert(body[0] == '[');
    assert(body.last() == ']');
    assert(body.subrange(1, body.len() - 1) =~= inner);
    lemma_opponent_segments(x, y, dir_code, jumping, accel, frame);
}

/// The payload a client prints is read back by the server's metadata parser
/// as exactly the six values it holds, for the whole numeric range the wire
/// admits: a position update survives the trip.
pub proof fn lemma_position_meta_round_trip(
    x: i64,
    y: i64,
    dir_code: i64,
    jumping_flag: i64,
    frame: i64,
    last_dir_code: i64,
)
    requires
        -1_000_000_000_000_000_000 < x < 1_000_000_000_000_000_000,
        -1_000_000_000_000_000_000 < y < 1_000_000_000_000_000_000,
        -1_000_000_000_000_000_000 < dir_code < 1_000_000_000_000_000_000,
        -1_000_000_000_000_000_000 < jumping_flag < 1_000_000_000_000_000_000,
        -1_000_000_000_000_000_000 < frame < 1_000_000_000_000_000_000,
        -1_000_000_000_000_000_000 < last_dir_code < 1_000_000_000_000_000_000,
    ensures
        spec_parse_milli_array(
            spec_emit_position_meta(x, y, dir_code, jumping_flag, frame, last_dir_code),
        ) == Some(
            seq![
                x as int,
                y as int,
                dir_code as int,
                jumping_flag as int,
                frame as int,
                last_dir_code as int,
            ],
        ),
{
    let s = spec_emit_position_meta(x, y, dir_code, jumping_flag, frame, last_dir_code);
    let inner = spec_fmt_milli(x as int) + seq![','] + spec_fmt_milli(y as int) + seq![',']
        + spec_fmt_milli(dir_code as int) + seq![','] + spec_fmt_milli(jumping_flag as int)
        + seq![','] + spec_fmt_milli(frame as int) + seq![','] + spec_fmt_milli(
        last_dir_code as int,
    );
    reveal_strlit("[");
    reveal_strlit(",");
    reveal_strlit("]");
    assert(s[0] == '[');
    assert(s.last() == ']');
    assert(s.len() >= 2);
    assert(s.subrange(1, s.len() - 1) =~= inner);
    lemma_opponent_segments(x, y, dir_code, jumping_flag, frame, last_dir_code);
}

} // verus!
