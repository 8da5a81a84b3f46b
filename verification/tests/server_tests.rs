use item_wars::codec::encode_request;
use item_wars::json::{parse_game, parse_opponent};
use item_wars::registry::GameServer;

fn req(game_id: &str, player: &str, code: u64, meta: &str) -> String {
    encode_request(&game_id.to_string(), &player.to_string(), code, &meta.to_string())
}

fn fresh_server() -> GameServer {
    GameServer::new("localhost:7878".to_string())
}

#[test]
fn new_game_mints_sequential_ids() {
    let mut server = fresh_server();
    assert_eq!(server.handle_request(&req("", "", 2, "")), Some("1".to_string()));
    assert_eq!(server.handle_request(&req("", "", 2, "")), Some("2".to_string()));
    assert_eq!(server.handle_request(&req("", "", 2, "")), Some("3".to_string()));
}

#[test]
fn scenario_two_joins_start_game() {
    let mut server = fresh_server();
    server.handle_request(&req("", "", 2, ""));
    let first = server.handle_request(&req("1", "alice", 7, "")).unwrap();
    let g1 = parse_game(&first).unwrap();
    assert!(!g1.started);
    assert_eq!(g1.players.len(), 1);
    let second = server.handle_request(&req("1", "bob", 7, "")).unwrap();
    let g2 = parse_game(&second).unwrap();
    assert!(g2.started);
    let world = server.handle_request(&req("1", "alice", 5, "")).unwrap();
    let g = parse_game(&world).unwrap();
    assert!(g.started);
    assert!(!g.completed);
    assert_eq!(g.session_id, "1");
    assert_eq!(g.players.len(), 2);
    assert_eq!(g.players[0].name, "alice");
    assert_eq!(g.players[0].body.x, 100_000);
    assert_eq!(g.players[0].body.y, 250_000);
    assert_eq!(g.players[1].name, "bob");
    assert_eq!(g.players[1].body.x, 500_000);
    assert_eq!(g.players[1].body.y, 250_000);
}

#[test]
fn scenario_third_join_is_refused() {
    let mut server = fresh_server();
    server.handle_request(&req("", "", 2, ""));
    server.handle_request(&req("1", "alice", 7, ""));
    server.handle_request(&req("1", "bob", 7, ""));
    let refused = server.handle_request(&req("1", "carol", 7, ""));
    assert_eq!(refused, None);
    let world = server.handle_request(&req("1", "alice", 5, "")).unwrap();
    let g = parse_game(&world).unwrap();
    assert_eq!(g.players.len(), 2);
    assert!(g.started);
    assert_eq!(g.players[0].name, "alice");
    assert_eq!(g.players[1].name, "bob");
}

#[test]
fn scenario_send_position_updates_one_player() {
    let mut server = fresh_server();
    server.handle_request(&req("", "", 2, ""));
    server.handle_request(&req("1", "alice", 7, ""));
    server.handle_request(&req("1", "bob", 7, ""));
    let silent = server.handle_request(&req("1", "alice", 1, "[10.0,20.0,1.0,0.0,0.25,2.0]"));
    assert_eq!(silent, None);
    let world = server.handle_request(&req("1", "alice", 5, "")).unwrap();
    let g = parse_game(&world).unwrap();
    let alice = &g.players[0];
    assert_eq!(alice.name, "alice");
    assert_eq!(alice.body.x, 10_000);
    assert_eq!(alice.body.y, 20_000);
    assert!(alice.dir.down && !alice.dir.up && !alice.dir.left && !alice.dir.right);
    assert!(!alice.jumping);
    assert_eq!(alice.animation_frame, 250);
    assert!(alice.last_dir.left && !alice.last_dir.right);
    let bob = &g.players[1];
    assert_eq!(bob.name, "bob");
    assert_eq!(bob.body.x, 500_000);
    assert_eq!(bob.body.y, 250_000);
    assert!(!bob.dir.down && !bob.dir.up && !bob.dir.left && !bob.dir.right);
}

#[test]
fn scenario_list_games_hides_started() {
    let mut server = fresh_server();
    server.handle_request(&req("", "", 2, ""));
    server.handle_request(&req("", "", 2, ""));
    server.handle_request(&req("", "", 2, ""));
    server.handle_request(&req("1", "alice", 7, ""));
    server.handle_request(&req("1", "bob", 7, ""));
    server.handle_request(&req("2", "carol", 7, ""));
    let listing = server.handle_request(&req("", "", 3, "")).unwrap();
    assert_eq!(listing, "[[\"2\", \"1\"], [\"3\", \"0\"]]");
}

#[test]
fn list_games_empty_registry() {
    let mut server = fresh_server();
    assert_eq!(server.handle_request(&req("", "", 3, "")), Some("[]".to_string()));
}

#[test]
fn ready_aggregate_both_orders() {
    let mut server = fresh_server();
    server.handle_request(&req("", "", 2, ""));
    server.handle_request(&req("1", "alice", 7, ""));
    server.handle_request(&req("1", "bob", 7, ""));
    let r1 = server.handle_request(&req("1", "alice", 4, "")).unwrap();
    assert_eq!(r1, "{\"ready\":false}");
    let r2 = server.handle_request(&req("1", "bob", 4, "")).unwrap();
    assert_eq!(r2, "{\"ready\":true}");
    let again = server.handle_request(&req("1", "alice", 4, "")).unwrap();
    assert_eq!(again, "{\"ready\":true}");

    let mut other = fresh_server();
    other.handle_request(&req("", "", 2, ""));
    other.handle_request(&req("1", "alice", 7, ""));
    other.handle_request(&req("1", "bob", 7, ""));
    assert_eq!(other.handle_request(&req("1", "bob", 4, "")), Some("{\"ready\":false}".to_string()));
    assert_eq!(
        other.handle_request(&req("1", "alice", 4, "")),
        Some("{\"ready\":true}".to_string())
    );
}

#[test]
fn opponent_queries() {
    let mut server = fresh_server();
    server.handle_request(&req("", "", 2, ""));
    server.handle_request(&req("1", "alice", 7, ""));
    server.handle_request(&req("1", "bob", 7, ""));
    let name = server.handle_request(&req("1", "alice", 8, "")).unwrap();
    assert_eq!(name, "bob");
    let vec_reply = server.handle_request(&req("1", "alice", 6, "")).unwrap();
    assert_eq!(vec_reply, "{\"opponent\":[500.0,250.0,3.0,0.0,0.4,0.0]}");
    let values = parse_opponent(&vec_reply).unwrap();
    assert_eq!(values, vec![500_000, 250_000, 3000, 0, 400, 0]);
}

#[test]
fn lookup_misses_send_nothing() {
    let mut server = fresh_server();
    assert_eq!(server.handle_request(&req("9", "alice", 5, "")), None);
    assert_eq!(server.handle_request(&req("9", "alice", 7, "")), None);
    assert_eq!(server.handle_request(&req("9", "alice", 4, "")), None);
    assert_eq!(server.handle_request(&req("9", "alice", 6, "")), None);
    assert_eq!(server.handle_request(&req("9", "alice", 8, "")), None);
    server.handle_request(&req("", "", 2, ""));
    server.handle_request(&req("1", "alice", 7, ""));
    // A session of one player has no opponent for its only member.
    assert_eq!(server.handle_request(&req("1", "alice", 6, "")), None);
    assert_eq!(server.handle_request(&req("1", "alice", 8, "")), None);
}

#[test]
fn unknown_codes_get_rejection_text() {
    let mut server = fresh_server();
    assert_eq!(server.handle_request(&req("1", "alice", 9, "")), Some("Invalid Command".to_string()));
    assert_eq!(server.handle_request(&req("1", "alice", 0, "")), Some("Invalid Command".to_string()));
    assert_eq!(server.handle_request(&req("1", "alice", 42, "")), Some("Invalid Command".to_string()));
}

#[test]
fn malformed_datagrams_are_swallowed() {
    let mut server = fresh_server();
    server.handle_request(&req("", "", 2, ""));
    assert_eq!(server.handle_request("garbage"), None);
    assert_eq!(server.handle_request("1:alice"), None);
    assert_eq!(server.handle_request("1:alice:xyz:"), None);
    // Malformed metadata of a position update is dropped without a crash.
    assert_eq!(server.handle_request(&req("1", "alice", 1, "not-json")), None);
    assert_eq!(server.handle_request(&req("1", "alice", 1, "[1.0,2.0]")), None);
    // The registry still answers afterwards.
    assert_eq!(server.handle_request(&req("", "", 3, "")), Some("[[\"1\", \"0\"]]".to_string()));
}
