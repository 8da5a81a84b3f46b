use item_wars::json::{emit_game, emit_ready, parse_milli_array};
use item_wars::player::{Player, Position};
use item_wars::session::NetworkedGame;

#[test]
fn join_caps_at_two_players() {
    let mut g = NetworkedGame::new("5".to_string());
    assert!(!g.started);
    assert!(g.join("alice".to_string()));
    assert_eq!(g.players.len(), 1);
    assert!(!g.started);
    assert!(g.join("bob".to_string()));
    assert_eq!(g.players.len(), 2);
    assert!(g.started);
    assert!(!g.join("carol".to_string()));
    assert_eq!(g.players.len(), 2);
    assert!(g.started);
    assert_eq!(g.players[0].name, "alice");
    assert_eq!(g.players[1].name, "bob");
}

#[test]
fn joiners_take_left_then_right_spawn() {
    let mut g = NetworkedGame::new("5".to_string());
    g.join("alice".to_string());
    g.join("bob".to_string());
    assert_eq!(g.players[0].body, Position { x: 100_000, y: 250_000, w: 34_000, h: 44_000 });
    assert_eq!(g.players[1].body, Position { x: 500_000, y: 250_000, w: 34_000, h: 44_000 });
    assert_eq!(g.players[0].hp, 100);
    assert_eq!(g.players[0].mp, 30);
    assert_eq!(g.players[0].str, 10);
    assert_eq!(g.players[0].current_accel, 400);
    assert!(!g.players[0].ready);
}

#[test]
fn ready_aggregate_needs_both() {
    let mut g = NetworkedGame::new("5".to_string());
    g.join("alice".to_string());
    g.join("bob".to_string());
    assert!(!g.mark_ready(&"alice".to_string()));
    assert!(g.mark_ready(&"bob".to_string()));
    // Idempotent: repeating still reports the aggregate.
    assert!(g.mark_ready(&"alice".to_string()));
    // A lone player never reaches the aggregate.
    let mut solo = NetworkedGame::new("6".to_string());
    solo.join("carol".to_string());
    assert!(!solo.mark_ready(&"carol".to_string()));
}

#[test]
fn position_update_leaves_other_player_alone() {
    let mut g = NetworkedGame::new("5".to_string());
    g.join("alice".to_string());
    g.join("bob".to_string());
    let before_bob = g.players[1].clone();
    assert!(g.update_position(&"alice".to_string(), 10_000, 20_000, 1000, 0, 250, 2000));
    let alice = &g.players[0];
    assert_eq!(alice.body.x, 10_000);
    assert_eq!(alice.body.y, 20_000);
    assert_eq!(alice.body.w, 34_000);
    assert_eq!(alice.body.h, 44_000);
    assert!(alice.dir.down);
    assert!(!alice.jumping);
    assert_eq!(alice.animation_frame, 250);
    assert!(alice.last_dir.left);
    assert_eq!(alice.hp, 100);
    let bob = &g.players[1];
    assert_eq!(bob.body.x, before_bob.body.x);
    assert_eq!(bob.body.y, before_bob.body.y);
    assert_eq!(bob.name, before_bob.name);
    assert_eq!(bob.animation_frame, before_bob.animation_frame);
    // An unknown name changes nothing.
    assert!(!g.update_position(&"carol".to_string(), 1, 2, 3, 4, 5, 6));
    assert_eq!(g.players[0].body.x, 10_000);
}

#[test]
fn snapshot_text_of_empty_game() {
    let g = NetworkedGame::new("9".to_string());
    assert_eq!(
        emit_game(&g),
        "{\"players\":[],\"session_id\":\"9\",\"started\":false,\"completed\":false}"
    );
}

#[test]
fn snapshot_text_of_one_player() {
    let mut g = NetworkedGame::new("2".to_string());
    g.join("zed".to_string());
    let mut expected = String::new();
    expected.push_str("{\"players\":[");
    expected.push_str("{\"body\":{\"x\":100.0,\"y\":250.0,\"w\":34.0,\"h\":44.0},");
    expected.push_str("\"dir\":{\"up\":false,\"down\":false,\"left\":false,\"right\":false},");
    expected.push_str("\"last_dir\":{\"up\":false,\"down\":false,\"left\":false,\"right\":false},");
    expected.push_str("\"name\":\"zed\",\"hp\":100,\"mp\":30,\"str\":10,\"current_accel\":0.4,");
    expected.push_str("\"jumping\":false,\"jump_offset\":0.0,\"ready\":false,\"jump_direction\":true,");
    expected.push_str("\"animation_frame\":0.0}");
    expected.push_str("],\"session_id\":\"2\",\"started\":false,\"completed\":false}");
    assert_eq!(emit_game(&g), expected);
}

#[test]
fn ready_reply_text() {
    assert_eq!(emit_ready(true), "{\"ready\":true}");
    assert_eq!(emit_ready(false), "{\"ready\":false}");
}

#[test]
fn metadata_array_parsing() {
    assert_eq!(
        parse_milli_array("[10.0,20.0,1.0,0.0,0.25,2.0]"),
        Some(vec![10_000i64, 20_000, 1000, 0, 250, 2000])
    );
    assert_eq!(parse_milli_array("[3]"), Some(vec![3000i64]));
    assert_eq!(parse_milli_array("[]"), None);
    assert_eq!(parse_milli_array("[1.0,"), None);
    assert_eq!(parse_milli_array("1.0,2.0"), None);
    assert_eq!(parse_milli_array("[1.0,x]"), None);
}

#[test]
fn player_simulation_steps() {
    let mut p = Player::new(
        "alice".to_string(),
        Position { x: 100_000, y: 250_000, w: 34_000, h: 44_000 },
    );
    assert!(!p.is_moving());
    p.dir.right = true;
    assert!(p.is_moving());
    p.update(true);
    // Acceleration grew by one increment and the body moved by speed plus it.
    assert_eq!(p.current_accel, 600);
    assert_eq!(p.body.x, 101_600);
    assert!(p.last_dir.right);
    // Releasing the key lets the player coast once, with friction draining.
    p.dir.right = false;
    p.update(true);
    assert_eq!(p.body.x, 103_200);
    assert_eq!(p.current_accel, -400);
    // At the coasting floor nothing moves any more.
    let x = p.body.x;
    p.update(true);
    assert_eq!(p.body.x, x);
}

#[test]
fn jump_arc_rises_holds_and_lands() {
    let mut p = Player::new(
        "alice".to_string(),
        Position { x: 100_000, y: 250_000, w: 34_000, h: 44_000 },
    );
    p.jumping = true;
    let mut offsets = Vec::new();
    for _ in 0..13 {
        p.update(false);
        offsets.push(p.jump_offset);
    }
    assert_eq!(
        offsets,
        vec![100, 200, 300, 400, 500, 500, 400, 300, 200, 100, 0, 0, 0]
    );
    assert!(!p.jumping);
}

#[test]
fn animation_cycle_wraps() {
    let mut p = Player::new(
        "alice".to_string(),
        Position { x: 100_000, y: 250_000, w: 34_000, h: 44_000 },
    );
    p.dir.up = true;
    assert_eq!(p.get_animation_direction(), 250);
    p.animate_frames(true);
    assert_eq!(p.animation_frame, 250);
    p.animate_frames(false);
    assert_eq!(p.animation_frame, 250);
    p.animate_frames(true);
    p.animate_frames(true);
    assert_eq!(p.animation_frame, 750);
    p.animate_frames(true);
    assert_eq!(p.animation_frame, 0);
}

#[test]
fn rectangle_overlap_is_collision_not_equality() {
    let a = Position { x: 0, y: 0, w: 10_000, h: 10_000 };
    let b = Position { x: 5_000, y: 5_000, w: 10_000, h: 10_000 };
    let c = Position { x: 50_000, y: 0, w: 10_000, h: 10_000 };
    assert!(a.overlaps(&b));
    assert!(b.overlaps(&a));
    assert!(!a.overlaps(&c));
    assert_ne!(a, b);
}
