use item_wars::client::{
    apply_opponent_snapshot, extract_spawns, phase_step, push_opponent_fix, reconcile_opponent,
    ClientEvent, ClientPhase,
};
use item_wars::json::{emit_game, parse_game, parse_ready};
use item_wars::player::{Player, Position};
use item_wars::session::NetworkedGame;

fn two_player_game() -> NetworkedGame {
    let mut g = NetworkedGame::new("1".to_string());
    g.join("alice".to_string());
    g.join("bob".to_string());
    g
}

#[test]
fn phase_transitions_in_order() {
    let p0 = ClientPhase::Connecting;
    let p1 = phase_step(p0, ClientEvent::Joined);
    assert_eq!(p1, ClientPhase::AwaitingStart);
    assert_eq!(phase_step(p1, ClientEvent::WorldStarted(false)), ClientPhase::AwaitingStart);
    let p2 = phase_step(p1, ClientEvent::WorldStarted(true));
    assert_eq!(p2, ClientPhase::AwaitingReady);
    assert_eq!(phase_step(p2, ClientEvent::ReadyAggregate(false)), ClientPhase::AwaitingReady);
    let p3 = phase_step(p2, ClientEvent::ReadyAggregate(true));
    assert_eq!(p3, ClientPhase::Playing);
    // Further observations no longer move the phase.
    assert_eq!(phase_step(p3, ClientEvent::Joined), ClientPhase::Playing);
}

#[test]
fn handshake_extracts_spawns() {
    let g = two_player_game();
    let ((ax, ay), (ox, oy)) = extract_spawns(&g, &"alice".to_string());
    assert_eq!((ax, ay), (100_000, 250_000));
    assert_eq!((ox, oy), (500_000, 250_000));
    let ((bx, by), (box_, boy)) = extract_spawns(&g, &"bob".to_string());
    assert_eq!((bx, by), (500_000, 250_000));
    // For bob the first differently named entry is alice.
    assert_eq!((box_, boy), (100_000, 250_000));
    let ((cx, cy), _) = extract_spawns(&g, &"carol".to_string());
    assert_eq!((cx, cy), (100_000, 100_000));
}

#[test]
fn handshake_parses_emitted_snapshot() {
    let g = two_player_game();
    let wire = emit_game(&g);
    let back = parse_game(&wire).unwrap();
    assert_eq!(back.session_id, "1");
    assert_eq!(back.players.len(), 2);
    assert_eq!(back.players[0].name, "alice");
    assert_eq!(back.players[1].name, "bob");
    assert!(back.started);
}

#[test]
fn snapshot_parser_accepts_only_canonical_text() {
    let g = two_player_game();
    let wire = emit_game(&g);
    assert!(parse_game(&wire).is_some());
    assert!(parse_game("").is_none());
    assert!(parse_game("{\"players\":[]").is_none());
    // A non-canonical number spelling is refused even though it scans.
    let padded = wire.replace("100.0", "100.00");
    assert!(parse_game(&padded).is_none());
}

#[test]
fn ready_reply_parsing() {
    assert_eq!(parse_ready("{\"ready\":true}"), Some(true));
    assert_eq!(parse_ready("{\"ready\":false}"), Some(false));
    assert_eq!(parse_ready("{\"ready\":maybe}"), None);
    assert_eq!(parse_ready(""), None);
}

#[test]
fn polled_snapshot_overwrites_opponent() {
    let mut op = Player::new(
        "bob".to_string(),
        Position { x: 500_000, y: 250_000, w: 34_000, h: 44_000 },
    );
    let v = vec![10_000i64, 20_000, 1000, 1000, 600, 250];
    apply_opponent_snapshot(&mut op, &v);
    assert_eq!(op.body.x, 10_000);
    assert_eq!(op.body.y, 20_000);
    assert!(op.dir.down);
    assert!(op.jumping);
    assert_eq!(op.current_accel, 600);
    // The animation frame stays local.
    assert_eq!(op.animation_frame, 0);
    assert_eq!(op.name, "bob");
}

#[test]
fn fix_history_keeps_last_two() {
    let mut hist: Vec<(i64, i64, i64)> = Vec::new();
    push_opponent_fix(&mut hist, 1, 1, 0);
    push_opponent_fix(&mut hist, 2, 2, 0);
    assert_eq!(hist, vec![(1, 1, 0), (2, 2, 0)]);
    push_opponent_fix(&mut hist, 3, 3, 0);
    assert_eq!(hist, vec![(2, 2, 0), (3, 3, 0)]);
}

#[test]
fn stale_opponent_is_scaled_by_ratio() {
    let mut op = Player::new(
        "bob".to_string(),
        Position { x: 100_000, y: 200_000, w: 34_000, h: 44_000 },
    );
    op.dir.left = true;
    op.last_dir.left = true;
    let mut hist = vec![(100_000i64, 200_000i64, 2000i64), (50_000, 100_000, 2000)];
    let applied = reconcile_opponent(&mut op, &mut hist);
    assert!(applied);
    // Both fixes halved, so each displayed axis is halved too.
    assert_eq!(op.body.x, 50_000);
    assert_eq!(op.body.y, 100_000);
    assert!(!op.last_dir.left);
    assert!(op.dir.left);
    assert!(hist.is_empty());
}

#[test]
fn growing_ratio_is_capped_at_base_speed() {
    let mut op = Player::new(
        "bob".to_string(),
        Position { x: 100_000, y: 100_000, w: 34_000, h: 44_000 },
    );
    op.dir.right = true;
    let mut hist = vec![(100_000i64, 100_000i64, 3000i64), (300_000, 100_000, 3000)];
    assert!(reconcile_opponent(&mut op, &mut hist));
    // The x ratio of three is capped at one, so the position keeps still.
    assert_eq!(op.body.x, 100_000);
    assert_eq!(op.body.y, 100_000);
}

#[test]
fn standing_opponent_is_not_estimated() {
    let mut op = Player::new(
        "bob".to_string(),
        Position { x: 100_000, y: 100_000, w: 34_000, h: 44_000 },
    );
    let mut hist = vec![(100_000i64, 100_000i64, 3000i64), (50_000, 50_000, 3000)];
    assert!(!reconcile_opponent(&mut op, &mut hist));
    assert_eq!(op.body.x, 100_000);
    assert_eq!(hist.len(), 2);
}
