use item_wars::codec::{decode_request, encode_request};
use item_wars::direction::Direction;
use item_wars::numfmt::{fmt_milli, i64_to_string, parse_milli, u64_to_string};
use item_wars::NetActions;

#[test]
fn request_round_trip() {
    let s = encode_request(&"7".to_string(), &"alice".to_string(), 3, &"".to_string());
    assert_eq!(s, "7:alice:3:");
    let r = decode_request(&s).unwrap();
    assert_eq!(r.game_id, "7");
    assert_eq!(r.player, "alice");
    assert_eq!(r.code, 3);
    assert_eq!(r.meta, "");
}

#[test]
fn request_round_trip_with_meta() {
    let s = encode_request(
        &"12".to_string(),
        &"bob".to_string(),
        1,
        &"[10.0,20.0,1.0,0.0,0.25,2.0]".to_string(),
    );
    let r = decode_request(&s).unwrap();
    assert_eq!(r.game_id, "12");
    assert_eq!(r.player, "bob");
    assert_eq!(r.code, 1);
    assert_eq!(r.meta, "[10.0,20.0,1.0,0.0,0.25,2.0]");
}

#[test]
fn decode_rejects_short_and_bad_code() {
    assert!(decode_request("junk").is_none());
    assert!(decode_request("1:alice").is_none());
    assert!(decode_request("1:alice:x:meta").is_none());
    assert!(decode_request("1:alice::meta").is_none());
}

#[test]
fn decode_truncates_meta_at_extra_colon() {
    let r = decode_request("1:bob:5:a:b").unwrap();
    assert_eq!(r.meta, "a");
}

#[test]
fn action_code_mapping() {
    assert_eq!(NetActions::from_usize(1), NetActions::Sendposition);
    assert_eq!(NetActions::from_usize(2), NetActions::Newgame);
    assert_eq!(NetActions::from_usize(3), NetActions::Listgames);
    assert_eq!(NetActions::from_usize(4), NetActions::Ready);
    assert_eq!(NetActions::from_usize(5), NetActions::Getworld);
    assert_eq!(NetActions::from_usize(6), NetActions::Getopponent);
    assert_eq!(NetActions::from_usize(7), NetActions::Joingame);
    assert_eq!(NetActions::from_usize(8), NetActions::GetopponentName);
    assert_eq!(NetActions::from_usize(0), NetActions::Unknown);
    assert_eq!(NetActions::from_usize(42), NetActions::Unknown);
    for c in 1usize..=8 {
        assert_eq!(NetActions::from_usize(c).to_usize(), c);
    }
    assert_eq!(NetActions::from_string("joingame".to_string()), NetActions::Joingame);
    assert_eq!(NetActions::from_string("nonsense".to_string()), NetActions::Unknown);
    assert_eq!(NetActions::from_string("listgames".to_string()).to_usize(), 3);
}

#[test]
fn direction_decode_buckets() {
    let up = Direction { up: true, down: false, left: false, right: false };
    let down = Direction { up: false, down: true, left: false, right: false };
    let left = Direction { up: false, down: false, left: true, right: false };
    let right = Direction { up: false, down: false, left: false, right: true };
    assert_eq!(Direction::from_code_milli(0), up);
    assert_eq!(Direction::from_code_milli(500), down);
    assert_eq!(Direction::from_code_milli(1000), down);
    assert_eq!(Direction::from_code_milli(1999), down);
    assert_eq!(Direction::from_code_milli(2000), left);
    assert_eq!(Direction::from_code_milli(2500), left);
    assert_eq!(Direction::from_code_milli(3000), right);
    assert_eq!(Direction::from_code_milli(7000), right);
    assert_eq!(Direction::from_code_milli(-500), right);
}

#[test]
fn direction_code_idempotent() {
    for code in [0i64, 1000, 2000, 3000] {
        let d = Direction::from_code_milli(code);
        assert_eq!(d.to_code_milli(), code);
        assert_eq!(Direction::from_code_milli(d.to_code_milli()), d);
    }
    let standing = Direction { up: false, down: false, left: false, right: false };
    assert_eq!(standing.to_code_milli(), 3000);
}

#[test]
fn milli_formatting() {
    assert_eq!(fmt_milli(1500), "1.5");
    assert_eq!(fmt_milli(250), "0.25");
    assert_eq!(fmt_milli(100_000), "100.0");
    assert_eq!(fmt_milli(0), "0.0");
    assert_eq!(fmt_milli(-500), "-0.5");
    assert_eq!(fmt_milli(123), "0.123");
    assert_eq!(fmt_milli(40), "0.04");
    assert_eq!(fmt_milli(400), "0.4");
}

#[test]
fn milli_parsing() {
    assert_eq!(parse_milli("10.0"), Some(10_000));
    assert_eq!(parse_milli("0.25"), Some(250));
    assert_eq!(parse_milli("3"), Some(3000));
    assert_eq!(parse_milli("-0.5"), Some(-500));
    assert_eq!(parse_milli("640.0"), Some(640_000));
    assert_eq!(parse_milli(""), None);
    assert_eq!(parse_milli("abc"), None);
    assert_eq!(parse_milli("1.2345"), None);
    assert_eq!(parse_milli("1."), None);
    assert_eq!(parse_milli("1.0.0"), None);
    for v in [0i64, 1, -1, 999, 1000, 123_456, -987_654, 100_000] {
        assert_eq!(parse_milli(&fmt_milli(v)), Some(v));
    }
}

#[test]
fn whole_number_formatting() {
    assert_eq!(u64_to_string(0), "0");
    assert_eq!(u64_to_string(7), "7");
    assert_eq!(u64_to_string(1234), "1234");
    assert_eq!(i64_to_string(-45), "-45");
    assert_eq!(i64_to_string(100), "100");
}
