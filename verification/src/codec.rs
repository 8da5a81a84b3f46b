//! The request datagram format: four colon-separated fields.
//!
//! A request travels as `sessionId:playerName:actionCode:metadata`.  Decoding
//! splits on the first three colons and reads the third field as a decimal
//! action code; anything after a fourth colon is discarded, so metadata that
//! itself contains the delimiter does not survive the trip.

use vstd::prelude::*;
use vstd::string::{StrSliceExecFns, StringExecFns};
use crate::text::{spec_find, find_char, lemma_find_over_concat, lemma_find_unique};
use crate::numfmt::{
    spec_udec,
    spec_dec_val,
    spec_dec_valid,
    spec_all_digits,
    spec_is_digit,
    parse_digits,
    u64_to_string,
    lemma_udec_digits,
    lemma_udec_val,
    lemma_udec_len,
    lemma_pow10_concrete,
    pow10,
};

verus! {

/// One decoded request: who sent it, for which session, and what it asks.
/// The action code is kept raw; codes outside `1..=8` dispatch as unknown.
pub struct WireRequest {
    pub game_id: String,
    pub player: String,
    pub code: u64,
    pub meta: String,
}

/// Whether the delimiter of the wire format occurs nowhere in `s`.
pub open spec fn colon_free(s: Seq<char>) -> bool {
    forall|i: int| 0 <= i < s.len() ==> s[i] != ':'
}

/// The datagram text of a request: the four fields joined by colons, the
/// action code printed in decimal.
pub open spec fn spec_encode_request(
    game_id: Seq<char>,
    player: Seq<char>,
    code: nat,
    meta: Seq<char>,
) -> Seq<char> {
    game_id + seq![':'] + player + seq![':'] + spec_udec(code) + seq![':'] + meta
}

/// The four fields a datagram splits into at its first three colons, or
/// nothing when it has fewer than three.  Text after a fourth colon is
/// dropped, as the dispatcher reads only the fourth field.
pub open spec fn spec_split4(s: Seq<char>) -> Option<(Seq<char>, Seq<char>, Seq<char>, Seq<char>)> {
    let i1 = spec_find(s, ':');
    if i1 == s.len() {
        None
    } else {
        let r1 = s.skip(i1 + 1);
        let i2 = spec_find(r1, ':');
        if i2 == r1.len() {
            None
        } else {
            let r2 = r1.skip(i2 + 1);
            let i3 = spec_find(r2, ':');
            if i3 == r2.len() {
                None
            } else {
                let r3 = r2.skip(i3 + 1);
                let i4 = spec_find(r3, ':');
                Some((s.take(i1), r1.take(i2), r2.take(i3), r3.take(i4)))
            }
        }
    }
}

/// What a datagram decodes to: its four fields, with the third read as a
/// decimal action code; or nothing when a field or the code is malformed.
pub open spec fn spec_decode_request(s: Seq<char>) -> Option<(Seq<char>, Seq<char>, nat, Seq<char>)> {
    match spec_split4(s) {
        None => None,
        Some((g, p, tok, m)) => if spec_dec_valid(tok, 18) {
            Some((g, p, spec_dec_val(tok), m))
        } else {
            None
        },
    }
}

/// Builds the datagram text of a request.
pub fn encode_request(game_id: &String, player: &String, code: u64, meta: &String) -> (s: String)
    ensures
        s@ == spec_encode_request(game_id@, player@, code as nat, meta@),
{
    proof {
        reveal_strlit(":");
        assert(":"@ =~= seq![':']);
    }
    let mut s = game_id.clone();
    s.append(":");
    s.append(player.as_str());
    s.append(":");
    s.append(u64_to_string(code).as_str());
    s.append(":");
    s.append(meta.as_str());
    proof {
        assert(s@ =~= spec_encode_request(game_id@, player@, code as nat, meta@));
    }
    s
}

/// Splits a datagram into a request; rejects one with fewer than three
/// colons or a third field that is not a decimal number.
pub fn decode_request(s: &str) -> (r: Option<WireRequest>)
    ensures
        r is Some <==> spec_decode_request(s@) is Some,
        r is Some ==> {
            let (g, p, c, m) = spec_decode_request(s@)->0;
            &&& r->0.game_id@ == g
            &&& r->0.player@ == p
            &&& r->0.code as nat == c
            &&& r->0.meta@ == m
        },
{
    let n = s.unicode_len();
    let i1 = find_char(s, 0, ':');
    proof {
        assert(s@.skip(0) =~= s@);
    }
    if i1 == n {
        return None;
    }
    let i2 = find_char(s, i1 + 1, ':');
    let ghost r1 = s@.skip(i1 + 1);
    if i2 == n {
        return None;
    }
    let i3 = find_char(s, i2 + 1, ':');
    let ghost r2 = r1.skip(i2 - i1);
    proof {
        assert(r2 =~= s@.skip(i2 + 1));
    }
    if i3 == n {
        return None;
    }
    let i4 = find_char(s, i3 + 1, ':');
    let ghost r3 = r2.skip(i3 - i2);
    proof {
        assert(r3 =~= s@.skip(i3 + 1));
    }
    let g = s.substring_char(0, i1);
    let p = s.substring_char(i1 + 1, i2);
    let tok = s.substring_char(i2 + 1, i3);
    let m = s.substring_char(i3 + 1, i4);
    proof {
        assert(g@ =~= s@.take(i1 as int));
        assert(p@ =~= r1.take(i2 - i1 - 1));
        assert(tok@ =~= r2.take(i3 - i2 - 1));
        assert(m@ =~= r3.take(i4 - i3 - 1));
    }
    match parse_digits(tok, 18) {
        Some(code) => Some(
            WireRequest {
                game_id: String::from_str(g),
                player: String::from_str(p),
                code,
                meta: String::from_str(m),
            },
        ),
        None => None,
    }
}

/// A digit is never the field delimiter.
proof fn lemma_digits_colon_free(s: Seq<char>)
    requires
        spec_all_digits(s),
    ensures
        colon_free(s),
{
    assert forall|i: int| 0 <= i < s.len() implies s[i] != ':' by {
        assert(spec_is_digit(s[i]));
        assert(':' as int == 58);
    }
}

/// Decoding an encoded request recovers its four fields exactly, for every
/// session id, player name and metadata that avoid the colon delimiter and
/// every action code the wire can print in eighteen digits.
pub proof fn lemma_request_round_trip(
    game_id: Seq<char>,
    player: Seq<char>,
    code: nat,
    meta: Seq<char>,
)
    requires
        colon_free(game_id),
        colon_free(player),
        colon_free(meta),
        code < pow10(18),
    ensures
        spec_decode_request(spec_encode_request(game_id, player, code, meta)) == Some(
            (game_id, player, code, meta),
        ),
{
    let d = spec_udec(code);
    lemma_udec_digits(code);
    lemma_udec_val(code);
    lemma_udec_len(code, 18);
    lemma_pow10_concrete();
    lemma_digits_colon_free(d);
    let s = spec_encode_request(game_id, player, code, meta);
    let rest1 = seq![':'] + player + seq![':'] + d + seq![':'] + meta;
    assert(s =~= game_id + rest1);
    lemma_find_over_concat(game_id, rest1, ':');
    assert(rest1[0] == ':');
    let i1 = spec_find(s, ':');
    assert(i1 == game_id.len());
    assert(s.take(i1) =~= game_id);
    let r1 = s.skip(i1 + 1);
    let rest2 = seq![':'] + d + seq![':'] + meta;
    assert(r1 =~= player + rest2);
    lemma_find_over_concat(player, rest2, ':');
    assert(rest2[0] == ':');
    let i2 = spec_find(r1, ':');
    assert(i2 == player.len());
    assert(r1.take(i2) =~= player);
    let r2 = r1.skip(i2 + 1);
    let rest3 = seq![':'] + meta;
    assert(r2 =~= d + rest3);
    lemma_find_over_concat(d, rest3, ':');
    assert(rest3[0] == ':');
    let i3 = spec_find(r2, ':');
    assert(i3 == d.len());
    assert(r2.take(i3) =~= d);
    let r3 = r2.skip(i3 + 1);
    assert(r3 =~= meta);
    lemma_find_unique(meta, ':', meta.len() as int);
    let i4 = spec_find(r3, ':');
    assert(i4 == meta.len());
    assert(r3.take(i4) =~= meta);
    assert(spec_dec_valid(d, 18));
}

} // verus!
