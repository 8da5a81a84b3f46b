//! Decimal text for the wire: whole numbers and fixed-point thousandths.
//!
//! Replies print session ids, player counts and coordinates in decimal
//! notation; requests carry coordinates the same way.  A fixed-point value in
//! thousandths is printed as integer part, a dot, and the fraction with
//! trailing zeros trimmed (but at least one digit): `1500` prints as `"1.5"`,
//! `250` as `"0.25"`, `100000` as `"100.0"`.

use vstd::prelude::*;
use vstd::string::{StrSliceExecFns, StringExecFns};
use crate::text::{spec_find, find_char};

verus! {

/// The character of a decimal digit value.
pub open spec fn spec_digit_char(d: int) -> char {
    if d == 0 {
        '0'
    } else if d == 1 {
        '1'
    } else if d == 2 {
        '2'
    } else if d == 3 {
        '3'
    } else if d == 4 {
        '4'
    } else if d == 5 {
        '5'
    } else if d == 6 {
        '6'
    } else if d == 7 {
        '7'
    } else if d == 8 {
        '8'
    } else {
        '9'
    }
}

/// Whether `c` is a decimal digit.
pub open spec fn spec_is_digit(c: char) -> bool {
    48 <= c as int <= 57
}

/// The value of a digit character.
pub open spec fn spec_digit_val(c: char) -> int {
    c as int - 48
}

/// Whether every character of `s` is a decimal digit.
pub open spec fn spec_all_digits(s: Seq<char>) -> bool {
    forall|i: int| 0 <= i < s.len() ==> spec_is_digit(s[i])
}

/// The decimal digits of `n`, most significant first, without leading zeros
/// (`0` prints as `"0"`).
pub open spec fn spec_udec(n: nat) -> Seq<char>
    decreases n,
{
    if n < 10 {
        seq![spec_digit_char(n as int)]
    } else {
        spec_udec(n / 10) + seq![spec_digit_char((n % 10) as int)]
    }
}

/// The decimal text of a possibly negative whole number.
pub open spec fn spec_idec(v: int) -> Seq<char> {
    if v < 0 {
        seq!['-'] + spec_udec((-v) as nat)
    } else {
        spec_udec(v as nat)
    }
}

/// The number a digit string denotes.
pub open spec fn spec_dec_val(s: Seq<char>) -> nat
    decreases s.len(),
{
    if s.len() == 0 {
        0
    } else {
        spec_dec_val(s.drop_last()) * 10 + spec_digit_val(s.last()) as nat
    }
}

/// Ten to the `n`.
pub open spec fn pow10(n: nat) -> nat
    decreases n,
{
    if n == 0 {
        1
    } else {
        10 * pow10((n - 1) as nat)
    }
}

/// The concrete powers of ten the parsers bound their digit counts by.
pub proof fn lemma_pow10_concrete()
    ensures
        pow10(0) == 1,
        pow10(1) == 10,
        pow10(2) == 100,
        pow10(3) == 1000,
        pow10(15) == 1000000000000000,
        pow10(17) == 100000000000000000,
        pow10(18) == 1000000000000000000,
{
    reveal_with_fuel(pow10, 19);
}

pub proof fn lemma_pow10_mono(a: nat, b: nat)
    requires
        a <= b,
    ensures
        pow10(a) <= pow10(b),
    decreases b,
{
    if a < b {
        lemma_pow10_mono(a, (b - 1) as nat);
    }
}

/// A printed number consists of digits alone.
pub proof fn lemma_udec_digits(n: nat)
    ensures
        spec_udec(n).len() >= 1,
        spec_all_digits(spec_udec(n)),
    decreases n,
{
    if n >= 10 {
        lemma_udec_digits(n / 10);
        assert forall|i: int| 0 <= i < spec_udec(n).len() implies spec_is_digit(spec_udec(n)[i]) by {
            if i < spec_udec(n / 10).len() {
                assert(spec_udec(n)[i] == spec_udec(n / 10)[i]);
            }
        }
    }
}

/// Reading back a printed number recovers it.
pub proof fn lemma_udec_val(n: nat)
    ensures
        spec_dec_val(spec_udec(n)) == n,
    decreases n,
{
    if n < 10 {
        assert(spec_udec(n).drop_last() =~= Seq::<char>::empty());
    } else {
        lemma_udec_val(n / 10);
        assert(spec_udec(n).drop_last() =~= spec_udec(n / 10));
        assert(spec_udec(n).last() == spec_digit_char((n % 10) as int));
    }
}

/// A printed number has as many digits as its magnitude asks for.
pub proof fn lemma_udec_len(n: nat, k: nat)
    requires
        n < pow10(k),
        k >= 1,
    ensures
        spec_udec(n).len() <= k,
    decreases n,
{
    if n >= 10 {
        lemma_udec_len(n / 10, (k - 1) as nat);
    }
}

/// The digit character of a value below ten, as a one-character string slice.
fn digit_str(d: u64) -> (s: &'static str)
    requires
        d < 10,
    ensures
        s@ == seq![spec_digit_char(d as int)],
{
    if d == 0 {
        proof {
            reveal_strlit("0");
            assert("0"@ =~= seq![spec_digit_char(0)]);
        }
        "0"
    } else if d == 1 {
        proof {
            reveal_strlit("1");
            assert("1"@ =~= seq![spec_digit_char(1)]);
        }
        "1"
    } else if d == 2 {
        proof {
            reveal_strlit("2");
            assert("2"@ =~= seq![spec_digit_char(2)]);
        }
        "2"
    } else if d == 3 {
        proof {
            reveal_strlit("3");
            assert("3"@ =~= seq![spec_digit_char(3)]);
        }
        "3"
    } else if d == 4 {
        proof {
            reveal_strlit("4");
            assert("4"@ =~= seq![spec_digit_char(4)]);
        }
        "4"
    } else if d == 5 {
        proof {
            reveal_strlit("5");
            assert("5"@ =~= seq![spec_digit_char(5)]);
        }
        "5"
    } else if d == 6 {
        proof {
            reveal_strlit("6");
            assert("6"@ =~= seq![spec_digit_char(6)]);
        }
        "6"
    } else if d == 7 {
        proof {
            reveal_strlit("7");
            assert("7"@ =~= seq![spec_digit_char(7)]);
        }
        "7"
    } else if d == 8 {
        proof {
            reveal_strlit("8");
            assert("8"@ =~= seq![spec_digit_char(8)]);
        }
        "8"
    } else {
        proof {
            reveal_strlit("9");
            assert("9"@ =~= seq![spec_digit_char(9)]);
        }
        "9"
    }
}

/// Prints a whole number in decimal.
pub fn u64_to_string(n: u64) -> (s: String)
    ensures
        s@ == spec_udec(n as nat),
    decreases n,
{
    if n < 10 {
        String::from_str(digit_str(n))
    } else {
        let mut s = u64_to_string(n / 10);
        s.append(digit_str(n % 10));
        s
    }
}

/// Prints a possibly negative whole number in decimal.
pub fn i64_to_string(v: i64) -> (s: String)
    ensures
        s@ == spec_idec(v as int),
{
    if v < 0 {
        let a = ((-(v + 1)) as u64) + 1;
        let mut s = String::from_str("-");
        proof {
            reveal_strlit("-");
            assert("-"@ =~= seq!['-']);
        }
        s.append(u64_to_string(a).as_str());
        s
    } else {
        u64_to_string(v as u64)
    }
}

/// Whether `s` is a plain digit string of at most `max_len` digits.
pub open spec fn spec_dec_valid(s: Seq<char>, max_len: int) -> bool {
    1 <= s.len() <= max_len && spec_all_digits(s)
}

/// Reads a digit string of at most `max_len` digits; rejects anything else.
pub fn parse_digits(s: &str, max_len: usize) -> (r: Option<u64>)
    requires
        max_len <= 18,
    ensures
        r is Some <==> spec_dec_valid(s@, max_len as int),
        r is Some ==> r->0 as nat == spec_dec_val(s@),
{
    let n = s.unicode_len();
    if n == 0 || n > max_len {
        proof {
            if n == 0 {
                assert(!spec_dec_valid(s@, max_len as int));
            }
        }
        return None;
    }
    let mut acc: u64 = 0;
    let mut j: usize = 0;
    while j < n
        invariant
            0 <= j <= n,
            n == s@.len(),
            1 <= n <= max_len <= 18,
            spec_all_digits(s@.take(j as int)),
            acc as nat == spec_dec_val(s@.take(j as int)),
            acc < pow10(j as nat),
        decreases n - j,
    {
        let c = s.get_char(j);
        let cv = c as u32;
        if cv < 48 || cv > 57 {
            return None;
        }
        let d = (cv - 48) as u64;
        proof {
            lemma_pow10_mono(j as nat, 17);
            lemma_pow10_concrete();
            assert(s@.take(j as int + 1).drop_last() =~= s@.take(j as int));
            assert(s@.take(j as int + 1).last() == s@[j as int]);
        }
        acc = acc * 10 + d;
        j += 1;
        proof {
            assert forall|i: int| 0 <= i < j implies spec_is_digit(s@.take(j as int)[i]) by {
                if i < j - 1 {
                    assert(s@.take(j - 1).take(j - 1)[i] == s@.take(j as int)[i]);
                }
            }
        }
    }
    proof {
        assert(s@.take(n as int) =~= s@);
    }
    Some(acc)
}

/// The shape of a fixed-point number on the wire: an optional minus sign, one
/// to fifteen integer digits, and optionally a dot followed by one to three
/// fractional digits.
pub open spec fn spec_milli_valid(s: Seq<char>) -> bool {
    let t = if s.len() > 0 && s[0] == '-' {
        s.skip(1)
    } else {
        s
    };
    let d = spec_find(t, '.');
    if d == t.len() {
        spec_dec_valid(t, 15)
    } else {
        spec_dec_valid(t.take(d), 15) && spec_dec_valid(t.skip(d + 1), 3)
    }
}

/// The value in thousandths that a well-shaped fixed-point text denotes.
pub open spec fn spec_milli_val(s: Seq<char>) -> int {
    let neg = s.len() > 0 && s[0] == '-';
    let t = if neg {
        s.skip(1)
    } else {
        s
    };
    let d = spec_find(t, '.');
    let m = if d == t.len() {
        spec_dec_val(t) * 1000
    } else {
        spec_dec_val(t.take(d)) * 1000 + spec_dec_val(t.skip(d + 1)) * pow10(
            (3 - t.skip(d + 1).len()) as nat,
        )
    };
    if neg {
        -(m as int)
    } else {
        m as int
    }
}

/// Reads a fixed-point number in thousandths from its wire text.
pub fn parse_milli(s: &str) -> (r: Option<i64>)
    ensures
        r is Some <==> spec_milli_valid(s@),
        r is Some ==> r->0 as int == spec_milli_val(s@),
{
    let n = s.unicode_len();
    let start: usize = if n > 0 && s.get_char(0) == '-' {
        1
    } else {
        0
    };
    let ghost neg = s@.len() > 0 && s@[0] == '-';
    let ghost t = if neg { s@.skip(1) } else { s@ };
    let dot = find_char(s, start, '.');
    proof {
        assert(t =~= s@.skip(start as int));
    }
    let int_part = s.substring_char(start, dot);
    proof {
        assert(int_part@ =~= t.take(dot - start));
        if dot - start == t.len() {
            assert(t.take(dot - start) =~= t);
        }
    }
    let iv = match parse_digits(int_part, 15) {
        Some(v) => v,
        None => {
            return None;
        },
    };
    proof {
        assert(iv < pow10(15)) by {
            lemma_dec_val_bound(int_part@);
            lemma_pow10_mono(int_part@.len() as nat, 15);
        }
        lemma_pow10_concrete();
    }
    let m: u64;
    if dot == n {
        m = iv * 1000;
    } else {
        let frac = s.substring_char(dot + 1, n);
        proof {
            assert(frac@ =~= t.skip(dot - start + 1));
        }
        let fv = match parse_digits(frac, 3) {
            Some(v) => v,
            None => {
                return None;
            },
        };
        let flen = frac.unicode_len();
        let scale: u64 = if flen == 1 {
            100
        } else if flen == 2 {
            10
        } else {
            1
        };
        proof {
            assert(fv < pow10(3)) by {
                lemma_dec_val_bound(frac@);
                lemma_pow10_mono(frac@.len() as nat, 3);
            }
            lemma_pow10_concrete();
        }
        m = iv * 1000 + fv * scale;
    }
    if start == 1 {
        Some(0i64 - (m as i64))
    } else {
        Some(m as i64)
    }
}

/// A digit string denotes less than ten to its length.
pub proof fn lemma_dec_val_bound(s: Seq<char>)
    requires
        spec_all_digits(s),
    ensures
        spec_dec_val(s) < pow10(s.len() as nat),
    decreases s.len(),
{
    if s.len() > 0 {
        assert(spec_all_digits(s.drop_last())) by {
            assert(forall|i: int|
                0 <= i < s.len() - 1 ==> s.drop_last()[i] == s[i]);
        }
        lemma_dec_val_bound(s.drop_last());
        assert(spec_is_digit(s.last()));
    }
}

/// The fractional digits of a value below one thousand, trailing zeros
/// trimmed but never below one digit.
pub open spec fn spec_frac(f: int) -> Seq<char> {
    if f % 10 != 0 {
        seq![spec_digit_char(f / 100), spec_digit_char((f / 10) % 10), spec_digit_char(f % 10)]
    } else if f % 100 != 0 {
        seq![spec_digit_char(f / 100), spec_digit_char((f / 10) % 10)]
    } else if f != 0 {
        seq![spec_digit_char(f / 100)]
    } else {
        seq!['0']
    }
}

/// The wire text of a fixed-point value in thousandths: sign, integer part,
/// dot, trimmed fraction.
pub open spec fn spec_fmt_milli(v: int) -> Seq<char> {
    if v < 0 {
        seq!['-'] + spec_fmt_milli_mag(-v)
    } else {
        spec_fmt_milli_mag(v)
    }
}

/// The unsigned portion of the fixed-point wire text.
pub open spec fn spec_fmt_milli_mag(a: int) -> Seq<char> {
    spec_udec((a / 1000) as nat) + seq!['.'] + spec_frac(a % 1000)
}

/// Prints a fixed-point value in thousandths.
pub fn fmt_milli(v: i64) -> (s: String)
    ensures
        s@ == spec_fmt_milli(v as int),
{
    let neg = v < 0;
    let a: u64 = if v < 0 {
        ((-(v + 1)) as u64) + 1
    } else {
        v as u64
    };
    let mut s = if neg {
        proof {
            reveal_strlit("-");
            assert("-"@ =~= seq!['-']);
        }
        String::from_str("-")
    } else {
        String::new()
    };
    s.append(u64_to_string(a / 1000).as_str());
    proof {
        reveal_strlit(".");
        assert("."@ =~= seq!['.']);
    }
    s.append(".");
    let f = a % 1000;
    if f % 10 != 0 {
        s.append(digit_str(f / 100));
        s.append(digit_str((f / 10) % 10));
        s.append(digit_str(f % 10));
    } else if f % 100 != 0 {
        s.append(digit_str(f / 100));
        s.append(digit_str((f / 10) % 10));
    } else if f != 0 {
        s.append(digit_str(f / 100));
    } else {
        proof {
            reveal_strlit("0");
            assert("0"@ =~= seq!['0']);
        }
        s.append("0");
    }
    proof {
        if neg {
            assert(s@ =~= seq!['-'] + spec_fmt_milli_mag(a as int));
        } else {
            assert(s@ =~= spec_fmt_milli_mag(a as int));
        }
    }
    s
}

/// Every digit value below ten prints as a decimal digit character.
pub proof fn lemma_digit_char_is_digit(d: int)
    requires
        0 <= d <= 9,
    ensures
        spec_is_digit(spec_digit_char(d)),
        spec_digit_val(spec_digit_char(d)) == d,
{
}

/// The trimmed fraction of a value below one thousand consists of digits,
/// between one and three of them, and scales back to the value.
pub proof fn lemma_frac_val(f: int)
    requires
        0 <= f < 1000,
    ensures
        1 <= spec_frac(f).len() <= 3,
        spec_all_digits(spec_frac(f)),
        spec_dec_val(spec_frac(f)) * pow10((3 - spec_frac(f).len()) as nat) == f,
{
    reveal_with_fuel(spec_dec_val, 4);
    lemma_pow10_concrete();
    lemma_digit_char_is_digit(f / 100);
    lemma_digit_char_is_digit((f / 10) % 10);
    lemma_digit_char_is_digit(f % 10);
    lemma_digit_char_is_digit(0);
    if f % 10 != 0 {
        let t = spec_frac(f);
        assert(t.drop_last() =~= seq![spec_digit_char(f / 100), spec_digit_char((f / 10) % 10)]);
        assert(t.drop_last().drop_last() =~= seq![spec_digit_char(f / 100)]);
        assert(spec_dec_val(t) == ((f / 100) * 10 + (f / 10) % 10) * 10 + f % 10);
        assert(((f / 100) * 10 + (f / 10) % 10) * 10 + f % 10 == f) by (nonlinear_arith)
            requires
                0 <= f < 1000,
        ;
        assert(spec_dec_val(t) == f);
        assert(pow10((3 - t.len()) as nat) == 1);
        assert(spec_dec_val(t) * pow10((3 - t.len()) as nat) == f) by (nonlinear_arith)
            requires
                spec_dec_val(t) == f && pow10((3 - t.len()) as nat) == 1,
        ;
    } else if f % 100 != 0 {
        let t = spec_frac(f);
        assert(t.drop_last() =~= seq![spec_digit_char(f / 100)]);
        assert(spec_dec_val(t) == (f / 100) * 10 + (f / 10) % 10);
        assert(((f / 100) * 10 + (f / 10) % 10) * 10 == f) by (nonlinear_arith)
            requires
                0 <= f < 1000 && f % 10 == 0,
        ;
        assert(spec_dec_val(t) * 10 == f);
        assert(pow10((3 - t.len()) as nat) == 10);
        assert(spec_dec_val(t) * pow10((3 - t.len()) as nat) == f) by (nonlinear_arith)
            requires
                spec_dec_val(t) * 10 == f && pow10((3 - t.len()) as nat) == 10,
        ;
    } else if f != 0 {
        assert(spec_dec_val(spec_frac(f)) == f / 100);
        assert((f / 100) * 100 == f) by (nonlinear_arith)
            requires
                0 <= f < 1000 && f % 100 == 0 && f % 10 == 0,
        ;
        let t = spec_frac(f);
        assert(spec_dec_val(t) * 100 == f);
        assert(pow10((3 - t.len()) as nat) == 100);
        assert(spec_dec_val(t) * pow10((3 - t.len()) as nat) == f) by (nonlinear_arith)
            requires
                spec_dec_val(t) * 100 == f && pow10((3 - t.len()) as nat) == 100,
        ;
    } else {
        assert(spec_frac(0) =~= seq!['0']);
        assert(spec_dec_val(spec_frac(f)) == 0);
    }
}

/// A digit is never a dot or a minus sign.
proof fn lemma_digits_not_punct(t: Seq<char>)
    requires
        spec_all_digits(t),
    ensures
        forall|i: int| 0 <= i < t.len() ==> t[i] != '.',
        t.len() > 0 ==> t[0] != '-',
{
    assert forall|i: int| 0 <= i < t.len() implies t[i] != '.' by {
        assert(spec_is_digit(t[i]));
    }
    if t.len() > 0 {
        assert(spec_is_digit(t[0]));
    }
}

/// Printing a fixed-point value and reading the text back recovers the
/// value, for the whole range the wire admits.
pub proof fn lemma_milli_round_trip(v: int)
    requires
        -1_000_000_000_000_000_000 < v < 1_000_000_000_000_000_000,
    ensures
        spec_milli_valid(spec_fmt_milli(v)),
        spec_milli_val(spec_fmt_milli(v)) == v,
{
    let a = if v < 0 { -v } else { v };
    let ip = spec_udec((a / 1000) as nat);
    let fp = spec_frac(a % 1000);
    let mag = spec_fmt_milli_mag(a);
    let s = spec_fmt_milli(v);
    lemma_udec_digits((a / 1000) as nat);
    lemma_pow10_concrete();
    lemma_udec_len((a / 1000) as nat, 15);
    lemma_udec_val((a / 1000) as nat);
    lemma_frac_val(a % 1000);
    lemma_digits_not_punct(ip);
    lemma_digits_not_punct(fp);
    let t = if s.len() > 0 && s[0] == '-' { s.skip(1) } else { s };
    if v < 0 {
        assert(s == seq!['-'] + mag);
        assert(s[0] == '-');
        assert(t =~= mag);
    } else {
        assert(s == mag);
        assert(s[0] == ip[0]);
        assert(t =~= mag);
    }
    let rest = seq!['.'] + fp;
    assert(t =~= ip + rest);
    crate::text::lemma_find_over_concat(ip, rest, '.');
    assert(rest[0] == '.');
    let d = crate::text::spec_find(t, '.');
    assert(d == ip.len());
    assert(t.take(d) =~= ip);
    assert(t.skip(d + 1) =~= fp);
    assert(spec_dec_val(ip) * 1000 + spec_dec_val(fp) * pow10((3 - fp.len()) as nat) == a);
}

} // verus!
