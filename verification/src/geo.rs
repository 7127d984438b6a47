//! Geographic coordinates and the geofence filter.
//!
//! Coordinates are fixed-point integers in picodegrees (10^-12 degree),
//! so that the decimal coordinates published by the feed are held exactly.

use vstd::arithmetic::mul::{lemma_mul_inequality, lemma_mul_is_associative};
use vstd::prelude::*;
use vstd::string::StrSliceExecFns;

use crate::text::{is_whitespace_char, spec_is_whitespace};

verus! {

/// Picodegrees per degree.
pub const PICO_PER_DEGREE: i64 = 1_000_000_000_000;

/// Kilometres per degree of latitude (small-angle approximation,
/// applied identically to longitude).
pub const KM_PER_DEGREE: i64 = 111;

/// Default half-width, in kilometres, of the square alert region
/// centred on an entry's point.
pub const ALERT_DISTANCE_KM: u32 = 30;

/// A (latitude, longitude) pair in picodegrees.
#[derive(Clone, Copy, PartialEq, Eq, Structural, Debug)]
pub struct GeoPoint {
    pub lat: i64,
    pub lon: i64,
}

/// Half-width of the alert box in picodegrees for a given distance.
pub open spec fn spec_offset(alert_distance_km: u32) -> int {
    (alert_distance_km as int) * (PICO_PER_DEGREE as int) / (KM_PER_DEGREE as int)
}

/// The box test: `reference` lies in the half-open square
/// `[point - offset, point + offset)` on both axes.
pub open spec fn spec_near(reference: GeoPoint, point: GeoPoint, alert_distance_km: u32) -> bool {
    let off = spec_offset(alert_distance_km);
    &&& point.lat - off <= reference.lat < point.lat + off
    &&& point.lon - off <= reference.lon < point.lon + off
}

/// Construct a box around `point` and test whether it contains `reference`.
///
/// The box is half-open on each axis. The offsets are not corrected for
/// latitude-dependent longitude compression, and the box is not guarded
/// against wrapping across the antimeridian or the poles: the reference
/// point is assumed to lie well away from those boundaries.
pub fn near(reference: GeoPoint, point: GeoPoint, alert_distance_km: u32) -> (r: bool)
    ensures
        r == spec_near(reference, point, alert_distance_km),
{
    proof {
        lemma_mul_inequality(alert_distance_km as int, u32::MAX as int, PICO_PER_DEGREE as int);
    }
    let product: u128 = (alert_distance_km as u128) * (PICO_PER_DEGREE as u128);
    let off_u: u128 = product / (KM_PER_DEGREE as u128);
    proof {
        vstd::arithmetic::div_mod::lemma_fundamental_div_mod(product as int, KM_PER_DEGREE as int);
        lemma_mul_inequality(1, KM_PER_DEGREE as int, off_u as int);
    }
    let off: i128 = off_u as i128;
    let rlat: i128 = reference.lat as i128;
    let rlon: i128 = reference.lon as i128;
    let plat: i128 = point.lat as i128;
    let plon: i128 = point.lon as i128;
    plat - off <= rlat && rlat < plat + off && plon - off <= rlon && rlon < plon + off
}

// ---------------------------------------------------------------------------
// Decimal coordinate text
//
// The feed publishes a point as two whitespace-separated decimal numbers.
// The library accepts an optional sign, an integer part of one to seven
// digits, and an optional fraction; fraction digits beyond the twelfth
// carry no weight at this scale and are ignored. A value outside the i64
// picodegree range, or any other shape of text, yields no coordinate:
// the field is then simply absent, and the entry is treated as near.
// ---------------------------------------------------------------------------

pub open spec fn spec_is_digit(c: char) -> bool {
    '0' <= c && c <= '9'
}

pub open spec fn digit_val(c: char) -> int {
    (c as u32) - ('0' as u32)
}

pub open spec fn all_digits(s: Seq<char>) -> bool {
    forall|i: int| 0 <= i < s.len() ==> spec_is_digit(s[i])
}

/// The value of a digit string read in base ten.
pub open spec fn digits_val(s: Seq<char>) -> int
    decreases s.len(),
{
    if s.len() == 0 {
        0
    } else {
        digits_val(s.drop_last()) * 10 + digit_val(s.last())
    }
}

/// Powers of ten up to the picodegree scale.
pub open spec fn pow10(n: nat) -> int {
    if n == 0 {
        1
    } else if n == 1 {
        10
    } else if n == 2 {
        100
    } else if n == 3 {
        1000
    } else if n == 4 {
        10000
    } else if n == 5 {
        100000
    } else if n == 6 {
        1000000
    } else if n == 7 {
        10000000
    } else if n == 8 {
        100000000
    } else if n == 9 {
        1000000000
    } else if n == 10 {
        10000000000
    } else if n == 11 {
        100000000000
    } else if n == 12 {
        1000000000000
    } else {
        0
    }
}

proof fn lemma_pow10_mul(a: nat, b: nat)
    requires
        a + b <= 12,
    ensures
        pow10(a) * pow10(b) == pow10((a + b) as nat),
    decreases a,
{
    if a == 0 {
    } else {
        lemma_pow10_mul((a - 1) as nat, b);
        assert(pow10(a) == 10 * pow10((a - 1) as nat));
        lemma_mul_is_associative(10, pow10((a - 1) as nat), pow10(b));
    }
}

proof fn lemma_digits_val_bound(s: Seq<char>)
    requires
        all_digits(s),
        s.len() <= 12,
    ensures
        0 <= digits_val(s) < pow10(s.len() as nat),
    decreases s.len(),
{
    if s.len() > 0 {
        assert(all_digits(s.drop_last()));
        lemma_digits_val_bound(s.drop_last());
        assert(digit_val(s.last()) <= 9);
        lemma_mul_inequality(
            digits_val(s.drop_last()),
            pow10((s.len() - 1) as nat) - 1,
            10,
        );
    }
}

/// First index of `c` in `s`, or `s.len()` when `s` does not hold it.
pub open spec fn first_index_of(s: Seq<char>, c: char) -> int
    decreases s.len(),
{
    if s.len() == 0 {
        0
    } else if s[0] == c {
        0
    } else {
        1 + first_index_of(s.skip(1), c)
    }
}

proof fn lemma_first_index_of(s: Seq<char>, c: char, k: int)
    requires
        0 <= k <= s.len(),
        forall|j: int| 0 <= j < k ==> s[j] != c,
        k < s.len() ==> s[k] == c,
    ensures
        first_index_of(s, c) == k,
    decreases k,
{
    if k == 0 {
    } else {
        assert(s[0] != c);
        let t = s.skip(1);
        assert forall|j: int| 0 <= j < k - 1 implies t[j] != c by {
            assert(t[j] == s[j + 1]);
        }
        lemma_first_index_of(t, c, k - 1);
    }
}

proof fn lemma_first_index_found(s: Seq<char>, c: char)
    ensures
        0 <= first_index_of(s, c) <= s.len(),
        first_index_of(s, c) < s.len() ==> s[first_index_of(s, c)] == c,
        forall|j: int| 0 <= j < first_index_of(s, c) ==> s[j] != c,
    decreases s.len(),
{
    if s.len() == 0 {
    } else if s[0] == c {
    } else {
        lemma_first_index_found(s.skip(1), c);
        let f = first_index_of(s.skip(1), c);
        assert forall|j: int| 0 <= j < 1 + f implies s[j] != c by {
            if j > 0 {
                assert(s.skip(1)[j - 1] == s[j]);
            }
        }
        if 1 + f < s.len() {
            assert(s.skip(1)[f] == s[1 + f]);
        }
    }
}

/// The picodegree value carried by the fraction digits.
pub open spec fn frac_pico(frac: Seq<char>) -> int {
    let t = if frac.len() > 12 {
        frac.take(12)
    } else {
        frac
    };
    digits_val(t) * pow10((12 - t.len()) as nat)
}

/// An unsigned decimal number in picodegrees: one to seven integer
/// digits, then optionally a dot and fraction digits.
pub open spec fn spec_parse_unsigned_pico(body: Seq<char>) -> Option<int> {
    let dot = first_index_of(body, '.');
    let int_part = body.take(dot);
    let frac = if dot < body.len() {
        body.skip(dot + 1)
    } else {
        Seq::<char>::empty()
    };
    if 1 <= int_part.len() <= 7 && all_digits(int_part) && all_digits(frac) {
        Some(digits_val(int_part) * (PICO_PER_DEGREE as int) + frac_pico(frac))
    } else {
        None
    }
}

/// A signed decimal coordinate in picodegrees.
pub open spec fn spec_parse_coordinate(s: Seq<char>) -> Option<i64> {
    let neg = s.len() > 0 && s[0] == '-';
    let body = if s.len() > 0 && (s[0] == '-' || s[0] == '+') {
        s.skip(1)
    } else {
        s
    };
    match spec_parse_unsigned_pico(body) {
        Some(v) => if v <= i64::MAX as int {
            Some(
                (if neg {
                    -v
                } else {
                    v
                }) as i64,
            )
        } else {
            None
        },
        None => None,
    }
}

fn digit_at(s: &str, i: usize) -> (r: bool)
    requires
        i < s@.len(),
    ensures
        r == spec_is_digit(s@[i as int]),
{
    let c = s.get_char(i);
    '0' <= c && c <= '9'
}

fn pow10_u64(e: usize) -> (r: u64)
    requires
        e <= 12,
    ensures
        r as int == pow10(e as nat),
{
    if e == 0 {
        1
    } else if e == 1 {
        10
    } else if e == 2 {
        100
    } else if e == 3 {
        1000
    } else if e == 4 {
        10000
    } else if e == 5 {
        100000
    } else if e == 6 {
        1000000
    } else if e == 7 {
        10000000
    } else if e == 8 {
        100000000
    } else if e == 9 {
        1000000000
    } else if e == 10 {
        10000000000
    } else if e == 11 {
        100000000000
    } else {
        1000000000000
    }
}

// The integer part is rejected when a character that is neither a digit
// nor the dot stands before the first dot.
proof fn lemma_unsigned_none_bad_char(body: Seq<char>, j: int)
    requires
        0 <= j < body.len(),
        !spec_is_digit(body[j]),
        body[j] != '.',
        forall|k: int| 0 <= k < j ==> body[k] != '.',
    ensures
        spec_parse_unsigned_pico(body) is None,
{
    lemma_first_index_found(body, '.');
    let dot = first_index_of(body, '.');
    if dot <= j {
        assert(body[dot] == '.');
        assert(false);
    }
    assert(body.take(dot)[j] == body[j]);
}

// The parse fails when the text is empty or opens with something other
// than a digit.
proof fn lemma_unsigned_none_short(body: Seq<char>)
    requires
        body.len() == 0 || !spec_is_digit(body[0]),
    ensures
        spec_parse_unsigned_pico(body) is None,
{
    if body.len() == 0 {
        assert(body.take(first_index_of(body, '.')).len() == 0);
    } else if body[0] == '.' {
        lemma_first_index_of(body, '.', 0);
    } else {
        lemma_unsigned_none_bad_char(body, 0);
    }
}

// The parse fails when eight digits open the text: the integer part then
// runs past seven digits.
proof fn lemma_unsigned_none_long(body: Seq<char>)
    requires
        body.len() >= 8,
        forall|j: int| 0 <= j < 8 ==> spec_is_digit(body[j]),
    ensures
        spec_parse_unsigned_pico(body) is None,
{
    lemma_first_index_found(body, '.');
    let dot = first_index_of(body, '.');
    if dot <= 7 {
        assert(spec_is_digit(body[dot]));
        assert(body[dot] == '.');
        assert(false);
    }
    assert(body.take(dot).len() > 7);
}

/// Read a decimal coordinate as picodegrees.
#[verifier::rlimit(60)]
pub fn parse_coordinate(s: &str) -> (r: Option<i64>)
    ensures
        r == spec_parse_coordinate(s@),
{
    let n = s.unicode_len();
    let neg = n > 0 && s.get_char(0) == '-';
    let start: usize = if n > 0 && (s.get_char(0) == '-' || s.get_char(0) == '+') {
        1
    } else {
        0
    };
    let ghost body = if s@.len() > 0 && (s@[0] == '-' || s@[0] == '+') {
        s@.skip(1)
    } else {
        s@
    };
    proof {
        assert(body =~= s@.skip(start as int));
    }

    // Integer part: scan digits up to the dot or the end.
    let mut i = start;
    let mut ip: u64 = 0;
    while i < n && i - start < 7 && digit_at(s, i)
        invariant
            start <= i <= n,
            start <= 1,
            i - start <= 7,
            n == s@.len(),
            forall|j: int| start <= j < i ==> spec_is_digit(s@[j]),
            ip == digits_val(s@.subrange(start as int, i as int)),
            ip < 10000000,
        decreases n - i,
    {
        proof {
            let pre = s@.subrange(start as int, i as int);
            let post = s@.subrange(start as int, i + 1);
            assert(post.drop_last() =~= pre);
            assert(all_digits(post));
            lemma_digits_val_bound(post);
        }
        ip = ip * 10 + (s.get_char(i) as u32 - '0' as u32) as u64;
        i += 1;
    }
    proof {
        assert forall|j: int| 0 <= j < i - start implies spec_is_digit(body[j]) by {
            assert(body[j] == s@[start + j]);
        }
    }
    if i == start {
        proof {
            assert(body.len() == n - start);
            if start < n {
                assert(body[0] == s@[start as int]);
            }
            lemma_unsigned_none_short(body);
        }
        return None;
    }
    if i < n && digit_at(s, i) {
        // The loop only leaves a digit unread after seven of them.
        proof {
            assert(body[7] == s@[start + 7]);
            lemma_unsigned_none_long(body);
        }
        return None;
    }
    let ghost int_seq = s@.subrange(start as int, i as int);
    proof {
        assert(int_seq =~= body.take(i - start));
    }
    if i == n {
        // Digits only: the whole body is the integer part.
        proof {
            lemma_first_index_of(body, '.', body.len() as int);
            assert(body.take(body.len() as int) =~= body);
            assert(int_seq =~= body);
            lemma_mul_inequality(ip as int, 9999999, PICO_PER_DEGREE as int);
        }
        let v: u64 = ip * 1_000_000_000_000;
        return finish_signed(v, neg, s, Ghost(body));
    }
    if !char_is_dot(s, i) {
        proof {
            assert(body[i - start] == s@[i as int]);
            lemma_unsigned_none_bad_char(body, i - start);
        }
        return None;
    }
    proof {
        assert(body[i - start] == s@[i as int]);
        lemma_first_index_of(body, '.', i - start);
    }
    // Fraction: every remaining character must be a digit; the first
    // twelve carry weight.
    let frac_start = i + 1;
    let ghost frac = body.skip(i - start + 1);
    proof {
        assert forall|k: int| 0 <= k < frac.len() implies frac[k] == s@[frac_start + k] by {
            assert(frac[k] == body[i - start + 1 + k]);
            assert(body[i - start + 1 + k] == s@[start + (i - start + 1 + k)]);
        }
    }
    let mut j = frac_start;
    let mut fr: u64 = 0;
    while j < n
        invariant
            frac_start <= j <= n,
            frac_start == i + 1,
            start <= i < n,
            start <= 1,
            n == s@.len(),
            body == (if s@.len() > 0 && (s@[0] == '-' || s@[0] == '+') {
                s@.skip(1)
            } else {
                s@
            }),
            neg == (s@.len() > 0 && s@[0] == '-'),
            frac == body.skip(i - start + 1),
            frac.len() == n - frac_start,
            first_index_of(body, '.') == i - start,
            forall|k: int| 0 <= k < frac.len() ==> frac[k] == s@[frac_start + k],
            forall|k: int| frac_start <= k < j ==> spec_is_digit(s@[k]),
            j - frac_start <= 12 ==> fr == digits_val(s@.subrange(frac_start as int, j as int)),
            j - frac_start > 12 ==> fr == digits_val(
                s@.subrange(frac_start as int, frac_start + 12),
            ),
            fr < 1000000000000,
        decreases n - j,
    {
        if !digit_at(s, j) {
            proof {
                assert(frac[j - frac_start] == s@[j as int]);
                assert(!all_digits(frac));
            }
            return None;
        }
        if j - frac_start < 12 {
            proof {
                let pre = s@.subrange(frac_start as int, j as int);
                let post = s@.subrange(frac_start as int, j + 1);
                assert(post.drop_last() =~= pre);
                assert(all_digits(post));
                lemma_digits_val_bound(post);
            }
            fr = fr * 10 + (s.get_char(j) as u32 - '0' as u32) as u64;
        }
        j += 1;
    }
    // Pad the fraction out to twelve digits' weight.
    let frac_len = n - frac_start;
    let ghost t = if frac.len() > 12 {
        frac.take(12)
    } else {
        frac
    };
    proof {
        assert(all_digits(frac));
        if frac.len() > 12 {
            assert(t =~= s@.subrange(frac_start as int, frac_start + 12));
        } else {
            assert(t =~= s@.subrange(frac_start as int, n as int));
        }
        assert(all_digits(t));
        lemma_digits_val_bound(t);
    }
    let pad: usize = if frac_len > 12 {
        0
    } else {
        12 - frac_len
    };
    let mult = pow10_u64(pad);
    proof {
        assert(pad as int == 12 - t.len());
        lemma_pow10_mul(t.len() as nat, pad as nat);
        lemma_mul_inequality(fr as int, pow10(t.len() as nat) - 1, pow10(pad as nat));
        vstd::arithmetic::mul::lemma_mul_is_distributive_sub_other_way(
            pow10(pad as nat),
            pow10(t.len() as nat),
            1,
        );
        lemma_mul_inequality(ip as int, 9999999, PICO_PER_DEGREE as int);
    }
    let frv: u64 = fr * mult;
    assert(frv == frac_pico(frac));
    let v: u64 = ip * 1_000_000_000_000 + frv;
    finish_signed(v, neg, s, Ghost(body))
}

// ---------------------------------------------------------------------------
// The point element's text: trimmed, split on single spaces, and the
// first two tokens that read as coordinates give latitude then longitude.
// ---------------------------------------------------------------------------

pub open spec fn drop_leading_ws(s: Seq<char>) -> Seq<char>
    decreases s.len(),
{
    if s.len() > 0 && spec_is_whitespace(s[0]) {
        drop_leading_ws(s.skip(1))
    } else {
        s
    }
}

pub open spec fn drop_trailing_ws(s: Seq<char>) -> Seq<char>
    decreases s.len(),
{
    if s.len() > 0 && spec_is_whitespace(s.last()) {
        drop_trailing_ws(s.drop_last())
    } else {
        s
    }
}

/// The text with whitespace removed from both ends.
pub open spec fn spec_trim(s: Seq<char>) -> Seq<char> {
    drop_trailing_ws(drop_leading_ws(s))
}

proof fn lemma_drop_leading(s: Seq<char>, a: int)
    requires
        0 <= a <= s.len(),
        forall|j: int| 0 <= j < a ==> spec_is_whitespace(s[j]),
        a < s.len() ==> !spec_is_whitespace(s[a]),
    ensures
        drop_leading_ws(s) == s.skip(a),
    decreases a,
{
    if a == 0 {
        assert(s.skip(0) =~= s);
    } else {
        let t = s.skip(1);
        assert forall|j: int| 0 <= j < a - 1 implies spec_is_whitespace(t[j]) by {
            assert(t[j] == s[j + 1]);
        }
        if a - 1 < t.len() {
            assert(t[a - 1] == s[a]);
        }
        lemma_drop_leading(t, a - 1);
        assert(t.skip(a - 1) =~= s.skip(a));
    }
}

proof fn lemma_drop_trailing(t: Seq<char>, e: int)
    requires
        0 <= e <= t.len(),
        forall|j: int| e <= j < t.len() ==> spec_is_whitespace(t[j]),
        e > 0 ==> !spec_is_whitespace(t[e - 1]),
    ensures
        drop_trailing_ws(t) == t.take(e),
    decreases t.len(),
{
    if e == t.len() {
        assert(t.take(e) =~= t);
    } else {
        assert(spec_is_whitespace(t.last()));
        let u = t.drop_last();
        assert forall|j: int| e <= j < u.len() implies spec_is_whitespace(u[j]) by {
            assert(u[j] == t[j]);
        }
        if e > 0 {
            assert(u[e - 1] == t[e - 1]);
        }
        lemma_drop_trailing(u, e);
        assert(u.take(e) =~= t.take(e));
    }
}

/// The text split on single space characters; empty tokens are kept.
pub open spec fn split_spaces(s: Seq<char>) -> Seq<Seq<char>>
    decreases s.len(),
{
    let k = first_index_of(s, ' ');
    if 0 <= k < s.len() {
        seq![s.take(k)] + split_spaces(s.skip(k + 1))
    } else {
        seq![s]
    }
}

/// The coordinates read from the tokens, in order; unreadable tokens
/// are passed over.
pub open spec fn coord_values(tokens: Seq<Seq<char>>) -> Seq<i64>
    decreases tokens.len(),
{
    if tokens.len() == 0 {
        seq![]
    } else {
        match spec_parse_coordinate(tokens[0]) {
            Some(v) => seq![v] + coord_values(tokens.skip(1)),
            None => coord_values(tokens.skip(1)),
        }
    }
}

/// The point carried by a `point` element's text: the first two
/// readable coordinates, latitude then longitude.
pub open spec fn spec_parse_point(t: Seq<char>) -> Option<GeoPoint> {
    let vs = coord_values(split_spaces(spec_trim(t)));
    if vs.len() >= 2 {
        Some(GeoPoint { lat: vs[0], lon: vs[1] })
    } else {
        None
    }
}

/// Read a `point` element's text as a coordinate pair.
pub fn parse_point(text: &str) -> (r: Option<GeoPoint>)
    ensures
        r == spec_parse_point(text@),
{
    let n = text.unicode_len();
    // Trim whitespace from both ends.
    let mut a: usize = 0;
    while a < n && is_whitespace_char(text.get_char(a))
        invariant
            0 <= a <= n,
            n == text@.len(),
            forall|k: int| 0 <= k < a ==> spec_is_whitespace(text@[k]),
        decreases n - a,
    {
        a += 1;
    }
    let mut b: usize = n;
    while b > a && is_whitespace_char(text.get_char(b - 1))
        invariant
            a <= b <= n,
            n == text@.len(),
            forall|k: int| b <= k < n ==> spec_is_whitespace(text@[k]),
        decreases b,
    {
        b -= 1;
    }
    let trimmed = text.substring_char(a, b);
    proof {
        lemma_drop_leading(text@, a as int);
        let t = text@.skip(a as int);
        assert forall|j: int| b - a <= j < t.len() implies spec_is_whitespace(t[j]) by {
            assert(t[j] == text@[a + j]);
        }
        if b > a {
            assert(t[b - a - 1] == text@[b - 1]);
        }
        lemma_drop_trailing(t, b - a);
        assert(t.take(b - a) =~= text@.subrange(a as int, b as int));
        assert(spec_trim(text@) == trimmed@);
    }
    let ghost tv = trimmed@;
    let ghost full = coord_values(split_spaces(tv));
    let m = trimmed.unicode_len();

    proof {
        assert(tv.skip(0) =~= tv);
        assert(Seq::<i64>::empty() + full =~= full);
    }
    let mut found: Vec<i64> = Vec::new();
    let mut pos: usize = 0;
    let mut done = false;
    while !done && found.len() < 2
        invariant
            0 <= pos <= m,
            m == tv.len(),
            tv == trimmed@,
            full == coord_values(split_spaces(tv)),
            found@.len() <= 2,
            found@.len() < 2 ==> full == found@ + coord_values(
                if !done {
                    split_spaces(tv.skip(pos as int))
                } else {
                    Seq::<Seq<char>>::empty()
                },
            ),
            found@.len() == 2 ==> full.len() >= 2 && full[0] == found@[0] && full[1] == found@[1],
        decreases (if done {
            0int
        } else {
            1int
        }), m - pos,
    {
        // Find the end of the token that starts at `pos`.
        let mut k = pos;
        while k < m && !space_at(trimmed, k)
            invariant
                pos <= k <= m,
                m == trimmed@.len(),
                forall|j: int| pos <= j < k ==> trimmed@[j] != ' ',
            decreases m - k,
        {
            k += 1;
        }
        let ghost x = tv.skip(pos as int);
        proof {
            assert forall|j: int| 0 <= j < k - pos implies x[j] != ' ' by {
                assert(x[j] == tv[pos + j]);
            }
            if k < m {
                assert(x[k - pos] == tv[k as int]);
            }
            lemma_first_index_of(x, ' ', k - pos);
        }
        let token = trimmed.substring_char(pos, k);
        proof {
            assert(token@ =~= x.take(k - pos));
            if k - pos == x.len() {
                assert(x.take(k - pos) =~= x);
                assert(split_spaces(x) == seq![x]);
                assert(split_spaces(x)[0] == x);
                assert(split_spaces(x).skip(1) =~= Seq::<Seq<char>>::empty());
            } else {
                assert(split_spaces(x) == seq![x.take(k - pos)] + split_spaces(x.skip(k - pos + 1)));
                assert(split_spaces(x)[0] == x.take(k - pos));
                assert(split_spaces(x).skip(1) =~= split_spaces(x.skip(k - pos + 1)));
                assert(x.skip(k - pos + 1) =~= tv.skip(k + 1));
            }
        }
        let ghost rest_tokens = split_spaces(x).skip(1);
        match parse_coordinate(token) {
            Some(v) => {
                proof {
                    assert(coord_values(split_spaces(x)) == seq![v] + coord_values(rest_tokens));
                    assert(found@ + (seq![v] + coord_values(rest_tokens)) =~= found@.push(v)
                        + coord_values(rest_tokens));
                }
                found.push(v);
                proof {
                    if found@.len() == 2 {
                        assert(full == found@ + coord_values(rest_tokens));
                        assert(full[0] == found@[0]);
                        assert(full[1] == found@[1]);
                    }
                }
            },
            None => {
                proof {
                    assert(coord_values(split_spaces(x)) == coord_values(rest_tokens));
                }
            },
        }
        if k == m {
            done = true;
        } else {
            pos = k + 1;
        }
    }
    if found.len() >= 2 {
        let la = found[0];
        let lo = found[1];
        proof {
            assert(full.len() >= 2 && full[0] == found@[0] && full[1] == found@[1]);
        }
        Some(GeoPoint { lat: la, lon: lo })
    } else {
        proof {
            assert(coord_values(Seq::<Seq<char>>::empty()) == Seq::<i64>::empty());
            assert(full == found@ + Seq::<i64>::empty());
            assert(full =~= found@);
        }
        None
    }
}

fn space_at(s: &str, i: usize) -> (r: bool)
    requires
        i < s@.len(),
    ensures
        r == (s@[i as int] == ' '),
{
    s.get_char(i) == ' '
}

fn char_is_dot(s: &str, i: usize) -> (r: bool)
    requires
        i < s@.len(),
    ensures
        r == (s@[i as int] == '.'),
{
    s.get_char(i) == '.'
}

// Apply the sign and the range check shared by both exits of the scan.
fn finish_signed(v: u64, neg: bool, s: &str, body: Ghost<Seq<char>>) -> (r: Option<i64>)
    requires
        body@ == (if s@.len() > 0 && (s@[0] == '-' || s@[0] == '+') {
            s@.skip(1)
        } else {
            s@
        }),
        neg == (s@.len() > 0 && s@[0] == '-'),
        spec_parse_unsigned_pico(body@) == Some(v as int),
    ensures
        r == spec_parse_coordinate(s@),
{
    if v > 0x7fff_ffff_ffff_ffff {
        None
    } else if neg {
        Some(-(v as i64))
    } else {
        Some(v as i64)
    }
}

} // verus!
