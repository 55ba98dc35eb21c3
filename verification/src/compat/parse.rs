//! Parsing of style values: hex colours (`#rgb`, `#rrggbb`, `#rrggbbaa`) and
//! the decimal numbers that std's `f32` parser accepts.

use vstd::prelude::*;

use crate::compat::types::CompatError;
use crate::text::{concat_chars, str_chars, sub_chars, trim, trim_chars};

verus! {

/// An RGBA colour with 8-bit channels.
#[derive(Debug, Clone, Copy, PartialEq, Eq, Structural)]
pub struct Rgba8 {
    pub r: u8,
    pub g: u8,
    pub b: u8,
    pub a: u8,
}

/// Whether `c` is an ASCII hex digit.
pub open spec fn is_hex_digit(c: char) -> bool {
    ('0' <= c && c <= '9') || ('a' <= c && c <= 'f') || ('A' <= c && c <= 'F')
}

/// The value of a hex digit; 0 for any other character.
pub open spec fn hex_value(c: char) -> u8 {
    if '0' <= c && c <= '9' {
        (c as u32 - '0' as u32) as u8
    } else if 'a' <= c && c <= 'f' {
        (c as u32 - 'a' as u32 + 10) as u8
    } else if 'A' <= c && c <= 'F' {
        (c as u32 - 'A' as u32 + 10) as u8
    } else {
        0
    }
}

/// The value of a hex digit, 0 for any other character.
pub fn hex1(c: char) -> (v: u8)
    ensures
        v == hex_value(c),
        v < 16,
{
    if '0' <= c && c <= '9' {
        (c as u32 - '0' as u32) as u8
    } else if 'a' <= c && c <= 'f' {
        (c as u32 - 'a' as u32 + 10) as u8
    } else if 'A' <= c && c <= 'F' {
        (c as u32 - 'A' as u32 + 10) as u8
    } else {
        0
    }
}

/// The byte two hex digits denote, high digit first; `None` unless both
/// are hex digits.
pub open spec fn hex_pair(a: char, b: char) -> Option<u8> {
    if is_hex_digit(a) && is_hex_digit(b) {
        Some((hex_value(a) * 16 + hex_value(b)) as u8)
    } else {
        None
    }
}

fn hex2(a: char, b: char) -> (v: Option<u8>)
    ensures
        v == hex_pair(a, b),
{
    let ha = ('0' <= a && a <= '9') || ('a' <= a && a <= 'f') || ('A' <= a && a <= 'F');
    let hb = ('0' <= b && b <= '9') || ('a' <= b && b <= 'f') || ('A' <= b && b <= 'F');
    if ha && hb {
        let x = hex1(a);
        let y = hex1(b);
        Some(x * 16 + y)
    } else {
        None
    }
}

/// The colour a hex body (the text after `#`) denotes, if any: three hex
/// digits give `#rgb`, six or eight give `#rrggbb` / `#rrggbbaa`; anything
/// else denotes no colour.
pub open spec fn hex_color(h: Seq<char>) -> Option<Rgba8> {
    if h.len() == 3 {
        if is_hex_digit(h[0]) && is_hex_digit(h[1]) && is_hex_digit(h[2]) {
            Some(
                Rgba8 {
                    r: (hex_value(h[0]) * 17) as u8,
                    g: (hex_value(h[1]) * 17) as u8,
                    b: (hex_value(h[2]) * 17) as u8,
                    a: 255,
                },
            )
        } else {
            None
        }
    } else if h.len() == 6 {
        match (hex_pair(h[0], h[1]), hex_pair(h[2], h[3]), hex_pair(h[4], h[5])) {
            (Some(r), Some(g), Some(b)) => Some(Rgba8 { r, g, b, a: 255 }),
            _ => None,
        }
    } else if h.len() == 8 {
        match (hex_pair(h[0], h[1]), hex_pair(h[2], h[3]), hex_pair(h[4], h[5]), hex_pair(h[6], h[7])) {
            (Some(r), Some(g), Some(b), Some(a)) => Some(Rgba8 { r, g, b, a }),
            _ => None,
        }
    } else {
        None
    }
}

/// Whether the trimmed colour text starts with `#`.
pub open spec fn has_hash(s: Seq<char>) -> bool {
    trim(s).len() > 0 && trim(s)[0] == '#'
}

/// What parsing `s` as a colour gives: the colour, or the error message.
pub open spec fn color_result(s: Seq<char>) -> Result<Rgba8, Seq<char>> {
    if !has_hash(s) {
        Err("unsupported color: "@ + trim(s))
    } else {
        match hex_color(trim(s).drop_first()) {
            Some(c) => Ok(c),
            None => Err("invalid color: "@ + trim(s)),
        }
    }
}

fn is_hex_char(c: char) -> (b: bool)
    ensures
        b == is_hex_digit(c),
{
    ('0' <= c && c <= '9') || ('a' <= c && c <= 'f') || ('A' <= c && c <= 'F')
}

fn hex_color_of(h: &Vec<char>) -> (c: Option<Rgba8>)
    ensures
        c == hex_color(h@),
{
    if h.len() == 3 {
        if is_hex_char(h[0]) && is_hex_char(h[1]) && is_hex_char(h[2]) {
            let r = hex1(h[0]);
            let g = hex1(h[1]);
            let b = hex1(h[2]);
            return Some(Rgba8 { r: r * 17, g: g * 17, b: b * 17, a: 255 });
        }
        return None;
    }
    if h.len() == 6 {
        match (hex2(h[0], h[1]), hex2(h[2], h[3]), hex2(h[4], h[5])) {
            (Some(r), Some(g), Some(b)) => Some(Rgba8 { r, g, b, a: 255 }),
            _ => None,
        }
    } else if h.len() == 8 {
        match (hex2(h[0], h[1]), hex2(h[2], h[3]), hex2(h[4], h[5]), hex2(h[6], h[7])) {
            (Some(r), Some(g), Some(b), Some(a)) => Some(Rgba8 { r, g, b, a }),
            _ => None,
        }
    } else {
        None
    }
}

/// Parses a hex colour (`#rgb`, `#rrggbb` or `#rrggbbaa`, surrounding white
/// space ignored).
pub fn parse_color(s: &str) -> (r: Result<Rgba8, CompatError>)
    ensures
        match color_result(s@) {
            Ok(c) => r == Ok::<Rgba8, CompatError>(c),
            Err(msg) => r matches Err(CompatError::StyleParseError(m)) && m@ == msg,
        },
{
    let chars = str_chars(s);
    let t = trim_chars(&chars);
    if t.len() == 0 || t[0] != '#' {
        return Err(CompatError::StyleParseError(concat_chars("unsupported color: ", &t)));
    }
    let hex = sub_chars(&t, 1, t.len());
    assert(hex@ == trim(s@).drop_first());
    match hex_color_of(&hex) {
        Some(c) => Ok(c),
        None => Err(CompatError::StyleParseError(concat_chars("invalid color: ", &t))),
    }
}

/// The byte two hex digits spell, high digit first.
pub open spec fn byte_of(hi: char, lo: char) -> int {
    hex_value(hi) * 16 + hex_value(lo)
}

/// Where each channel of a hex colour comes from: for `#rrggbb` and
/// `#rrggbbaa` red is spelled by digits 0-1, green by 2-3, blue by 4-5 and
/// alpha by 6-7 (255 when absent); for `#rgb` each digit is doubled; a body
/// with any other character, or of any other length, is no colour.  An
/// eight-digit colour has the channels of its first six digits.
pub proof fn lemma_hex_color_channels(h: Seq<char>)
    ensures
        (h.len() == 3 || h.len() == 6 || h.len() == 8) && (forall|i: int|
            0 <= i < h.len() ==> is_hex_digit(#[trigger] h[i])) <==> hex_color(h) is Some,
        h.len() == 8 && hex_color(h) is Some ==> {
            let c = hex_color(h)->0;
            &&& c.r == byte_of(h[0], h[1])
            &&& c.g == byte_of(h[2], h[3])
            &&& c.b == byte_of(h[4], h[5])
            &&& c.a == byte_of(h[6], h[7])
            &&& hex_color(h.take(6)) == Some(Rgba8 { a: 255, ..c })
        },
        h.len() == 6 && hex_color(h) is Some ==> {
            let c = hex_color(h)->0;
            &&& c.r == byte_of(h[0], h[1])
            &&& c.g == byte_of(h[2], h[3])
            &&& c.b == byte_of(h[4], h[5])
            &&& c.a == 255
        },
        h.len() == 3 && hex_color(h) is Some ==> {
            let c = hex_color(h)->0;
            &&& c.r == byte_of(h[0], h[0])
            &&& c.g == byte_of(h[1], h[1])
            &&& c.b == byte_of(h[2], h[2])
            &&& c.a == 255
        },
{
    if h.len() == 8 {
        let t = h.take(6);
        assert(t[0] == h[0] && t[1] == h[1] && t[2] == h[2] && t[3] == h[3] && t[4] == h[4] && t[5] == h[5]);
        if forall|i: int| 0 <= i < h.len() ==> is_hex_digit(#[trigger] h[i]) {
            assert(is_hex_digit(h[0]) && is_hex_digit(h[1]) && is_hex_digit(h[2]) && is_hex_digit(h[3]));
            assert(is_hex_digit(h[4]) && is_hex_digit(h[5]) && is_hex_digit(h[6]) && is_hex_digit(h[7]));
        }
    } else if h.len() == 6 {
        if forall|i: int| 0 <= i < h.len() ==> is_hex_digit(#[trigger] h[i]) {
            assert(is_hex_digit(h[0]) && is_hex_digit(h[1]) && is_hex_digit(h[2]) && is_hex_digit(h[3]));
            assert(is_hex_digit(h[4]) && is_hex_digit(h[5]));
        }
    } else if h.len() == 3 {
        if forall|i: int| 0 <= i < h.len() ==> is_hex_digit(#[trigger] h[i]) {
            assert(is_hex_digit(h[0]) && is_hex_digit(h[1]) && is_hex_digit(h[2]));
        }
    }
    if hex_color(h) is Some {
        assert forall|i: int| 0 <= i < h.len() implies is_hex_digit(#[trigger] h[i]) by {
            if h.len() == 8 || h.len() == 6 {
                assert(i == 0 || i == 1 || i == 2 || i == 3 || i == 4 || i == 5 || i == 6 || i == 7);
            }
        }
    }
}

// ---------------------------------------------------------------------------
// Numbers
// ---------------------------------------------------------------------------

/// Whether `c` is an ASCII decimal digit.
pub open spec fn is_digit(c: char) -> bool {
    '0' <= c && c <= '9'
}

/// Whether `c` is a sign.
pub open spec fn is_sign(c: char) -> bool {
    c == '+' || c == '-'
}

/// `s` spells the word whose lower- and upper-case letters are given,
/// letter by letter in either case.
pub open spec fn spells(s: Seq<char>, lower: Seq<char>, upper: Seq<char>) -> bool {
    &&& s.len() == lower.len()
    &&& lower.len() == upper.len()
    &&& forall|i: int| 0 <= i < s.len() ==> #[trigger] s[i] == lower[i] || s[i] == upper[i]
}

/// Digits with at most one decimal point and at least one digit.
pub open spec fn is_mantissa(s: Seq<char>) -> bool {
    &&& forall|i: int| 0 <= i < s.len() ==> is_digit(#[trigger] s[i]) || s[i] == '.'
    &&& forall|i: int, j: int| 0 <= i < j < s.len() ==> !(#[trigger] s[i] == '.' && #[trigger] s[j] == '.')
    &&& exists|i: int| 0 <= i < s.len() && is_digit(#[trigger] s[i])
}

/// `e` or `E`, an optional sign, then one or more digits.
pub open spec fn is_exponent(s: Seq<char>) -> bool {
    &&& s.len() >= 2
    &&& (s[0] == 'e' || s[0] == 'E')
    &&& {
        let r = s.drop_first();
        if is_sign(r[0]) {
            r.len() >= 2 && forall|i: int| 1 <= i < r.len() ==> is_digit(#[trigger] r[i])
        } else {
            forall|i: int| 0 <= i < r.len() ==> is_digit(#[trigger] r[i])
        }
    }
}

/// A mantissa, optionally followed by an exponent.
pub open spec fn is_number(s: Seq<char>) -> bool {
    exists|k: int|
        0 <= k <= s.len() && #[trigger] is_mantissa(s.subrange(0, k)) && (k == s.len()
            || is_exponent(s.subrange(k, s.len() as int)))
}

/// Whether std's `f32` parser accepts `s`: an optional sign, then `inf`,
/// `infinity`, `nan` (in any case) or a decimal number with an optional
/// exponent.  White space is not accepted.
pub open spec fn is_float_text(s: Seq<char>) -> bool {
    let body = if s.len() > 0 && is_sign(s[0]) {
        s.drop_first()
    } else {
        s
    };
    ||| spells(body, "inf"@, "INF"@)
    ||| spells(body, "infinity"@, "INFINITY"@)
    ||| spells(body, "nan"@, "NAN"@)
    ||| is_number(body)
}

fn spells_at(s: &Vec<char>, start: usize, lower: &str, upper: &str) -> (b: bool)
    requires
        start <= s@.len(),
    ensures
        b == spells(s@.subrange(start as int, s@.len() as int), lower@, upper@),
{
    let lw = str_chars(lower);
    let uw = str_chars(upper);
    let ghost body = s@.subrange(start as int, s@.len() as int);
    if s.len() - start != lw.len() || lw.len() != uw.len() {
        return false;
    }
    let mut i: usize = 0;
    while i < lw.len()
        invariant
            start <= s@.len(),
            body == s@.subrange(start as int, s@.len() as int),
            body.len() == lw@.len(),
            start + lw@.len() == s@.len(),
            lw@.len() == uw@.len(),
            lw@ == lower@,
            uw@ == upper@,
            i <= lw@.len(),
            forall|k: int| 0 <= k < i ==> #[trigger] body[k] == lw@[k] || body[k] == uw@[k],
        decreases lw@.len() - i,
    {
        let n = s.len();
        assert(start + i < n);
        let c = s[start + i];
        assert(c == body[i as int]);
        if c != lw[i] && c != uw[i] {
            return false;
        }
        i = i + 1;
    }
    true
}

fn number_at(s: &Vec<char>, start: usize) -> (b: bool)
    requires
        start <= s@.len(),
    ensures
        b == is_number(s@.subrange(start as int, s@.len() as int)),
{
    let ghost body = s@.subrange(start as int, s@.len() as int);
    let n = s.len();
    let mut k: usize = start;
    let mut dots: usize = 0;
    let mut digits: bool = false;
    let mut first_dot: usize = 0;
    while k < n && (('0' <= s[k] && s[k] <= '9') || s[k] == '.')
        invariant
            start <= k <= n,
            n == s@.len(),
            body == s@.subrange(start as int, n as int),
            forall|i: int| start <= i < k ==> is_digit(#[trigger] s@[i]) || s@[i] == '.',
            dots <= k - start,
            dots == 0 ==> forall|i: int| start <= i < k ==> #[trigger] s@[i] != '.',
            dots >= 1 ==> start <= first_dot < k && s@[first_dot as int] == '.',
            dots == 1 ==> forall|i: int| start <= i < k && i != first_dot ==> #[trigger] s@[i] != '.',
            dots >= 2 ==> exists|i: int| start <= i < k && i != first_dot && #[trigger] s@[i] == '.',
            digits <==> exists|i: int| start <= i < k && is_digit(#[trigger] s@[i]),
        decreases n - k,
    {
        if s[k] == '.' {
            if dots == 0 {
                first_dot = k;
            }
            dots = dots + 1;
        } else {
            digits = true;
        }
        k = k + 1;
    }
    let ghost m = body.subrange(0, k - start);
    assert forall|i: int| 0 <= i < m.len() implies m[i] == s@[start + i] by {}
    let mantissa_ok = dots <= 1 && digits;
    proof {
        if mantissa_ok {
            assert forall|i: int| 0 <= i < m.len() implies is_digit(#[trigger] m[i]) || m[i] == '.' by {
                assert(m[i] == s@[start + i]);
            }
            assert forall|i: int, j: int| 0 <= i < j < m.len() implies !(#[trigger] m[i] == '.'
                && #[trigger] m[j] == '.') by {
                assert(m[i] == s@[start + i]);
                assert(m[j] == s@[start + j]);
            }
            let w = choose|i: int| start <= i < k && is_digit(#[trigger] s@[i]);
            assert(m[w - start] == s@[w]);
            assert(is_mantissa(m));
        } else {
            if dots >= 2 {
                let b2 = choose|i: int| start <= i < k && i != first_dot && #[trigger] s@[i] == '.';
                let a = first_dot - start;
                let b = b2 - start;
                assert(m[a] == '.');
                assert(m[b] == '.');
                if a < b {
                    assert(!(m[a] == '.' && m[b] == '.') ==> !is_mantissa(m));
                } else {
                    assert(!(m[b] == '.' && m[a] == '.') ==> !is_mantissa(m));
                }
                assert(!is_mantissa(m));
            }
        }
    }
    let rest_ok = if k == n {
        true
    } else {
        // exponent: e|E, optional sign, digits
        if (s[k] == 'e' || s[k] == 'E') && k + 1 < n {
            let mut j = k + 1;
            if s[j] == '+' || s[j] == '-' {
                j = j + 1;
            }
            if j == n {
                false
            } else {
                let j0 = j;
                let mut ok = true;
                while j < n
                    invariant
                        k + 1 <= j0 <= j <= n,
                        n == s@.len(),
                        ok <==> forall|i: int| j0 <= i < j ==> is_digit(#[trigger] s@[i]),
                    decreases n - j,
                {
                    if !('0' <= s[j] && s[j] <= '9') {
                        ok = false;
                    }
                    j = j + 1;
                }
                ok
            }
        } else {
            false
        }
    };
    proof {
        let kk = k - start;
        if k < n {
            let e = body.subrange(kk, body.len() as int);
            assert(e =~= s@.subrange(k as int, n as int));
            let r = e.drop_first();
            assert forall|i: int| 0 <= i < r.len() implies r[i] == s@[k + 1 + i] by {}
            if rest_ok {
                assert(is_exponent(e));
            } else {
                if is_exponent(e) {
                    if is_sign(r[0]) {
                        assert forall|i: int| k + 2 <= i < n implies is_digit(#[trigger] s@[i]) by {
                            assert(r[i - k - 1] == s@[i]);
                        }
                    } else {
                        assert forall|i: int| k + 1 <= i < n implies is_digit(#[trigger] s@[i]) by {
                            assert(r[i - k - 1] == s@[i]);
                        }
                    }
                }
            }
        } else {
            assert(kk == body.len());
        }
        if mantissa_ok && rest_ok {
            assert(is_mantissa(body.subrange(0, kk)));
            assert(is_number(body));
        }
        if is_number(body) {
            let q = choose|q: int|
                0 <= q <= body.len() && #[trigger] is_mantissa(body.subrange(0, q)) && (q == body.len()
                    || is_exponent(body.subrange(q, body.len() as int)));
            // the mantissa ends where the scan stopped
            let mq = body.subrange(0, q);
            if q < kk {
                let e = body.subrange(q, body.len() as int);
                assert(e[0] == s@[start + q]);
                assert(false);
            }
            if q > kk {
                assert(mq[kk] == s@[k as int]);
                assert(false);
            }
            assert(q == kk);
            assert(mq =~= m);
            if dots >= 2 {
                let b2 = choose|i: int| start <= i < k && i != first_dot && #[trigger] s@[i] == '.';
                let a = first_dot - start;
                let b = b2 - start;
                assert(m[a] == '.');
                assert(m[b] == '.');
                assert(false);
            }
            if !digits {
                let w = choose|i: int| 0 <= i < m.len() && is_digit(#[trigger] m[i]);
                assert(m[w] == s@[start + w]);
                assert(false);
            }
        }
    }
    mantissa_ok && rest_ok
}

/// Whether std's `f32` parser accepts the characters `s`.
pub fn float_text_ok(s: &Vec<char>) -> (b: bool)
    ensures
        b == is_float_text(s@),
{
    let start: usize = if s.len() > 0 && (s[0] == '+' || s[0] == '-') {
        1
    } else {
        0
    };
    assert(s@.subrange(start as int, s@.len() as int) == (if s@.len() > 0 && is_sign(s@[0]) {
        s@.drop_first()
    } else {
        s@
    }));
    spells_at(s, start, "inf", "INF") || spells_at(s, start, "infinity", "INFINITY") || spells_at(
        s,
        start,
        "nan",
        "NAN",
    ) || number_at(s, start)
}

} // verus!
