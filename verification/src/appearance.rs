//! Hyprland's decoration settings as the theme reads them: colors written
//! `AARRGGBB`, `css` shorthands and `gradient` stops from `getoption` replies.

use vstd::prelude::*;

use crate::text::{chars_of, split_words, strings_view, words};

verus! {

/// Straight-alpha sRGB color.
#[derive(Clone, Copy, Debug, PartialEq, Eq)]
pub struct Rgba {
    pub r: u8,
    pub g: u8,
    pub b: u8,
    pub a: u8,
}

pub open spec fn rgba_of(argb: u32) -> Rgba {
    Rgba {
        a: (argb / 0x100_0000) as u8,
        r: ((argb / 0x1_0000) % 0x100) as u8,
        g: ((argb / 0x100) % 0x100) as u8,
        b: (argb % 0x100) as u8,
    }
}

impl Rgba {
    /// The color of `0xAARRGGBB`.
    pub fn from_argb(argb: u32) -> (r: Rgba)
        ensures
            r == rgba_of(argb),
    {
        assert((argb >> 24) as u8 == (argb / 0x100_0000) as u8) by (bit_vector);
        assert((argb >> 16) as u8 == ((argb / 0x1_0000) % 0x100) as u8) by (bit_vector);
        assert((argb >> 8) as u8 == ((argb / 0x100) % 0x100) as u8) by (bit_vector);
        assert(argb as u8 == (argb % 0x100) as u8) by (bit_vector);
        Rgba { a: (argb >> 24) as u8, r: (argb >> 16) as u8, g: (argb >> 8) as u8, b: argb as u8 }
    }

    /// Parses the `AARRGGBB` form Hyprland uses inside gradients (or `RRGGBB`,
    /// opaque). See [`hex_argb`].
    pub fn parse_hex_argb(text: &str) -> (r: Result<Rgba, ColorError>)
        ensures
            match r {
                Ok(c) => hex_argb(text@) == Some(c),
                Err(ColorError::Bad(t)) => hex_argb(text@) is None && t@ == text@
                    && hex_color_value(strip_0x(text@)) is None,
                Err(ColorError::Length(t)) => hex_argb(text@) is None && t@ == text@
                    && hex_color_value(strip_0x(text@)) is Some,
            },
    {
        let cs = chars_of(text);
        let mut start: usize = 0;
        assert(cs@.skip(0) =~= text@);
        while start < cs.len() && cs.len() - start >= 2 && cs[start] == '0' && cs[start + 1] == 'x'
            invariant
                start <= cs@.len(),
                cs@ == text@,
                strip_0x(cs@.skip(start as int)) == strip_0x(text@),
            decreases cs@.len() - start,
        {
            assert(cs@.skip(start as int).skip(2) =~= cs@.skip(start + 2));
            start = start + 2;
        }
        let ghost digits = cs@.skip(start as int);
        assert(strip_0x(digits) == digits);
        let d = crate::text::string_of(&cs.as_slice()[start..cs.len()]);
        assert(d@ =~= digits);
        // A sign is not part of a color, though `from_str_radix` would take a `+`.
        if start < cs.len() && cs[start] == '+' {
            return Err(ColorError::Bad(text.to_owned()));
        }
        match u32_from_hex(d.as_str()) {
            None => Err(ColorError::Bad(text.to_owned())),
            Some(value) => {
                let n = cs.len() - start;
                if n == 6 {
                    Ok(Rgba::from_argb(0xff00_0000 | value))
                } else if n == 8 {
                    Ok(Rgba::from_argb(value))
                } else {
                    Err(ColorError::Length(text.to_owned()))
                }
            },
        }
    }
}

/// Why a color did not parse; the text that was given.
#[derive(Clone, Debug, PartialEq, Eq)]
pub enum ColorError {
    /// Not a hexadecimal number.
    Bad(String),
    /// Neither 6 (`RRGGBB`) nor 8 (`AARRGGBB`) digits.
    Length(String),
}

/// `s` without its leading `0x` prefixes (`str::trim_start_matches("0x")`).
pub open spec fn strip_0x(s: Seq<char>) -> Seq<char>
    decreases s.len(),
{
    if s.len() >= 2 && s[0] == '0' && s[1] == 'x' {
        strip_0x(s.skip(2))
    } else {
        s
    }
}

pub open spec fn hex_digit(c: char) -> Option<nat> {
    let u = c as u32;
    if 48 <= u && u <= 57 {
        Some((u - 48) as nat)
    } else if 97 <= u && u <= 102 {
        Some((u - 87) as nat)
    } else if 65 <= u && u <= 70 {
        Some((u - 55) as nat)
    } else {
        None
    }
}

/// The number that the hexadecimal digits `s` write.
pub open spec fn hex_value(s: Seq<char>) -> Option<nat>
    decreases s.len(),
{
    if s.len() == 0 {
        Some(0)
    } else {
        match (hex_value(s.drop_last()), hex_digit(s.last())) {
            (Some(v), Some(d)) => Some(v * 16 + d),
            _ => None,
        }
    }
}

/// What `u32::from_str_radix(s, 16)` accepts: an optional `+`, then at least one
/// hexadecimal digit, for a value that fits in a `u32`.
pub open spec fn parse_hex_u32(s: Seq<char>) -> Option<u32> {
    let digits = if s.len() > 0 && s[0] == '+' {
        s.drop_first()
    } else {
        s
    };
    if digits.len() == 0 {
        None
    } else {
        match hex_value(digits) {
            Some(v) => if v <= u32::MAX {
                Some(v as u32)
            } else {
                None
            },
            None => None,
        }
    }
}

/// A prefix of hexadecimal digits writes a number no larger than the whole.
proof fn lemma_hex_value_prefix(t: Seq<char>, k: int)
    requires
        0 <= k <= t.len(),
        hex_value(t) is Some,
    ensures
        hex_value(t.take(k)) is Some,
        hex_value(t.take(k))->0 <= hex_value(t)->0,
    decreases t.len(),
{
    if k == t.len() {
        assert(t.take(k) =~= t);
    } else {
        lemma_hex_value_prefix(t.drop_last(), k);
        assert(t.drop_last().take(k) =~= t.take(k));
    }
}

/// The value of hexadecimal digit `c`, see [`hex_digit`].
fn hex_digit_of(c: char) -> (r: Option<u32>)
    ensures
        match r {
            Some(d) => hex_digit(c) == Some(d as nat) && d < 16,
            None => hex_digit(c) is None,
        },
{
    let u = c as u32;
    if 48 <= u && u <= 57 {
        Some(u - 48)
    } else if 97 <= u && u <= 102 {
        Some(u - 87)
    } else if 65 <= u && u <= 70 {
        Some(u - 55)
    } else {
        None
    }
}

/// What `u32::from_str_radix(s, 16)` gives, as its documentation states it: an
/// optional `+` sign followed by hexadecimal digits of either case; anything else, or
/// an overflow, is an error. See [`parse_hex_u32`].
fn u32_from_hex(s: &str) -> (r: Option<u32>)
    ensures
        r == parse_hex_u32(s@),
{
    let cs = chars_of(s);
    let start: usize = if cs.len() > 0 && cs[0] == '+' {
        1
    } else {
        0
    };
    let ghost digits = cs@.skip(start as int);
    assert(start == 1 ==> digits =~= s@.drop_first());
    assert(start == 0 ==> digits =~= s@);
    if start == cs.len() {
        return None;
    }
    let mut acc: u32 = 0;
    let mut i: usize = start;
    while i < cs.len()
        invariant
            start <= i <= cs@.len(),
            cs@ == s@,
            digits == cs@.skip(start as int),
            digits == (if s@.len() > 0 && s@[0] == '+' { s@.drop_first() } else { s@ }),
            digits.len() > 0,
            hex_value(digits.take(i - start)) == Some(acc as nat),
        decreases cs@.len() - i,
    {
        let ghost before = digits.take(i - start);
        assert(digits.take(i - start + 1).drop_last() =~= before);
        assert(digits.take(i - start + 1).last() == cs@[i as int]);
        let d = match hex_digit_of(cs[i]) {
            Some(d) => d,
            None => {
                proof {
                    if hex_value(digits) is Some {
                        lemma_hex_value_prefix(digits, i - start + 1);
                    }
                }
                return None;
            },
        };
        if acc > (0xffff_ffff - d) / 16 {
            proof {
                assert(acc * 16 + d > 0xffff_ffff) by (nonlinear_arith)
                    requires
                        acc > (0xffff_ffff - d) / 16,
                        d < 16,
                ;
                if hex_value(digits) is Some {
                    lemma_hex_value_prefix(digits, i - start + 1);
                }
            }
            return None;
        }
        acc = acc * 16 + d;
        i = i + 1;
    }
    assert(digits.take(i - start) =~= digits);
    Some(acc)
}

/// The number that the hexadecimal digits of a color write: digits only, no sign.
pub open spec fn hex_color_value(digits: Seq<char>) -> Option<u32> {
    if digits.len() > 0 && digits[0] == '+' {
        None
    } else {
        parse_hex_u32(digits)
    }
}

/// The color written `AARRGGBB` or `RRGGBB` (opaque), after any `0x` prefixes: six or
/// eight hexadecimal digits, without a sign.
pub open spec fn hex_argb(text: Seq<char>) -> Option<Rgba> {
    let digits = strip_0x(text);
    match hex_color_value(digits) {
        Some(v) => if digits.len() == 6 {
            Some(rgba_of(0xff00_0000 | v))
        } else if digits.len() == 8 {
            Some(rgba_of(v))
        } else {
            None
        },
        None => None,
    }
}

/// `c` at full opacity.
pub open spec fn opaque(c: Rgba) -> Rgba {
    Rgba { a: 0xff, ..c }
}

/// The colors a theme takes from the border gradients, at full opacity.
#[derive(Clone, Copy, Debug, PartialEq, Eq)]
pub struct Accents {
    /// The first stop of the active border.
    pub accent: Option<Rgba>,
    /// The second stop of the active border, else its first.
    pub accent_alt: Option<Rgba>,
    /// The first stop of the inactive border.
    pub inactive: Option<Rgba>,
}

/// See [`Accents`]; `None` where a gradient has no such stop.
pub fn accents(active: &Vec<Rgba>, inactive: &Vec<Rgba>) -> (r: Accents)
    ensures
        r.accent == if active@.len() > 0 { Some(opaque(active@[0])) } else { None::<Rgba> },
        r.accent_alt == if active@.len() > 1 {
            Some(opaque(active@[1]))
        } else if active@.len() > 0 {
            Some(opaque(active@[0]))
        } else {
            None::<Rgba>
        },
        r.inactive == if inactive@.len() > 0 { Some(opaque(inactive@[0])) } else { None::<Rgba> },
{
    let accent = if active.len() > 0 {
        Some(Rgba { a: 0xff, ..active[0] })
    } else {
        None
    };
    let accent_alt = if active.len() > 1 {
        Some(Rgba { a: 0xff, ..active[1] })
    } else {
        accent
    };
    let inactive = if inactive.len() > 0 {
        Some(Rgba { a: 0xff, ..inactive[0] })
    } else {
        None
    };
    Accents { accent, accent_alt, inactive }
}

/// A corner radius for the theme: Hyprland's rounding, capped at `u8::MAX`.
pub fn rounding_of(rounding: u32) -> (r: u8)
    ensures
        r == if rounding > u8::MAX { u8::MAX as int } else { rounding as int },
{
    if rounding > 0xff {
        0xff
    } else {
        rounding as u8
    }
}

/// Whether an event of Hyprland's event socket with this name means that its
/// settings, and so the theme, may have changed.
pub fn reloads_theme(name: &str) -> (r: bool)
    ensures
        r == (name@ == "configreloaded"@),
{
    crate::text::same_text(name, "configreloaded")
}

/// The number that the decimal digits `s` write.
pub open spec fn decimal_value(s: Seq<char>) -> Option<nat>
    decreases s.len(),
{
    if s.len() == 0 {
        Some(0)
    } else {
        let u = s.last() as u32;
        match decimal_value(s.drop_last()) {
            Some(v) => if 48 <= u && u <= 57 {
                Some(v * 10 + (u - 48) as nat)
            } else {
                None
            },
            None => None,
        }
    }
}

/// What `str::parse::<i64>` accepts: an optional `+` or `-`, then at least one
/// decimal digit, for a value that fits in an `i64`.
pub open spec fn parse_i64(s: Seq<char>) -> Option<i64> {
    let negative = s.len() > 0 && s[0] == '-';
    let digits = if s.len() > 0 && (s[0] == '-' || s[0] == '+') {
        s.drop_first()
    } else {
        s
    };
    if digits.len() == 0 {
        None
    } else {
        match decimal_value(digits) {
            Some(v) => {
                let x: int = if negative {
                    -v
                } else {
                    v as int
                };
                if i64::MIN <= x && x <= i64::MAX {
                    Some(x as i64)
                } else {
                    None
                }
            },
            None => None,
        }
    }
}

/// A prefix of decimal digits writes a number no larger than the whole.
proof fn lemma_decimal_value_prefix(t: Seq<char>, k: int)
    requires
        0 <= k <= t.len(),
        decimal_value(t) is Some,
    ensures
        decimal_value(t.take(k)) is Some,
        decimal_value(t.take(k))->0 <= decimal_value(t)->0,
    decreases t.len(),
{
    if k == t.len() {
        assert(t.take(k) =~= t);
    } else {
        lemma_decimal_value_prefix(t.drop_last(), k);
        assert(t.drop_last().take(k) =~= t.take(k));
    }
}

/// What `str::parse::<i64>` gives, as the documentation of `i64::from_str_radix`
/// states it for radix 10: an optional `+` or `-` sign followed by decimal digits;
/// anything else, an empty string or an overflow is an error. See [`parse_i64`].
fn i64_from_decimal(s: &str) -> (r: Option<i64>)
    ensures
        r == parse_i64(s@),
{
    let cs = chars_of(s);
    let negative = cs.len() > 0 && cs[0] == '-';
    let start: usize = if cs.len() > 0 && (cs[0] == '-' || cs[0] == '+') {
        1
    } else {
        0
    };
    let ghost digits = cs@.skip(start as int);
    assert(start == 1 ==> digits =~= s@.drop_first());
    assert(start == 0 ==> digits =~= s@);
    if start == cs.len() {
        return None;
    }
    // The largest magnitude the sign allows.
    let limit: u64 = if negative {
        9_223_372_036_854_775_808
    } else {
        9_223_372_036_854_775_807
    };
    let mut acc: u64 = 0;
    let mut i: usize = start;
    while i < cs.len()
        invariant
            start <= i <= cs@.len(),
            cs@ == s@,
            digits == cs@.skip(start as int),
            digits == (if s@.len() > 0 && (s@[0] == '-' || s@[0] == '+') { s@.drop_first() } else { s@ }),
            digits.len() > 0,
            negative == (s@.len() > 0 && s@[0] == '-'),
            decimal_value(digits.take(i - start)) == Some(acc as nat),
            acc <= limit,
            limit == if negative { 9_223_372_036_854_775_808u64 } else { 9_223_372_036_854_775_807u64 },
        decreases cs@.len() - i,
    {
        let ghost before = digits.take(i - start);
        assert(digits.take(i - start + 1).drop_last() =~= before);
        assert(digits.take(i - start + 1).last() == cs@[i as int]);
        let u = cs[i] as u32;
        if !(48 <= u && u <= 57) {
            proof {
                if decimal_value(digits) is Some {
                    lemma_decimal_value_prefix(digits, i - start + 1);
                }
            }
            return None;
        }
        let d = (u - 48) as u64;
        if acc > (limit - d) / 10 {
            proof {
                assert(acc * 10 + d > limit) by (nonlinear_arith)
                    requires
                        acc > (limit - d) / 10,
                        d < 10,
                ;
                if decimal_value(digits) is Some {
                    lemma_decimal_value_prefix(digits, i - start + 1);
                }
            }
            return None;
        }
        acc = acc * 10 + d;
        i = i + 1;
    }
    assert(digits.take(i - start) =~= digits);
    if negative {
        if acc == 9_223_372_036_854_775_808 {
            Some(i64::MIN)
        } else {
            Some(-(acc as i64))
        }
    } else {
        Some(acc as i64)
    }
}

/// The values of a `css` shorthand's words, or the first word that is not an integer.
pub open spec fn css_values(ws: Seq<Seq<char>>) -> Result<Seq<i64>, Seq<char>>
    decreases ws.len(),
{
    if ws.len() == 0 {
        Ok(Seq::empty())
    } else {
        match css_values(ws.drop_last()) {
            Ok(vs) => match parse_i64(ws.last()) {
                Some(v) => Ok(vs.push(v)),
                None => Err(ws.last()),
            },
            Err(w) => Err(w),
        }
    }
}

/// A `css` value that is not an integer; the word that was given.
#[derive(Clone, Debug, PartialEq, Eq)]
pub struct CssError(pub String);

/// Splits a `css` shorthand such as `"4 8 4 8"` (`top right bottom left`) into its
/// integers. See [`css_values`].
pub fn parse_css(text: &str) -> (r: Result<Vec<i64>, CssError>)
    ensures
        match r {
            Ok(v) => css_values(words(text@)) == Ok::<Seq<i64>, Seq<char>>(v@),
            Err(e) => css_values(words(text@)) == Err::<Seq<i64>, Seq<char>>(e.0@),
        },
{
    let ws = split_words(text);
    let ghost all = words(text@);
    let mut out: Vec<i64> = Vec::new();
    let mut i: usize = 0;
    while i < ws.len()
        invariant
            i <= ws@.len(),
            strings_view(ws@) == all,
            all == words(text@),
            css_values(all.take(i as int)) == Ok::<Seq<i64>, Seq<char>>(out@),
        decreases ws@.len() - i,
    {
        assert(all.take(i + 1).drop_last() =~= all.take(i as int));
        assert(all.take(i + 1).last() == ws@[i as int]@);
        match i64_from_decimal(ws[i].as_str()) {
            Some(v) => out.push(v),
            None => {
                proof {
                    lemma_css_values_prefix_error(all, i + 1);
                }
                return Err(CssError(ws[i].clone()));
            },
        }
        i = i + 1;
    }
    assert(all.take(i as int) =~= all);
    Ok(out)
}

/// A failure in a prefix of the words is the failure of all of them.
proof fn lemma_css_values_prefix_error(ws: Seq<Seq<char>>, n: int)
    requires
        0 <= n <= ws.len(),
        css_values(ws.take(n)) is Err,
    ensures
        css_values(ws) == css_values(ws.take(n)),
    decreases ws.len() - n,
{
    if n < ws.len() {
        assert(ws.take(n + 1).drop_last() =~= ws.take(n));
        lemma_css_values_prefix_error(ws, n + 1);
    } else {
        assert(ws.take(n) =~= ws);
    }
}

/// Whether `w` ends in `deg`: the angle of a gradient, which the theme drops.
pub open spec fn is_angle(w: Seq<char>) -> bool {
    w.len() >= 3 && w[w.len() - 3] == 'd' && w[w.len() - 2] == 'e' && w[w.len() - 1] == 'g'
}

/// The color stops of a gradient's words, angles dropped, or the first word that is
/// not a color.
pub open spec fn gradient_stops(ws: Seq<Seq<char>>) -> Result<Seq<Rgba>, Seq<char>>
    decreases ws.len(),
{
    if ws.len() == 0 {
        Ok(Seq::empty())
    } else {
        match gradient_stops(ws.drop_last()) {
            Ok(cs) => if is_angle(ws.last()) {
                Ok(cs)
            } else {
                match hex_argb(ws.last()) {
                    Some(c) => Ok(cs.push(c)),
                    None => Err(ws.last()),
                }
            },
            Err(w) => Err(w),
        }
    }
}

/// Parses a `gradient` value such as `"ff7fbbb3 aa595959 45deg"` into its color stops;
/// the angle is dropped. See [`gradient_stops`]; an error is the one
/// [`Rgba::parse_hex_argb`] gives for the first word that is not a color.
pub fn parse_gradient(text: &str) -> (r: Result<Vec<Rgba>, ColorError>)
    ensures
        match r {
            Ok(v) => gradient_stops(words(text@)) == Ok::<Seq<Rgba>, Seq<char>>(v@),
            Err(ColorError::Bad(t)) => gradient_stops(words(text@)) == Err::<Seq<Rgba>, Seq<char>>(
                t@,
            ) && hex_color_value(strip_0x(t@)) is None,
            Err(ColorError::Length(t)) => gradient_stops(words(text@)) == Err::<
                Seq<Rgba>,
                Seq<char>,
            >(t@) && hex_color_value(strip_0x(t@)) is Some,
        },
{
    let ws = split_words(text);
    let ghost all = words(text@);
    let mut out: Vec<Rgba> = Vec::new();
    let mut i: usize = 0;
    while i < ws.len()
        invariant
            i <= ws@.len(),
            strings_view(ws@) == all,
            all == words(text@),
            gradient_stops(all.take(i as int)) == Ok::<Seq<Rgba>, Seq<char>>(out@),
        decreases ws@.len() - i,
    {
        assert(all.take(i + 1).drop_last() =~= all.take(i as int));
        assert(all.take(i + 1).last() == ws@[i as int]@);
        if !ends_with_deg(ws[i].as_str()) {
            match Rgba::parse_hex_argb(ws[i].as_str()) {
                Ok(c) => out.push(c),
                Err(e) => {
                    proof {
                        lemma_gradient_stops_prefix_error(all, i + 1);
                    }
                    return Err(e);
                },
            }
        }
        i = i + 1;
    }
    assert(all.take(i as int) =~= all);
    Ok(out)
}

/// A failure in a prefix of the words is the failure of all of them.
proof fn lemma_gradient_stops_prefix_error(ws: Seq<Seq<char>>, n: int)
    requires
        0 <= n <= ws.len(),
        gradient_stops(ws.take(n)) is Err,
    ensures
        gradient_stops(ws) == gradient_stops(ws.take(n)),
    decreases ws.len() - n,
{
    if n < ws.len() {
        assert(ws.take(n + 1).drop_last() =~= ws.take(n));
        lemma_gradient_stops_prefix_error(ws, n + 1);
    } else {
        assert(ws.take(n) =~= ws);
    }
}

/// See [`is_angle`].
fn ends_with_deg(w: &str) -> (r: bool)
    ensures
        r == is_angle(w@),
{
    let cs = chars_of(w);
    let n = cs.len();
    n >= 3 && cs[n - 3] == 'd' && cs[n - 2] == 'e' && cs[n - 1] == 'g'
}

/// An `int` option read as an `0xAARRGGBB` color: only values that fit in a `u32`.
pub fn color_of_int(v: i64) -> (r: Option<Rgba>)
    ensures
        r == if 0 <= v && v <= u32::MAX {
            Some(rgba_of(v as u32))
        } else {
            None
        },
{
    if 0 <= v && v <= 0xffff_ffff {
        Some(Rgba::from_argb(v as u32))
    } else {
        None
    }
}

/// An integer option as a pixel count: negative values count as 0, values past
/// `u32::MAX` as `u32::MAX`.
pub fn pixels_of(raw: i64) -> (r: u32)
    ensures
        r == if raw < 0 {
            0
        } else if raw > u32::MAX {
            u32::MAX as int
        } else {
            raw as int
        },
{
    if raw < 0 {
        0
    } else if raw > 0xffff_ffff {
        0xffff_ffff
    } else {
        raw as u32
    }
}

} // verus!
