//! `wayprompt.5` INI configuration: section dispatch (`[general]`,
//! `[colours]`), trailing-semicolon stripping, inline `#` comments,
//! hyphen-to-underscore field matching, and hex `0xRRGGBB` / `0xRRGGBBAA`
//! to premultiplied-alpha [`Colour`] conversion.
use vstd::prelude::*;
use vstd::string::StringSliceAdditionalSpecFns;
use vstd::utf8::*;

use crate::text::{
    bytes_eq, concat3, find_byte, find_first, lemma_after_ascii, lemma_sub_valid, lemma_trim_valid,
    join_path, nc_or_end, path_join, rskip_ws_from, str_of, to_owned_string, trim, trim_bounds, trim_end, utf8_str, view_opt,
};



verus! {

broadcast use vstd::utf8::group_utf8_lib;

/// Error returned by configuration parsing.
#[derive(Debug, Clone, PartialEq, Eq)]
pub enum ConfigError {
    /// I/O error reading the config file.
    Io(String),
    /// Syntax error: malformed line, unknown section, assignment outside a
    /// section, unknown variable, invalid integer or invalid colour.
    BadConfig { path: String, line: usize, message: String },
}

/// Whether `e` is `BadConfig` with exactly this path, line and message.
pub open spec fn is_bad_config(e: ConfigError, path: Seq<char>, line: usize, message: Seq<char>) -> bool {
    match e {
        ConfigError::BadConfig { path: p, line: l, message: m } => p@ == path && l == line && m@
            == message,
        _ => false,
    }
}

impl ConfigError {
    /// The human-readable description of the error: the I/O message, or
    /// `path:line: message`.
    pub fn message(&self) -> (m: String)
        ensures
            match self {
                ConfigError::Io(t) => m@ == "config I/O error: "@ + t@,
                ConfigError::BadConfig { path, line, message } => m@ == path@ + ":"@
                    + crate::text::decimal_chars(*line as nat) + ": "@ + message@,
            },
    {
        match self {
            ConfigError::Io(t) => {
                let mut m = String::from_str("config I/O error: ");
                m.append(t.as_str());
                m
            },
            ConfigError::BadConfig { path, line, message } => {
                let mut m = String::from_str(path.as_str());
                m.append(":");
                crate::text::append_decimal(&mut m, *line as u64);
                m.append(": ");
                m.append(message.as_str());
                m
            },
        }
    }
}

/// Premultiplied-alpha 16-bit RGBA colour.
#[derive(Debug, Clone, Copy, PartialEq, Eq, Structural)]
pub struct Colour {
    pub red: u16,
    pub green: u16,
    pub blue: u16,
    pub alpha: u16,
}

impl Default for Colour {
    fn default() -> (c: Colour)
        ensures
            c == (Colour { red: 0, green: 0, blue: 0, alpha: 0 }),
    {
        Colour { red: 0, green: 0, blue: 0, alpha: 0 }
    }
}

/// The 16-bit value of an 8-bit channel: `c * 65535 / 255`, i.e. `257 * c`.
pub open spec fn widen(c: u8) -> nat {
    257 * (c as nat)
}

/// A 16-bit channel premultiplied by a 16-bit alpha, truncated:
/// `channel_16 * alpha_16 / 0xffff`.
pub open spec fn premultiply(c: u8, a: u8) -> u16 {
    ((widen(c) * widen(a)) / 65535) as u16
}

/// The premultiplied colour of 8-bit channels.
pub open spec fn spec_colour(r: u8, g: u8, b: u8, a: u8) -> Colour {
    Colour {
        red: premultiply(r, a),
        green: premultiply(g, a),
        blue: premultiply(b, a),
        alpha: widen(a) as u16,
    }
}

proof fn lemma_premultiply_bound(c: u8, a: u8)
    ensures
        (widen(c) * widen(a)) / 65535 <= widen(a),
        widen(a) <= 65535,
{
    assert((257 * (c as nat)) * (257 * (a as nat)) <= 65535 * (257 * (a as nat))) by (nonlinear_arith)
        requires
            c <= 255,
    ;
    assert(((257 * (c as nat)) * (257 * (a as nat))) / 65535 <= 257 * (a as nat)) by (nonlinear_arith)
        requires
            (257 * (c as nat)) * (257 * (a as nat)) <= 65535 * (257 * (a as nat)),
    ;
}

/// Premultiplies 8-bit channels into a [`Colour`] ([`spec_colour`]): each
/// channel is widened to 16 bits and scaled by the widened alpha over
/// 65535, rounding down.
pub fn colour_from_rgba8(r: u8, g: u8, b: u8, a: u8) -> (c: Colour)
    ensures
        c == spec_colour(r, g, b, a),
{
    proof {
        lemma_premultiply_bound(r, a);
        lemma_premultiply_bound(g, a);
        lemma_premultiply_bound(b, a);
    }
    let alpha: u64 = 257 * (a as u64);
    let red = ((257 * (r as u64)) * alpha / 65535) as u16;
    let green = ((257 * (g as u64)) * alpha / 65535) as u16;
    let blue = ((257 * (b as u64)) * alpha / 65535) as u16;
    Colour { red, green, blue, alpha: alpha as u16 }
}

/// The value of one digit byte in `radix` (10 or 16), if it is one.
pub open spec fn digit_value(c: u8, radix: nat) -> Option<nat> {
    if 0x30 <= c && c <= 0x39 && (c - 0x30) < radix {
        Some((c - 0x30) as nat)
    } else if radix == 16 && 0x61 <= c && c <= 0x66 {
        Some((c - 0x61 + 10) as nat)
    } else if radix == 16 && 0x41 <= c && c <= 0x46 {
        Some((c - 0x41 + 10) as nat)
    } else {
        None
    }
}

/// The value of a digit string in `radix`, if every byte is a digit.
pub open spec fn digits_value(d: Seq<u8>, radix: nat) -> Option<nat>
    decreases d.len(),
{
    if d.len() == 0 {
        Some(0)
    } else {
        match (digits_value(d.drop_last(), radix), digit_value(d.last(), radix)) {
            (Some(h), Some(l)) => Some(h * radix + l),
            _ => None,
        }
    }
}

/// `from_str_radix` for an unsigned integer type whose maximum is `max`: an
/// optional leading `+` (not alone), then at least one digit, with a value
/// of at most `max`.
pub open spec fn parse_unsigned(s: Seq<u8>, radix: nat, max: nat) -> Option<nat> {
    let d = if s.len() > 1 && s[0] == 0x2b {
        s.drop_first()
    } else {
        s
    };
    if d.len() == 0 {
        None
    } else {
        match digits_value(d, radix) {
            Some(v) => if v <= max {
                Some(v)
            } else {
                None
            },
            None => None,
        }
    }
}

/// Whether every byte of `s` is an ASCII hexadecimal digit.
pub open spec fn all_hex(s: Seq<u8>) -> bool {
    forall|i: int| 0 <= i < s.len() ==> #[trigger] digit_value(s[i], 16) is Some
}

/// Whether every byte of `s` is an ASCII hexadecimal digit ([`all_hex`]).
pub fn hex_digits_only(s: &[u8]) -> (r: bool)
    ensures
        r == all_hex(s@),
{
    let mut i: usize = 0;
    while i < s.len()
        invariant
            i <= s@.len(),
            forall|j: int| 0 <= j < i ==> #[trigger] digit_value(s@[j], 16) is Some,
        decreases s@.len() - i,
    {
        let c = s[i];
        if !((0x30 <= c && c <= 0x39) || (0x61 <= c && c <= 0x66) || (0x41 <= c && c <= 0x46)) {
            assert(digit_value(s@[i as int], 16) is None);
            return false;
        }
        i = i + 1;
    }
    true
}

proof fn lemma_digits_prefix(d: Seq<u8>, i: int, radix: nat)
    requires
        0 <= i <= d.len(),
        radix >= 1,
        digits_value(d, radix) is Some,
    ensures
        digits_value(d.take(i), radix) is Some,
        digits_value(d.take(i), radix)->0 <= digits_value(d, radix)->0,
    decreases d.len(),
{
    if i == d.len() {
        assert(d.take(i) =~= d);
    } else {
        assert(d.drop_last().take(i) =~= d.take(i));
        lemma_digits_prefix(d.drop_last(), i, radix);
        let h = digits_value(d.drop_last(), radix)->0;
        assert(h <= h * radix) by (nonlinear_arith)
            requires
                radix >= 1,
        ;
    }
}

/// Exec form of [`parse_unsigned`] for radix 10 or 16 and `max < 2^32`.
pub fn parse_unsigned_exec(s: &[u8], radix: u64, max: u64) -> (r: Option<u64>)
    requires
        radix == 10 || radix == 16,
        max < 0x1_0000_0000,
    ensures
        match parse_unsigned(s@, radix as nat, max as nat) {
            Some(v) => r == Some(v as u64),
            None => r is None,
        },
{
    let start: usize = if s.len() > 1 && s[0] == 0x2b {
        1
    } else {
        0
    };
    let ghost d = if s@.len() > 1 && s@[0] == 0x2b {
        s@.drop_first()
    } else {
        s@
    };
    assert(d =~= s@.subrange(start as int, s@.len() as int));
    if start == s.len() {
        return None;
    }
    let mut acc: u64 = 0;
    let mut i: usize = start;
    while i < s.len()
        invariant
            start <= i <= s@.len(),
            start < s@.len(),
            d =~= s@.subrange(start as int, s@.len() as int),
            d == (if s@.len() > 1 && s@[0] == 0x2b {
                s@.drop_first()
            } else {
                s@
            }),
            radix == 10 || radix == 16,
            max < 0x1_0000_0000,
            acc <= max,
            digits_value(d.take(i - start), radix as nat) == Some(acc as nat),
        decreases s@.len() - i,
    {
        let c = s[i];
        let v: u64 = if 0x30 <= c && c <= 0x39 && ((c - 0x30) as u64) < radix {
            (c - 0x30) as u64
        } else if radix == 16 && 0x61 <= c && c <= 0x66 {
            (c - 0x61 + 10) as u64
        } else if radix == 16 && 0x41 <= c && c <= 0x46 {
            (c - 0x41 + 10) as u64
        } else {
            proof {
                let k = (i + 1 - start) as int;
                assert(d.take(k).drop_last() =~= d.take(k - 1));
                assert(d.take(k).last() == c);
                assert(digit_value(c, radix as nat) is None);
                assert(digits_value(d.take(k), radix as nat) is None);
                if digits_value(d, radix as nat) is Some {
                    lemma_digits_prefix(d, k, radix as nat);
                    assert(false);
                }
                assert(parse_unsigned(s@, radix as nat, max as nat) is None);
            }
            return None;
        };
        proof {
            assert(d.take(i + 1 - start).drop_last() =~= d.take(i - start));
            assert(d.take(i + 1 - start).last() == c);
            assert(acc * radix + v <= 0xffff_ffff * 16 + 15) by (nonlinear_arith)
                requires
                    acc <= 0xffff_ffff,
                    radix <= 16,
                    v <= 15,
            ;
        }
        let next = acc * radix + v;
        if next > max {
            proof {
                let k = (i + 1 - start) as int;
                assert(digit_value(c, radix as nat) == Some(v as nat));
                assert(digits_value(d.take(k), radix as nat) == Some(next as nat));
                if digits_value(d, radix as nat) is Some {
                    lemma_digits_prefix(d, k, radix as nat);
                }
                assert(parse_unsigned(s@, radix as nat, max as nat) is None);
            }
            return None;
        }
        acc = next;
        i = i + 1;
    }
    proof {
        assert(d.take(i - start) =~= d);
    }
    Some(acc)
}

/// Extracts the 8-bit `(r, g, b, a)` channels from the parsed hexadecimal
/// value: the 6-digit form is `0xRRGGBB` with opaque alpha, the 8-digit
/// form is `0xRRGGBBAA`.
pub open spec fn colour_channels(value: nat, eight_digits: bool) -> (u8, u8, u8, u8) {
    if eight_digits {
        (
            ((value / 0x100_0000) % 256) as u8,
            ((value / 0x1_0000) % 256) as u8,
            ((value / 0x100) % 256) as u8,
            (value % 256) as u8,
        )
    } else {
        (((value / 0x1_0000) % 256) as u8, ((value / 0x100) % 256) as u8, (value % 256) as u8, 0xff)
    }
}

/// What [`parse_colour`] gives for the UTF-8 bytes `h` of its argument:
/// the colour, or the parenthesised reason of the error message.
pub open spec fn spec_parse_colour(h: Seq<u8>) -> Result<Colour, Seq<char>> {
    if h.len() != 8 && h.len() != 10 {
        Err("expected 0xRRGGBB or 0xRRGGBBAA"@)
    } else if h[0] != 0x30 || h[1] != 0x78 {
        Err("missing 0x prefix"@)
    } else if !all_hex(h.subrange(2, h.len() as int)) {
        Err("invalid hex digits"@)
    } else {
        match parse_unsigned(h.subrange(2, h.len() as int), 16, 0xffff_ffff) {
            Some(v) => {
                let (r, g, b, a) = colour_channels(v, h.len() == 10);
                Ok(spec_colour(r, g, b, a))
            },
            None => Err("invalid hex digits"@),
        }
    }
}

/// The message of a colour error for input `hex` with the given reason.
pub open spec fn colour_error_message(hex: Seq<char>, reason: Seq<char>) -> Seq<char> {
    "bad colour: '"@ + hex + "' ("@ + reason + ")"@
}

fn colour_error(hex: &str, reason: &str) -> (e: ConfigError)
    ensures
        is_bad_config(e, Seq::empty(), 0, colour_error_message(hex@, reason@)),
{
    let mut message = String::from_str("bad colour: '");
    message.append(hex);
    message.append("' (");
    message.append(reason);
    message.append(")");
    ConfigError::BadConfig { path: String::new(), line: 0, message }
}

/// Parses `0xRRGGBB` (opaque) or `0xRRGGBBAA` into a premultiplied-alpha
/// [`Colour`]. Errors carry an empty path, line 0 and a message naming the
/// input and the reason.
pub fn parse_colour(hex: &str) -> (r: Result<Colour, ConfigError>)
    ensures
        match spec_parse_colour(hex.spec_bytes()) {
            Ok(c) => r == Ok::<Colour, ConfigError>(c),
            Err(reason) => r matches Err(e) && is_bad_config(
                e,
                Seq::empty(),
                0,
                colour_error_message(hex@, reason),
            ),
        },
{
    let bytes = hex.as_bytes();
    if bytes.len() != 8 && bytes.len() != 10 {
        return Err(colour_error(hex, "expected 0xRRGGBB or 0xRRGGBBAA"));
    }
    if bytes[0] != 0x30 || bytes[1] != 0x78 {
        return Err(colour_error(hex, "missing 0x prefix"));
    }
    let digits = &bytes[2..bytes.len()];
    if !hex_digits_only(digits) {
        return Err(colour_error(hex, "invalid hex digits"));
    }
    let parsed = match parse_unsigned_exec(digits, 16, 0xffff_ffff) {
        Some(v) => v,
        None => {
            return Err(colour_error(hex, "invalid hex digits"));
        },
    };
    let (r, g, b, a) = if bytes.len() == 10 {
        (
            ((parsed / 0x100_0000) % 256) as u8,
            ((parsed / 0x1_0000) % 256) as u8,
            ((parsed / 0x100) % 256) as u8,
            (parsed % 256) as u8,
        )
    } else {
        (((parsed / 0x1_0000) % 256) as u8, ((parsed / 0x100) % 256) as u8, (parsed % 256) as u8, 0xff)
    };
    Ok(colour_from_rgba8(r, g, b, a))
}

/// Whether config variable `v` names the field `f`: equal lengths, a `-`
/// in `v` wherever `f` has `_`, and equal bytes everywhere else.
pub open spec fn field_matches(f: Seq<u8>, v: Seq<u8>) -> bool {
    &&& f.len() == v.len()
    &&& forall|i: int|
        0 <= i < f.len() ==> if f[i] == 0x5f {
            v[i] == 0x2d
        } else {
            v[i] == f[i]
        }
}

/// Compares a field name (using `_`) with a config variable (using `-`):
/// positions where the field has `_` accept only `-` in the variable; all
/// other positions must match exactly.
pub fn field_eq(field: &str, variable: &str) -> (r: bool)
    ensures
        r == field_matches(field.spec_bytes(), variable.spec_bytes()),
{
    let f = field.as_bytes();
    let v = variable.as_bytes();
    if f.len() != v.len() {
        return false;
    }
    let mut i: usize = 0;
    while i < f.len()
        invariant
            f@ == field.spec_bytes(),
            v@ == variable.spec_bytes(),
            f@.len() == v@.len(),
            i <= f@.len(),
            forall|j: int|
                0 <= j < i ==> if f@[j] == 0x5f {
                    v@[j] == 0x2d
                } else {
                    v@[j] == f@[j]
                },
        decreases f@.len() - i,
    {
        if f[i] == 0x5f {
            if v[i] != 0x2d {
                proof {
                    assert(f@[i as int] == 0x5f && v@[i as int] != 0x2d);
                }
                return false;
            }
        } else if f[i] != v[i] {
            proof {
                assert(f@[i as int] != 0x5f && v@[i as int] != f@[i as int]);
            }
            return false;
        }
        i = i + 1;
    }
    true
}


/// Runtime-populated label strings. Not parsed from the config file.
#[derive(Debug, Clone, PartialEq, Eq)]
pub struct Labels {
    pub title: Option<String>,
    pub description: Option<String>,
    pub prompt: Option<String>,
    pub err_message: Option<String>,
    pub not_ok: Option<String>,
    pub ok: Option<String>,
    pub cancel: Option<String>,
}

/// The characters of an optional string.
pub open spec fn opt_view(o: Option<String>) -> Option<Seq<char>> {
    match o {
        Some(s) => Some(s@),
        None => None,
    }
}

/// The label strings as character sequences.
pub struct LabelsView {
    pub title: Option<Seq<char>>,
    pub description: Option<Seq<char>>,
    pub prompt: Option<Seq<char>>,
    pub err_message: Option<Seq<char>>,
    pub not_ok: Option<Seq<char>>,
    pub ok: Option<Seq<char>>,
    pub cancel: Option<Seq<char>>,
}

impl View for Labels {
    type V = LabelsView;

    open spec fn view(&self) -> LabelsView {
        LabelsView {
            title: opt_view(self.title),
            description: opt_view(self.description),
            prompt: opt_view(self.prompt),
            err_message: opt_view(self.err_message),
            not_ok: opt_view(self.not_ok),
            ok: opt_view(self.ok),
            cancel: opt_view(self.cancel),
        }
    }
}

/// No label set.
pub open spec fn empty_labels() -> LabelsView {
    LabelsView {
        title: None,
        description: None,
        prompt: None,
        err_message: None,
        not_ok: None,
        ok: None,
        cancel: None,
    }
}

impl Default for Labels {
    fn default() -> (l: Labels)
        ensures
            l@ == empty_labels(),
    {
        Labels {
            title: None,
            description: None,
            prompt: None,
            err_message: None,
            not_ok: None,
            ok: None,
            cancel: None,
        }
    }
}

/// Wayland UI dimensions populated from `[general]`.
#[derive(Debug, Clone, PartialEq, Eq)]
pub struct WaylandUi {
    pub vertical_padding: u16,
    pub horizontal_padding: u16,
    pub button_inner_padding: u16,
    pub pin_square_size: u16,
    pub pin_square_border: u16,
    pub button_border: u16,
    pub border: u16,
    pub corner_radius: u16,
    pub pin_square_amount: u16,
    pub font_regular: Option<String>,
    pub font_large: Option<String>,
}

/// The UI settings with the font strings as character sequences.
pub struct WaylandUiView {
    pub vertical_padding: u16,
    pub horizontal_padding: u16,
    pub button_inner_padding: u16,
    pub pin_square_size: u16,
    pub pin_square_border: u16,
    pub button_border: u16,
    pub border: u16,
    pub corner_radius: u16,
    pub pin_square_amount: u16,
    pub font_regular: Option<Seq<char>>,
    pub font_large: Option<Seq<char>>,
}

impl View for WaylandUi {
    type V = WaylandUiView;

    open spec fn view(&self) -> WaylandUiView {
        WaylandUiView {
            vertical_padding: self.vertical_padding,
            horizontal_padding: self.horizontal_padding,
            button_inner_padding: self.button_inner_padding,
            pin_square_size: self.pin_square_size,
            pin_square_border: self.pin_square_border,
            button_border: self.button_border,
            border: self.border,
            corner_radius: self.corner_radius,
            pin_square_amount: self.pin_square_amount,
            font_regular: opt_view(self.font_regular),
            font_large: opt_view(self.font_large),
        }
    }
}

/// The documented `[general]` defaults.
pub open spec fn default_ui() -> WaylandUiView {
    WaylandUiView {
        vertical_padding: 10,
        horizontal_padding: 15,
        button_inner_padding: 5,
        pin_square_size: 18,
        pin_square_border: 1,
        button_border: 1,
        border: 2,
        corner_radius: 10,
        pin_square_amount: 16,
        font_regular: None,
        font_large: None,
    }
}

impl Default for WaylandUi {
    fn default() -> (u: WaylandUi)
        ensures
            u@ == default_ui(),
    {
        WaylandUi {
            vertical_padding: 10,
            horizontal_padding: 15,
            button_inner_padding: 5,
            pin_square_size: 18,
            pin_square_border: 1,
            button_border: 1,
            border: 2,
            corner_radius: 10,
            pin_square_amount: 16,
            font_regular: None,
            font_large: None,
        }
    }
}

/// The outcome of assigning one `key = value` pair inside a section.
pub enum Assign<T> {
    /// The key named a field; the section with that field set.
    Assigned(T),
    /// The key names no field of the section.
    Unknown,
    /// The key named a field but the value is invalid; the error message.
    Invalid(Seq<char>),
}

/// The message of an invalid integer value.
pub open spec fn int_error_message(value: Seq<char>) -> Seq<char> {
    "invalid positive integer: '"@ + value + "'"@
}

/// Assigning `variable = value` in `[general]`: the integer fields take a
/// decimal `u16`, the font fields any string.
pub open spec fn ui_assign(ui: WaylandUiView, variable: Seq<u8>, value: Seq<u8>) -> Assign<
    WaylandUiView,
> {
    let n = parse_unsigned(value, 10, 65535);
    let bad = Assign::Invalid(int_error_message(decode_utf8(value)));
    if field_matches("vertical_padding".spec_bytes(), variable) {
        match n {
            Some(x) => Assign::Assigned(WaylandUiView { vertical_padding: x as u16, ..ui }),
            None => bad,
        }
    } else if field_matches("horizontal_padding".spec_bytes(), variable) {
        match n {
            Some(x) => Assign::Assigned(WaylandUiView { horizontal_padding: x as u16, ..ui }),
            None => bad,
        }
    } else if field_matches("button_inner_padding".spec_bytes(), variable) {
        match n {
            Some(x) => Assign::Assigned(WaylandUiView { button_inner_padding: x as u16, ..ui }),
            None => bad,
        }
    } else if field_matches("pin_square_size".spec_bytes(), variable) {
        match n {
            Some(x) => Assign::Assigned(WaylandUiView { pin_square_size: x as u16, ..ui }),
            None => bad,
        }
    } else if field_matches("pin_square_border".spec_bytes(), variable) {
        match n {
            Some(x) => Assign::Assigned(WaylandUiView { pin_square_border: x as u16, ..ui }),
            None => bad,
        }
    } else if field_matches("button_border".spec_bytes(), variable) {
        match n {
            Some(x) => Assign::Assigned(WaylandUiView { button_border: x as u16, ..ui }),
            None => bad,
        }
    } else if field_matches("border".spec_bytes(), variable) {
        match n {
            Some(x) => Assign::Assigned(WaylandUiView { border: x as u16, ..ui }),
            None => bad,
        }
    } else if field_matches("corner_radius".spec_bytes(), variable) {
        match n {
            Some(x) => Assign::Assigned(WaylandUiView { corner_radius: x as u16, ..ui }),
            None => bad,
        }
    } else if field_matches("pin_square_amount".spec_bytes(), variable) {
        match n {
            Some(x) => Assign::Assigned(WaylandUiView { pin_square_amount: x as u16, ..ui }),
            None => bad,
        }
    } else if field_matches("font_regular".spec_bytes(), variable) {
        Assign::Assigned(WaylandUiView { font_regular: Some(decode_utf8(value)), ..ui })
    } else if field_matches("font_large".spec_bytes(), variable) {
        Assign::Assigned(WaylandUiView { font_large: Some(decode_utf8(value)), ..ui })
    } else {
        Assign::Unknown
    }
}

/// Whether `r`, `final` and `old` realise the assignment outcome `a` for a
/// section whose value is described by `view`.
pub open spec fn assign_done<T>(
    a: Assign<T>,
    r: Result<bool, ConfigError>,
    old_view: T,
    new_view: T,
    path: Seq<char>,
    line: usize,
) -> bool {
    match a {
        Assign::Assigned(v) => r == Ok::<bool, ConfigError>(true) && new_view == v,
        Assign::Unknown => r == Ok::<bool, ConfigError>(false) && new_view == old_view,
        Assign::Invalid(m) => r matches Err(e) && is_bad_config(e, path, line, m) && new_view
            == old_view,
    }
}

fn bad_config(path: &str, line: usize, message: String) -> (e: ConfigError)
    ensures
        is_bad_config(e, path@, line, message@),
{
    ConfigError::BadConfig { path: to_string(path), line, message }
}

fn to_string(s: &str) -> (r: String)
    ensures
        r@ == s@,
{
    String::from_str(s)
}

impl WaylandUi {
    /// Assigns a single `variable = value` pair: `Ok(true)` when the field
    /// was recognised and assigned, `Ok(false)` when unknown, `Err` when the
    /// integer value does not parse.
    pub fn assign(&mut self, path: &str, line: usize, variable: &str, value: &str) -> (r: Result<
        bool,
        ConfigError,
    >)
        ensures
            assign_done(
                ui_assign(old(self)@, variable.spec_bytes(), value.spec_bytes()),
                r,
                old(self)@,
                final(self)@,
                path@,
                line,
            ),
    {
        let n = parse_unsigned_exec(value.as_bytes(), 10, 65535);
        proof {
            encode_utf8_decode_utf8(value@);
        }
        if field_eq("vertical_padding", variable) {
            match n {
                Some(x) => {
                    self.vertical_padding = x as u16;
                    return Ok(true);
                },
                None => {
                    return Err(bad_config(path, line, concat3("invalid positive integer: '", value, "'")));
                },
            }
        }
        if field_eq("horizontal_padding", variable) {
            match n {
                Some(x) => {
                    self.horizontal_padding = x as u16;
                    return Ok(true);
                },
                None => {
                    return Err(bad_config(path, line, concat3("invalid positive integer: '", value, "'")));
                },
            }
        }
        if field_eq("button_inner_padding", variable) {
            match n {
                Some(x) => {
                    self.button_inner_padding = x as u16;
                    return Ok(true);
                },
                None => {
                    return Err(bad_config(path, line, concat3("invalid positive integer: '", value, "'")));
                },
            }
        }
        if field_eq("pin_square_size", variable) {
            match n {
                Some(x) => {
                    self.pin_square_size = x as u16;
                    return Ok(true);
                },
                None => {
                    return Err(bad_config(path, line, concat3("invalid positive integer: '", value, "'")));
                },
            }
        }
        if field_eq("pin_square_border", variable) {
            match n {
                Some(x) => {
                    self.pin_square_border = x as u16;
                    return Ok(true);
                },
                None => {
                    return Err(bad_config(path, line, concat3("invalid positive integer: '", value, "'")));
                },
            }
        }
        if field_eq("button_border", variable) {
            match n {
                Some(x) => {
                    self.button_border = x as u16;
                    return Ok(true);
                },
                None => {
                    return Err(bad_config(path, line, concat3("invalid positive integer: '", value, "'")));
                },
            }
        }
        if field_eq("border", variable) {
            match n {
                Some(x) => {
                    self.border = x as u16;
                    return Ok(true);
                },
                None => {
                    return Err(bad_config(path, line, concat3("invalid positive integer: '", value, "'")));
                },
            }
        }
        if field_eq("corner_radius", variable) {
            match n {
                Some(x) => {
                    self.corner_radius = x as u16;
                    return Ok(true);
                },
                None => {
                    return Err(bad_config(path, line, concat3("invalid positive integer: '", value, "'")));
                },
            }
        }
        if field_eq("pin_square_amount", variable) {
            match n {
                Some(x) => {
                    self.pin_square_amount = x as u16;
                    return Ok(true);
                },
                None => {
                    return Err(bad_config(path, line, concat3("invalid positive integer: '", value, "'")));
                },
            }
        }
        if field_eq("font_regular", variable) {
            self.font_regular = Some(to_string(value));
            return Ok(true);
        }
        if field_eq("font_large", variable) {
            self.font_large = Some(to_string(value));
            return Ok(true);
        }
        Ok(false)
    }
}


/// Wayland colours populated from `[colours]`.
#[derive(Debug, Clone, Copy, PartialEq, Eq, Structural)]
pub struct WaylandColours {
    pub background: Colour,
    pub border: Colour,
    pub text: Colour,
    pub error_text: Colour,
    pub pin_background: Colour,
    pub pin_border: Colour,
    pub pin_square: Colour,
    pub ok_button: Colour,
    pub ok_button_border: Colour,
    pub ok_button_text: Colour,
    pub not_ok_button: Colour,
    pub not_ok_button_border: Colour,
    pub not_ok_button_text: Colour,
    pub cancel_button: Colour,
    pub cancel_button_border: Colour,
    pub cancel_button_text: Colour,
}

/// The documented `[colours]` defaults.
pub open spec fn default_colours() -> WaylandColours {
    WaylandColours {
        background: spec_colour(0xff, 0xff, 0xff, 0xff),
        border: spec_colour(0x00, 0x00, 0x00, 0xff),
        text: spec_colour(0x00, 0x00, 0x00, 0xff),
        error_text: spec_colour(0xe0, 0x00, 0x2b, 0xff),
        pin_background: spec_colour(0xd0, 0xd0, 0xd0, 0xff),
        pin_border: spec_colour(0x00, 0x00, 0x00, 0xff),
        pin_square: spec_colour(0x80, 0x80, 0x80, 0xff),
        ok_button: spec_colour(0xd5, 0xf2, 0x00, 0xff),
        ok_button_border: spec_colour(0x00, 0x00, 0x00, 0xff),
        ok_button_text: spec_colour(0x00, 0x00, 0x00, 0xff),
        not_ok_button: spec_colour(0xff, 0xe5, 0x3e, 0xff),
        not_ok_button_border: spec_colour(0x00, 0x00, 0x00, 0xff),
        not_ok_button_text: spec_colour(0x00, 0x00, 0x00, 0xff),
        cancel_button: spec_colour(0xff, 0x46, 0x47, 0xff),
        cancel_button_border: spec_colour(0x00, 0x00, 0x00, 0xff),
        cancel_button_text: spec_colour(0x00, 0x00, 0x00, 0xff),
    }
}

impl Default for WaylandColours {
    fn default() -> (c: WaylandColours)
        ensures
            c == default_colours(),
    {
        WaylandColours {
            background: colour_from_rgba8(0xff, 0xff, 0xff, 0xff),
            border: colour_from_rgba8(0x00, 0x00, 0x00, 0xff),
            text: colour_from_rgba8(0x00, 0x00, 0x00, 0xff),
            error_text: colour_from_rgba8(0xe0, 0x00, 0x2b, 0xff),
            pin_background: colour_from_rgba8(0xd0, 0xd0, 0xd0, 0xff),
            pin_border: colour_from_rgba8(0x00, 0x00, 0x00, 0xff),
            pin_square: colour_from_rgba8(0x80, 0x80, 0x80, 0xff),
            ok_button: colour_from_rgba8(0xd5, 0xf2, 0x00, 0xff),
            ok_button_border: colour_from_rgba8(0x00, 0x00, 0x00, 0xff),
            ok_button_text: colour_from_rgba8(0x00, 0x00, 0x00, 0xff),
            not_ok_button: colour_from_rgba8(0xff, 0xe5, 0x3e, 0xff),
            not_ok_button_border: colour_from_rgba8(0x00, 0x00, 0x00, 0xff),
            not_ok_button_text: colour_from_rgba8(0x00, 0x00, 0x00, 0xff),
            cancel_button: colour_from_rgba8(0xff, 0x46, 0x47, 0xff),
            cancel_button_border: colour_from_rgba8(0x00, 0x00, 0x00, 0xff),
            cancel_button_text: colour_from_rgba8(0x00, 0x00, 0x00, 0xff),
        }
    }
}

/// The message of an invalid colour value: the value and the message of
/// the colour error as its display shows it (`:0: ` and its own message).
pub open spec fn colour_assign_message(value: Seq<char>, reason: Seq<char>) -> Seq<char> {
    colour_error_message(value, ":0: "@ + colour_error_message(value, reason))
}

/// Assigning `variable = value` in `[colours]`: every field takes a colour.
pub open spec fn colours_assign(c: WaylandColours, variable: Seq<u8>, value: Seq<u8>) -> Assign<
    WaylandColours,
> {
    let p = spec_parse_colour(value);
    let v = match p {
        Ok(col) => col,
        Err(_) => Colour { red: 0, green: 0, blue: 0, alpha: 0 },
    };
    let bad = Assign::Invalid(colour_assign_message(decode_utf8(value), p->Err_0));
    if field_matches("background".spec_bytes(), variable) {
        if p is Ok {
            Assign::Assigned(WaylandColours { background: v, ..c })
        } else {
            bad
        }
    } else if field_matches("border".spec_bytes(), variable) {
        if p is Ok {
            Assign::Assigned(WaylandColours { border: v, ..c })
        } else {
            bad
        }
    } else if field_matches("text".spec_bytes(), variable) {
        if p is Ok {
            Assign::Assigned(WaylandColours { text: v, ..c })
        } else {
            bad
        }
    } else if field_matches("error_text".spec_bytes(), variable) {
        if p is Ok {
            Assign::Assigned(WaylandColours { error_text: v, ..c })
        } else {
            bad
        }
    } else if field_matches("pin_background".spec_bytes(), variable) {
        if p is Ok {
            Assign::Assigned(WaylandColours { pin_background: v, ..c })
        } else {
            bad
        }
    } else if field_matches("pin_border".spec_bytes(), variable) {
        if p is Ok {
            Assign::Assigned(WaylandColours { pin_border: v, ..c })
        } else {
            bad
        }
    } else if field_matches("pin_square".spec_bytes(), variable) {
        if p is Ok {
            Assign::Assigned(WaylandColours { pin_square: v, ..c })
        } else {
            bad
        }
    } else if field_matches("ok_button".spec_bytes(), variable) {
        if p is Ok {
            Assign::Assigned(WaylandColours { ok_button: v, ..c })
        } else {
            bad
        }
    } else if field_matches("ok_button_border".spec_bytes(), variable) {
        if p is Ok {
            Assign::Assigned(WaylandColours { ok_button_border: v, ..c })
        } else {
            bad
        }
    } else if field_matches("ok_button_text".spec_bytes(), variable) {
        if p is Ok {
            Assign::Assigned(WaylandColours { ok_button_text: v, ..c })
        } else {
            bad
        }
    } else if field_matches("not_ok_button".spec_bytes(), variable) {
        if p is Ok {
            Assign::Assigned(WaylandColours { not_ok_button: v, ..c })
        } else {
            bad
        }
    } else if field_matches("not_ok_button_border".spec_bytes(), variable) {
        if p is Ok {
            Assign::Assigned(WaylandColours { not_ok_button_border: v, ..c })
        } else {
            bad
        }
    } else if field_matches("not_ok_button_text".spec_bytes(), variable) {
        if p is Ok {
            Assign::Assigned(WaylandColours { not_ok_button_text: v, ..c })
        } else {
            bad
        }
    } else if field_matches("cancel_button".spec_bytes(), variable) {
        if p is Ok {
            Assign::Assigned(WaylandColours { cancel_button: v, ..c })
        } else {
            bad
        }
    } else if field_matches("cancel_button_border".spec_bytes(), variable) {
        if p is Ok {
            Assign::Assigned(WaylandColours { cancel_button_border: v, ..c })
        } else {
            bad
        }
    } else if field_matches("cancel_button_text".spec_bytes(), variable) {
        if p is Ok {
            Assign::Assigned(WaylandColours { cancel_button_text: v, ..c })
        } else {
            bad
        }
    } else {
        Assign::Unknown
    }
}

fn colour_assign_error(path: &str, line: usize, value: &str, e: ConfigError) -> (r: ConfigError)
    requires
        e is BadConfig,
    ensures
        is_bad_config(
            r,
            path@,
            line,
            colour_error_message(value@, ":0: "@ + e->BadConfig_message@),
        ),
{
    let inner = match e {
        ConfigError::BadConfig { message, .. } => message,
        ConfigError::Io(m) => m,
    };
    let mut message = String::from_str("bad colour: '");
    message.append(value);
    message.append("' (");
    message.append(":0: ");
    message.append(inner.as_str());
    message.append(")");
    proof {
        assert(message@ =~= colour_error_message(value@, ":0: "@ + inner@));
    }
    bad_config(path, line, message)
}

impl WaylandColours {
    /// Assigns a single `variable = value` pair: `Ok(true)` when recognised,
    /// `Ok(false)` when unknown, `Err` on a bad colour.
    pub fn assign(&mut self, path: &str, line: usize, variable: &str, value: &str) -> (r: Result<
        bool,
        ConfigError,
    >)
        ensures
            assign_done(
                colours_assign(*old(self), variable.spec_bytes(), value.spec_bytes()),
                r,
                *old(self),
                *final(self),
                path@,
                line,
            ),
    {
        proof {
            encode_utf8_decode_utf8(value@);
        }
        if field_eq("background", variable) {
            match parse_colour(value) {
                Ok(col) => {
                    self.background = col;
                    return Ok(true);
                },
                Err(e) => {
                    return Err(colour_assign_error(path, line, value, e));
                },
            }
        }
        if field_eq("border", variable) {
            match parse_colour(value) {
                Ok(col) => {
                    self.border = col;
                    return Ok(true);
                },
                Err(e) => {
                    return Err(colour_assign_error(path, line, value, e));
                },
            }
        }
        if field_eq("text", variable) {
            match parse_colour(value) {
                Ok(col) => {
                    self.text = col;
                    return Ok(true);
                },
                Err(e) => {
                    return Err(colour_assign_error(path, line, value, e));
                },
            }
        }
        if field_eq("error_text", variable) {
            match parse_colour(value) {
                Ok(col) => {
                    self.error_text = col;
                    return Ok(true);
                },
                Err(e) => {
                    return Err(colour_assign_error(path, line, value, e));
                },
            }
        }
        if field_eq("pin_background", variable) {
            match parse_colour(value) {
                Ok(col) => {
                    self.pin_background = col;
                    return Ok(true);
                },
                Err(e) => {
                    return Err(colour_assign_error(path, line, value, e));
                },
            }
        }
        if field_eq("pin_border", variable) {
            match parse_colour(value) {
                Ok(col) => {
                    self.pin_border = col;
                    return Ok(true);
                },
                Err(e) => {
                    return Err(colour_assign_error(path, line, value, e));
                },
            }
        }
        if field_eq("pin_square", variable) {
            match parse_colour(value) {
                Ok(col) => {
                    self.pin_square = col;
                    return Ok(true);
                },
                Err(e) => {
                    return Err(colour_assign_error(path, line, value, e));
                },
            }
        }
        if field_eq("ok_button", variable) {
            match parse_colour(value) {
                Ok(col) => {
                    self.ok_button = col;
                    return Ok(true);
                },
                Err(e) => {
                    return Err(colour_assign_error(path, line, value, e));
                },
            }
        }
        if field_eq("ok_button_border", variable) {
            match parse_colour(value) {
                Ok(col) => {
                    self.ok_button_border = col;
                    return Ok(true);
                },
                Err(e) => {
                    return Err(colour_assign_error(path, line, value, e));
                },
            }
        }
        if field_eq("ok_button_text", variable) {
            match parse_colour(value) {
                Ok(col) => {
                    self.ok_button_text = col;
                    return Ok(true);
                },
                Err(e) => {
                    return Err(colour_assign_error(path, line, value, e));
                },
            }
        }
        if field_eq("not_ok_button", variable) {
            match parse_colour(value) {
                Ok(col) => {
                    self.not_ok_button = col;
                    return Ok(true);
                },
                Err(e) => {
                    return Err(colour_assign_error(path, line, value, e));
                },
            }
        }
        if field_eq("not_ok_button_border", variable) {
            match parse_colour(value) {
                Ok(col) => {
                    self.not_ok_button_border = col;
                    return Ok(true);
                },
                Err(e) => {
                    return Err(colour_assign_error(path, line, value, e));
                },
            }
        }
        if field_eq("not_ok_button_text", variable) {
            match parse_colour(value) {
                Ok(col) => {
                    self.not_ok_button_text = col;
                    return Ok(true);
                },
                Err(e) => {
                    return Err(colour_assign_error(path, line, value, e));
                },
            }
        }
        if field_eq("cancel_button", variable) {
            match parse_colour(value) {
                Ok(col) => {
                    self.cancel_button = col;
                    return Ok(true);
                },
                Err(e) => {
                    return Err(colour_assign_error(path, line, value, e));
                },
            }
        }
        if field_eq("cancel_button_border", variable) {
            match parse_colour(value) {
                Ok(col) => {
                    self.cancel_button_border = col;
                    return Ok(true);
                },
                Err(e) => {
                    return Err(colour_assign_error(path, line, value, e));
                },
            }
        }
        if field_eq("cancel_button_text", variable) {
            match parse_colour(value) {
                Ok(col) => {
                    self.cancel_button_text = col;
                    return Ok(true);
                },
                Err(e) => {
                    return Err(colour_assign_error(path, line, value, e));
                },
            }
        }
        Ok(false)
    }
}

/// Top-level configuration aggregating all sections plus runtime state.
#[derive(Debug, Clone, PartialEq, Eq)]
pub struct Config {
    pub labels: Labels,
    pub wayland_colours: WaylandColours,
    pub wayland_ui: WaylandUi,
    /// Whether a TTY fallback may be selected. Populated at runtime.
    pub allow_tty_fallback: bool,
    /// Explicit TTY name (e.g. provided by gpg-agent). Populated at runtime.
    pub tty_name: Option<String>,
    /// Explicit Wayland display socket. Populated at runtime.
    pub wayland_display: Option<String>,
}

/// The configuration with its strings as character sequences.
pub struct ConfigView {
    pub labels: LabelsView,
    pub wayland_colours: WaylandColours,
    pub wayland_ui: WaylandUiView,
    pub allow_tty_fallback: bool,
    pub tty_name: Option<Seq<char>>,
    pub wayland_display: Option<Seq<char>>,
}

impl View for Config {
    type V = ConfigView;

    open spec fn view(&self) -> ConfigView {
        ConfigView {
            labels: self.labels@,
            wayland_colours: self.wayland_colours,
            wayland_ui: self.wayland_ui@,
            allow_tty_fallback: self.allow_tty_fallback,
            tty_name: opt_view(self.tty_name),
            wayland_display: opt_view(self.wayland_display),
        }
    }
}

/// The default configuration.
pub open spec fn default_config() -> ConfigView {
    ConfigView {
        labels: empty_labels(),
        wayland_colours: default_colours(),
        wayland_ui: default_ui(),
        allow_tty_fallback: false,
        tty_name: None,
        wayland_display: None,
    }
}

impl Default for Config {
    fn default() -> (c: Config)
        ensures
            c@ == default_config(),
    {
        Config {
            labels: Labels::default(),
            wayland_colours: WaylandColours::default(),
            wayland_ui: WaylandUi::default(),
            allow_tty_fallback: false,
            tty_name: None,
            wayland_display: None,
        }
    }
}

impl Config {
    /// Clears every label (the Assuan `RESET` command); the rest stays.
    pub fn reset(&mut self)
        ensures
            final(self)@ == (ConfigView { labels: empty_labels(), ..old(self)@ }),
    {
        self.labels = Labels::default();
    }
}


/// Section tracking during parsing.
#[derive(Debug, Clone, Copy, PartialEq, Eq, Structural)]
pub enum Section {
    /// Before any section header.
    NoSection,
    General,
    Colours,
}

/// The value part of an assignment: trimmed, and without one trailing
/// semicolon (trimmed again at its end).
pub open spec fn assignment_value(v: Seq<u8>) -> Seq<u8> {
    if v.len() > 0 && v.last() == 0x3b {
        trim_end(v.drop_last())
    } else {
        v
    }
}

/// The effect of one config line: the new configuration and section, or
/// the error message.
#[verifier::opaque]
pub open spec fn spec_parse_line(cfg: ConfigView, section: Section, raw: Seq<u8>) -> Result<
    (ConfigView, Section),
    Seq<char>,
> {
    let t = trim(raw);
    if t.len() == 0 || t[0] == 0x23 {
        Ok((cfg, section))
    } else {
        let content = match find_first(t, 0x23) {
            Some(i) => trim_end(t.subrange(0, i)),
            None => t,
        };
        if content.len() == 0 {
            Ok((cfg, section))
        } else if content[0] == 0x5b {
            if content.last() == 0x5d {
                let name = trim(content.subrange(1, content.len() - 1));
                if name == "general".spec_bytes() {
                    Ok((cfg, Section::General))
                } else if name == "colours".spec_bytes() {
                    Ok((cfg, Section::Colours))
                } else {
                    Err("unknown section '"@ + decode_utf8(name) + "'"@)
                }
            } else {
                Err("syntax error: malformed section header"@)
            }
        } else {
            match find_first(content, 0x3d) {
                None => Err("syntax error: expected 'key = value'"@),
                Some(eq) => {
                    let key = trim(content.subrange(0, eq));
                    let value = assignment_value(trim(content.subrange(eq + 1, content.len() as int)));
                    match section {
                        Section::NoSection => Err("assignments must be part of a section"@),
                        Section::General => match ui_assign(cfg.wayland_ui, key, value) {
                            Assign::Assigned(u) => Ok((ConfigView { wayland_ui: u, ..cfg }, section)),
                            Assign::Unknown => Err(
                                "unknown variable in section 'general': '"@ + decode_utf8(key) + "'"@,
                            ),
                            Assign::Invalid(m) => Err(m),
                        },
                        Section::Colours => match colours_assign(cfg.wayland_colours, key, value) {
                            Assign::Assigned(c) => Ok(
                                (ConfigView { wayland_colours: c, ..cfg }, section),
                            ),
                            Assign::Unknown => Err(
                                "unknown variable in section 'colours': '"@ + decode_utf8(key) + "'"@,
                            ),
                            Assign::Invalid(m) => Err(m),
                        },
                    }
                },
            }
        }
    }
}

/// Why parsing stopped.
pub enum ConfigFail {
    /// A line was not valid UTF-8.
    NotUtf8,
    /// A line was rejected: its 1-based number and the message.
    Bad(nat, Seq<char>),
}

/// The line that starts `rest`: its bytes without the `\n` terminator (and
/// without a `\r` before that terminator), whether the bytes up to the
/// terminator are valid UTF-8, and what follows the terminator.
pub open spec fn next_line(rest: Seq<u8>) -> (Seq<u8>, bool, Seq<u8>) {
    match find_first(rest, 0x0a) {
        Some(i) => {
            let l = rest.subrange(0, i);
            let raw = if l.len() > 0 && l.last() == 0x0d {
                l.drop_last()
            } else {
                l
            };
            (raw, valid_utf8(l), rest.subrange(i + 1, rest.len() as int))
        },
        None => (rest, valid_utf8(rest), Seq::empty()),
    }
}

/// Parsing the lines of `rest` (the first of which has number
/// `line_no + 1`) in order: the configuration reached and, when a line stops
/// the parse, why.
pub open spec fn spec_parse_from(cfg: ConfigView, section: Section, rest: Seq<u8>, line_no: nat) -> (
    ConfigView,
    Option<ConfigFail>,
)
    decreases rest.len(),
{
    if rest.len() == 0 {
        (cfg, None)
    } else {
        let (raw, ok, next) = next_line(rest);
        if !ok {
            (cfg, Some(ConfigFail::NotUtf8))
        } else {
            match spec_parse_line(cfg, section, raw) {
                Ok((c, s)) => if next.len() < rest.len() {
                    spec_parse_from(c, s, next, line_no + 1)
                } else {
                    (c, None)
                },
                Err(m) => (cfg, Some(ConfigFail::Bad(line_no + 1, m))),
            }
        }
    }
}

proof fn lemma_next_line_shorter(rest: Seq<u8>)
    requires
        rest.len() > 0,
    ensures
        next_line(rest).2.len() < rest.len(),
{
    crate::text::lemma_find_from(rest, 0x0a, 0);
}

impl Config {
    /// Parses one line, updating `section` at section headers.
    #[verifier::rlimit(60)]
    pub fn parse_line(&mut self, raw: &str, path: &str, line_no: usize, section: &mut Section) -> (r:
        Result<(), ConfigError>)
        ensures
            match spec_parse_line(old(self)@, *old(section), raw.spec_bytes()) {
                Ok((c, s)) => r is Ok && final(self)@ == c && *final(section) == s,
                Err(m) => r matches Err(e) && is_bad_config(e, path@, line_no, m) && final(self)@
                    == old(self)@ && *final(section) == *old(section),
            },
    {
        let b = raw.as_bytes();
        proof {
            reveal(spec_parse_line);
            lemma_trim_valid(b@);
        }
        let (s0, e0) = trim_bounds(b);
        let t = &b[s0..e0];
        if t.len() == 0 || t[0] == 0x23 {
            return Ok(());
        }
        let content: &[u8] = match find_byte(t, 0x23) {
            Some(i) => {
                let head = &t[0..i];
                proof {
                    assert(0x23u8 < 0x80);
                    lemma_sub_valid(t@, 0, i as int);
                    lemma_trim_valid(head@);
                }
                let e = rskip_ws_from(head, 0, head.len());
                &head[0..e]
            },
            None => t,
        };
        assert(valid_utf8(content@));
        if content.len() == 0 {
            return Ok(());
        }
        let n = content.len();
        if content[0] == 0x5b {
            if content[n - 1] == 0x5d {
                let inner = &content[1..n - 1];
                proof {
                    lemma_after_ascii(content@, 0);
                    lemma_sub_valid(content@, 1, n - 1);
                    lemma_trim_valid(inner@);
                }
                let (a, c) = trim_bounds(inner);
                let name = &inner[a..c];
                if bytes_eq(name, "general".as_bytes()) {
                    *section = Section::General;
                    return Ok(());
                }
                if bytes_eq(name, "colours".as_bytes()) {
                    *section = Section::Colours;
                    return Ok(());
                }
                return Err(bad_config(path, line_no, concat3("unknown section '", str_of(name), "'")));
            }
            return Err(
                bad_config(path, line_no, to_string("syntax error: malformed section header")),
            );
        }
        let eq = match find_byte(content, 0x3d) {
            Some(i) => i,
            None => {
                return Err(
                    bad_config(path, line_no, to_string("syntax error: expected 'key = value'")),
                );
            },
        };
        let key_raw = &content[0..eq];
        let value_raw = &content[eq + 1..n];
        proof {
            lemma_sub_valid(content@, 0, eq as int);
            lemma_after_ascii(content@, eq as int);
            lemma_sub_valid(content@, eq + 1, n as int);
            lemma_trim_valid(key_raw@);
            lemma_trim_valid(value_raw@);
        }
        let (ka, kc) = trim_bounds(key_raw);
        let key = &key_raw[ka..kc];
        let (va, vc) = trim_bounds(value_raw);
        let v0 = &value_raw[va..vc];
        let value: &[u8] = if v0.len() > 0 && v0[v0.len() - 1] == 0x3b {
            let w = &v0[0..v0.len() - 1];
            proof {
                lemma_sub_valid(v0@, 0, v0@.len() - 1);
                assert(w@ =~= v0@.drop_last());
                lemma_trim_valid(w@);
            }
            let e = rskip_ws_from(w, 0, w.len());
            &w[0..e]
        } else {
            v0
        };
        let key_str = str_of(key);
        let value_str = str_of(value);
        match *section {
            Section::NoSection => Err(
                bad_config(path, line_no, to_string("assignments must be part of a section")),
            ),
            Section::General => {
                if self.wayland_ui.assign(path, line_no, key_str, value_str)? {
                    Ok(())
                } else {
                    Err(
                        bad_config(
                            path,
                            line_no,
                            concat3("unknown variable in section 'general': '", key_str, "'"),
                        ),
                    )
                }
            },
            Section::Colours => {
                if self.wayland_colours.assign(path, line_no, key_str, value_str)? {
                    Ok(())
                } else {
                    Err(
                        bad_config(
                            path,
                            line_no,
                            concat3("unknown variable in section 'colours': '", key_str, "'"),
                        ),
                    )
                }
            },
        }
    }
}


/// Whether `r` reports the outcome `fail` of a parse of a file at `path`.
pub open spec fn parse_result_matches(r: Result<(), ConfigError>, fail: Option<ConfigFail>, path: Seq<
    char,
>) -> bool {
    match fail {
        None => r is Ok,
        Some(ConfigFail::NotUtf8) => r matches Err(ConfigError::Io(m)) && m@
            == "stream did not contain valid UTF-8"@,
        Some(ConfigFail::Bad(line, msg)) => r matches Err(e) && is_bad_config(
            e,
            path,
            line as usize,
            msg,
        ),
    }
}

impl Config {
    /// Parses configuration text line by line (lines end at `\n`, a `\r`
    /// before it is dropped), dispatching assignments by section. Parsing
    /// stops at the first line that is not valid UTF-8 or is rejected; the
    /// lines before it keep their effect.
    pub fn parse_from(&mut self, input: &[u8], path: &str) -> (r: Result<(), ConfigError>)
        ensures
            final(self)@ == spec_parse_from(old(self)@, Section::NoSection, input@, 0).0,
            parse_result_matches(
                r,
                spec_parse_from(old(self)@, Section::NoSection, input@, 0).1,
                path@,
            ),
    {
        let mut section = Section::NoSection;
        let mut line_no: usize = 0;
        let mut pos: usize = 0;
        let ghost whole = spec_parse_from(self@, Section::NoSection, input@, 0);
        assert(input@.subrange(0, input@.len() as int) =~= input@);
        while pos < input.len()
            invariant
                pos <= input@.len(),
                line_no <= pos,
                whole == spec_parse_from(old(self)@, Section::NoSection, input@, 0),
                whole == spec_parse_from(
                    self@,
                    section,
                    input@.subrange(pos as int, input@.len() as int),
                    line_no as nat,
                ),
            decreases input@.len() - pos,
        {
            let rest = &input[pos..input.len()];
            proof {
                lemma_next_line_shorter(rest@);
            }
            let (end, next) = match find_byte(rest, 0x0a) {
                Some(i) => (i, i + 1),
                None => (rest.len(), rest.len()),
            };
            let l = &rest[0..end];
            proof {
                if next == end {
                    assert(l@ =~= rest@);
                }
            }
            if utf8_str(l).is_none() {
                proof {
                    assert(!next_line(rest@).1);
                }
                return Err(ConfigError::Io(to_string("stream did not contain valid UTF-8")));
            }
            let raw_bytes: &[u8] = if next > end && l.len() > 0 && l[l.len() - 1] == 0x0d {
                proof {
                    lemma_sub_valid(l@, 0, l@.len() - 1);
                }
                &l[0..l.len() - 1]
            } else {
                proof {
                    assert(l@.subrange(0, l@.len() as int) =~= l@);
                }
                l
            };
            proof {
                assert(raw_bytes@ =~= next_line(rest@).0);
                assert(rest@.subrange(next as int, rest@.len() as int) =~= next_line(rest@).2);
                assert(input@.subrange(pos + next, input@.len() as int) =~= rest@.subrange(
                    next as int,
                    rest@.len() as int,
                ));
            }
            let raw = str_of(raw_bytes);
            line_no = line_no + 1;
            self.parse_line(raw, path, line_no, &mut section)?;
            pos = pos + next;
        }
        Ok(())
    }
}

/// A variable's value when it is set and not empty.
pub open spec fn non_empty(v: Option<Seq<char>>) -> Option<Seq<char>> {
    match v {
        Some(s) => if s.len() > 0 {
            Some(s)
        } else {
            None
        },
        None => None,
    }
}

/// The directory that holds the configuration directories:
/// `$XDG_CONFIG_HOME`, else `$HOME/.config`, else `/etc`; a variable that
/// is set but empty counts as unset.
pub open spec fn config_base(xdg_config_home: Option<Seq<char>>, home: Option<Seq<char>>) -> Seq<
    char,
> {
    match (non_empty(xdg_config_home), non_empty(home)) {
        (Some(x), _) => x,
        (None, Some(h)) => path_join(h, ".config"@),
        (None, None) => "/etc"@,
    }
}

/// The configuration file inside `base/dir`.
pub open spec fn config_file(base: Seq<char>, dir: Seq<char>) -> Seq<char> {
    path_join(path_join(base, dir), "config.ini"@)
}

fn opt_str<'a>(v: Option<&'a str>) -> (r: Option<&'a str>)
    ensures
        match (r, v) {
            (Some(a), Some(b)) => a@ == b@ && a@.len() > 0,
            (None, Some(b)) => b@.len() == 0,
            (Some(_), None) => false,
            (None, None) => true,
        },
{
    match v {
        Some(s) => if s.unicode_len() > 0 {
            Some(s)
        } else {
            None
        },
        None => None,
    }
}

impl Config {
    /// The configuration files to look for, in order of precedence, given
    /// the values of `XDG_CONFIG_HOME` and `HOME`: `nowayprompt/config.ini`
    /// and then `wayprompt/config.ini`, both inside [`config_base`]. The
    /// first one that exists is read; files are never merged.
    pub fn config_path(xdg_config_home: Option<&str>, home: Option<&str>) -> (paths: Vec<String>)
        ensures
            paths@.len() == 2,
            paths@[0]@ == config_file(
                config_base(view_opt(xdg_config_home), view_opt(home)),
                "nowayprompt"@,
            ),
            paths@[1]@ == config_file(
                config_base(view_opt(xdg_config_home), view_opt(home)),
                "wayprompt"@,
            ),
    {
        let base = match (opt_str(xdg_config_home), opt_str(home)) {
            (Some(x), _) => to_owned_string(x),
            (None, Some(h)) => {
                proof {
                    reveal_strlit(".config");
                }
                join_path(h, ".config")
            },
            (None, None) => {
                proof {
                    reveal_strlit("/etc");
                }
                to_owned_string("/etc")
            },
        };
        proof {
            reveal_strlit("nowayprompt");
            reveal_strlit("wayprompt");
            reveal_strlit("config.ini");
        }
        let mut paths: Vec<String> = Vec::new();
        let own = join_path(base.as_str(), "nowayprompt");
        paths.push(join_path(own.as_str(), "config.ini"));
        let legacy = join_path(base.as_str(), "wayprompt");
        paths.push(join_path(legacy.as_str(), "config.ini"));
        paths
    }
}

/// The byte spelled by two hexadecimal digits.
pub open spec fn hex_pair(hi: u8, lo: u8) -> nat {
    match (digit_value(hi, 16), digit_value(lo, 16)) {
        (Some(h), Some(l)) => h * 16 + l,
        _ => 0,
    }
}

proof fn lemma_four_bytes(p0: nat, p1: nat, p2: nat, p3: nat)
    requires
        p0 < 256,
        p1 < 256,
        p2 < 256,
        p3 < 256,
    ensures
        ({
            let v = p0 * 0x100_0000 + p1 * 0x1_0000 + p2 * 0x100 + p3;
            &&& v <= 0xffff_ffff
            &&& (v / 0x100_0000) % 256 == p0
            &&& (v / 0x1_0000) % 256 == p1
            &&& (v / 0x100) % 256 == p2
            &&& v % 256 == p3
        }),
{
    let v = p0 * 0x100_0000 + p1 * 0x1_0000 + p2 * 0x100 + p3;
    assert(v / 0x100_0000 == p0);
    assert(v / 0x1_0000 == p0 * 0x100 + p1);
    assert(v / 0x100 == p0 * 0x1_0000 + p1 * 0x100 + p2);
}

proof fn lemma_eight_digits(d: Seq<u8>)
    requires
        d.len() == 8,
        all_hex(d),
    ensures
        parse_unsigned(d, 16, 0xffff_ffff) == Some(
            hex_pair(d[0], d[1]) * 0x100_0000 + hex_pair(d[2], d[3]) * 0x1_0000 + hex_pair(d[4], d[5])
                * 0x100 + hex_pair(d[6], d[7]),
        ),
{
    assert forall|i: int| 0 <= i < 8 implies #[trigger] digit_value(d[i], 16) is Some && digit_value(
        d[i],
        16,
    )->0 < 16 by {
        assert(digit_value(d[i], 16) is Some);
    }
    reveal_with_fuel(digits_value, 9);
    assert(d.drop_last() =~= d.take(7));
    assert(d.take(7).drop_last() =~= d.take(6));
    assert(d.take(6).drop_last() =~= d.take(5));
    assert(d.take(5).drop_last() =~= d.take(4));
    assert(d.take(4).drop_last() =~= d.take(3));
    assert(d.take(3).drop_last() =~= d.take(2));
    assert(d.take(2).drop_last() =~= d.take(1));
    assert(d.take(1).drop_last() =~= d.take(0));
    lemma_four_bytes(hex_pair(d[0], d[1]), hex_pair(d[2], d[3]), hex_pair(d[4], d[5]), hex_pair(d[6], d[7]));
}

proof fn lemma_six_digits(d: Seq<u8>)
    requires
        d.len() == 6,
        all_hex(d),
    ensures
        parse_unsigned(d, 16, 0xffff_ffff) == Some(
            hex_pair(d[0], d[1]) * 0x1_0000 + hex_pair(d[2], d[3]) * 0x100 + hex_pair(d[4], d[5]),
        ),
{
    assert forall|i: int| 0 <= i < 6 implies #[trigger] digit_value(d[i], 16) is Some && digit_value(
        d[i],
        16,
    )->0 < 16 by {
        assert(digit_value(d[i], 16) is Some);
    }
    reveal_with_fuel(digits_value, 7);
    assert(d.drop_last() =~= d.take(5));
    assert(d.take(5).drop_last() =~= d.take(4));
    assert(d.take(4).drop_last() =~= d.take(3));
    assert(d.take(3).drop_last() =~= d.take(2));
    assert(d.take(2).drop_last() =~= d.take(1));
    assert(d.take(1).drop_last() =~= d.take(0));
    lemma_four_bytes(0, hex_pair(d[0], d[1]), hex_pair(d[2], d[3]), hex_pair(d[4], d[5]));
}

proof fn lemma_parse_colour_eight(h: Seq<u8>)
    requires
        h.len() == 10,
        h[0] == 0x30,
        h[1] == 0x78,
        all_hex(h.subrange(2, 10)),
    ensures
        spec_parse_colour(h) == Ok::<Colour, Seq<char>>(
            spec_colour(
                hex_pair(h[2], h[3]) as u8,
                hex_pair(h[4], h[5]) as u8,
                hex_pair(h[6], h[7]) as u8,
                hex_pair(h[8], h[9]) as u8,
            ),
        ),
{
    let d = h.subrange(2, 10);
    lemma_eight_digits(d);
    assert(d[0] == h[2] && d[1] == h[3] && d[2] == h[4] && d[3] == h[5]);
    assert(d[4] == h[6] && d[5] == h[7] && d[6] == h[8] && d[7] == h[9]);
    assert(hex_pair(h[2], h[3]) < 256 && hex_pair(h[4], h[5]) < 256) by {
        assert(digit_value(d[0], 16) is Some && digit_value(d[1], 16) is Some);
        assert(digit_value(d[2], 16) is Some && digit_value(d[3], 16) is Some);
    }
    assert(hex_pair(h[6], h[7]) < 256 && hex_pair(h[8], h[9]) < 256) by {
        assert(digit_value(d[4], 16) is Some && digit_value(d[5], 16) is Some);
        assert(digit_value(d[6], 16) is Some && digit_value(d[7], 16) is Some);
    }
    lemma_four_bytes(hex_pair(h[2], h[3]), hex_pair(h[4], h[5]), hex_pair(h[6], h[7]), hex_pair(h[8], h[9]));
}

proof fn lemma_parse_colour_six(h: Seq<u8>)
    requires
        h.len() == 8,
        h[0] == 0x30,
        h[1] == 0x78,
        all_hex(h.subrange(2, 8)),
    ensures
        spec_parse_colour(h) == Ok::<Colour, Seq<char>>(
            spec_colour(
                hex_pair(h[2], h[3]) as u8,
                hex_pair(h[4], h[5]) as u8,
                hex_pair(h[6], h[7]) as u8,
                255,
            ),
        ),
{
    let d = h.subrange(2, 8);
    lemma_six_digits(d);
    assert(d[0] == h[2] && d[1] == h[3] && d[2] == h[4] && d[3] == h[5]);
    assert(d[4] == h[6] && d[5] == h[7]);
    assert(hex_pair(h[2], h[3]) < 256 && hex_pair(h[4], h[5]) < 256) by {
        assert(digit_value(d[0], 16) is Some && digit_value(d[1], 16) is Some);
        assert(digit_value(d[2], 16) is Some && digit_value(d[3], 16) is Some);
    }
    assert(hex_pair(h[6], h[7]) < 256) by {
        assert(digit_value(d[4], 16) is Some && digit_value(d[5], 16) is Some);
    }
    lemma_four_bytes(0, hex_pair(h[2], h[3]), hex_pair(h[4], h[5]), hex_pair(h[6], h[7]));
}

/// The channels come from the digit pairs in order: `0xRRGGBB` is red
/// `RR`, green `GG`, blue `BB` and opaque; `0xRRGGBBAA` is red `RR`, green
/// `GG`, blue `BB` and alpha `AA`, premultiplied. So an `ff` alpha pair
/// gives the same colour as the six-digit form.
pub proof fn law_colour_digit_pairs(six: Seq<u8>, alpha: Seq<u8>)
    requires
        six.len() == 6,
        all_hex(six),
        alpha.len() == 2,
        all_hex(alpha),
    ensures
        spec_parse_colour(seq![0x30u8, 0x78u8] + six) == Ok::<Colour, Seq<char>>(
            spec_colour(
                hex_pair(six[0], six[1]) as u8,
                hex_pair(six[2], six[3]) as u8,
                hex_pair(six[4], six[5]) as u8,
                255,
            ),
        ),
        spec_parse_colour(seq![0x30u8, 0x78u8] + six + alpha) == Ok::<Colour, Seq<char>>(
            spec_colour(
                hex_pair(six[0], six[1]) as u8,
                hex_pair(six[2], six[3]) as u8,
                hex_pair(six[4], six[5]) as u8,
                hex_pair(alpha[0], alpha[1]) as u8,
            ),
        ),
        spec_parse_colour(seq![0x30u8, 0x78u8] + six + seq![0x66u8, 0x66u8]) == spec_parse_colour(
            seq![0x30u8, 0x78u8] + six,
        ),
{
    let h6 = seq![0x30u8, 0x78u8] + six;
    let h8 = seq![0x30u8, 0x78u8] + six + alpha;
    let hf = seq![0x30u8, 0x78u8] + six + seq![0x66u8, 0x66u8];
    assert(h6.subrange(2, 8) =~= six);
    assert(all_hex(h8.subrange(2, 10))) by {
        assert forall|i: int| 0 <= i < 8 implies #[trigger] digit_value(h8.subrange(2, 10)[i], 16) is Some by {
            if i < 6 {
                assert(h8.subrange(2, 10)[i] == six[i]);
            } else {
                assert(h8.subrange(2, 10)[i] == alpha[i - 6]);
            }
        }
    }
    assert(all_hex(hf.subrange(2, 10))) by {
        assert forall|i: int| 0 <= i < 8 implies #[trigger] digit_value(hf.subrange(2, 10)[i], 16) is Some by {
            if i < 6 {
                assert(hf.subrange(2, 10)[i] == six[i]);
            }
        }
    }
    lemma_parse_colour_six(h6);
    lemma_parse_colour_eight(h8);
    lemma_parse_colour_eight(hf);
    assert(h6[2] == six[0] && h6[3] == six[1] && h6[4] == six[2] && h6[5] == six[3] && h6[6] == six[4] && h6[7] == six[5]);
    assert(h8[2] == six[0] && h8[3] == six[1] && h8[4] == six[2] && h8[5] == six[3] && h8[6] == six[4] && h8[7] == six[5]);
    assert(h8[8] == alpha[0] && h8[9] == alpha[1]);
    assert(hf[2] == six[0] && hf[3] == six[1] && hf[4] == six[2] && hf[5] == six[3] && hf[6] == six[4] && hf[7] == six[5]);
    assert(hf[8] == 0x66 && hf[9] == 0x66);
    assert(hex_pair(0x66, 0x66) == 255);
}

/// A fully opaque colour keeps its channels: each is only widened from 8
/// to 16 bits.
pub proof fn law_opaque_colour_unchanged(r: u8, g: u8, b: u8)
    ensures
        spec_colour(r, g, b, 255) == (Colour {
            red: widen(r) as u16,
            green: widen(g) as u16,
            blue: widen(b) as u16,
            alpha: 65535,
        }),
{
    assert(widen(255) == 65535);
    assert((widen(r) * 65535) / 65535 == widen(r)) by (nonlinear_arith);
    assert((widen(g) * 65535) / 65535 == widen(g)) by (nonlinear_arith);
    assert((widen(b) * 65535) / 65535 == widen(b)) by (nonlinear_arith);
}

/// Blank lines and comment lines change neither the configuration nor the
/// section.
pub proof fn law_blank_and_comment_lines_are_inert(cfg: ConfigView, section: Section, raw: Seq<u8>)
    requires
        trim(raw).len() == 0 || trim(raw)[0] == 0x23,
    ensures
        spec_parse_line(cfg, section, raw) == Ok::<(ConfigView, Section), Seq<char>>((cfg, section)),
{
    reveal(spec_parse_line);
}

} // verus!
