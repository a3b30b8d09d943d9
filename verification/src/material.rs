//! The theme model.
//!
//! A theme is exactly eight colour roles, and everything a program can ask for
//! is derived from them. A cell stores a role or a palette index; only drawing
//! turns that into a colour, so changing the theme never touches the grid.

use vstd::prelude::*;
use vstd::utf8::*;

use crate::cell::{Color, ColorView};
use crate::osc::{hex_digit, parse_hex_digit};
use crate::text::string_of;

verus! {

/// A number between nothing and everything, as a ratio. One above 1 counts
/// as 1.
#[derive(Debug, Clone, Copy, PartialEq, Eq, Structural)]
pub struct Fraction {
    pub num: u32,
    pub den: u32,
}

impl Fraction {
    pub open spec fn wf(self) -> bool {
        self.den > 0
    }

    /// The numerator, where it does not exceed the denominator.
    pub open spec fn part(self) -> int {
        if self.num > self.den {
            self.den as int
        } else {
            self.num as int
        }
    }

    pub fn new(num: u32, den: u32) -> (f: Fraction)
        requires
            den > 0,
        ensures
            f == (Fraction { num, den }),
            f.wf(),
    {
        Fraction { num, den }
    }

    /// The whole.
    pub fn one() -> (f: Fraction)
        ensures
            f == (Fraction { num: 1, den: 1 }),
            f.wf(),
    {
        Fraction { num: 1, den: 1 }
    }

    /// The fraction of 255, to the nearest integer, halves up.
    pub open spec fn level(self) -> int {
        (2 * 255 * self.part() + self.den) / (2 * self.den as int)
    }

    pub fn to_level(self) -> (v: u8)
        requires
            self.wf(),
        ensures
            v == self.level(),
    {
        let part: u64 = if self.num > self.den {
            self.den as u64
        } else {
            self.num as u64
        };
        let den: u64 = self.den as u64;
        proof {
            assert(0 <= (510 * part + den) / (2 * den) <= 255) by (nonlinear_arith)
                requires
                    0 <= part <= den,
                    den >= 1,
            ;
        }
        ((510 * part + den) / (2 * den)) as u8
    }
}

#[derive(Debug, Clone, Copy, PartialEq, Eq, Structural)]
pub struct Rgb {
    pub r: u8,
    pub g: u8,
    pub b: u8,
}

impl Default for Rgb {
    fn default() -> (c: Rgb)
        ensures
            c == (Rgb { r: 0, g: 0, b: 0 }),
    {
        Rgb { r: 0, g: 0, b: 0 }
    }
}

/// One channel, the given part of the way from `a` to `b`, to the nearest
/// integer, halves up.
pub open spec fn mixed(a: u8, b: u8, t: Fraction) -> u8 {
    ((2 * (a * t.den + (b - a) * t.part()) + t.den) / (2 * t.den as int)) as u8
}

/// A colour the given part of the way from one to another.
pub open spec fn lerped(a: Rgb, b: Rgb, t: Fraction) -> Rgb {
    Rgb { r: mixed(a.r, b.r, t), g: mixed(a.g, b.g, t), b: mixed(a.b, b.b, t) }
}

proof fn lemma_mixed(a: int, b: int, part: int, den: int)
    requires
        0 <= a <= 255,
        0 <= b <= 255,
        0 <= part <= den,
        0 < den,
    ensures
        0 <= a * den + (b - a) * part <= 255 * den,
        0 <= (2 * (a * den + (b - a) * part) + den) / (2 * den) <= 255,
        a * den + (b - a) * part == a * (den - part) + b * part,
        0 <= a * (den - part) <= 255 * den,
        0 <= b * part <= 255 * den,
        part == 0 ==> (2 * (a * den + (b - a) * part) + den) / (2 * den) == a,
        part == den ==> (2 * (a * den + (b - a) * part) + den) / (2 * den) == b,
{
    assert(a * den + (b - a) * part == a * (den - part) + b * part) by (nonlinear_arith);
    assert(0 <= a * (den - part) <= 255 * (den - part)) by (nonlinear_arith)
        requires
            0 <= a <= 255,
            0 <= part <= den,
    ;
    assert(0 <= b * part <= 255 * part) by (nonlinear_arith)
        requires
            0 <= b <= 255,
            0 <= part,
    ;
    let s = a * den + (b - a) * part;
    assert(0 <= (2 * s + den) / (2 * den) <= 255) by (nonlinear_arith)
        requires
            0 <= s <= 255 * den,
            0 < den,
    ;
    if part == 0 {
        assert((2 * (a * den) + den) / (2 * den) == a) by (nonlinear_arith)
            requires
                0 < den,
        ;
        assert((b - a) * part == 0) by (nonlinear_arith)
            requires
                part == 0,
        ;
    }
    if part == den {
        assert(a * den + (b - a) * den == b * den) by (nonlinear_arith);
        assert((2 * (b * den) + den) / (2 * den) == b) by (nonlinear_arith)
            requires
                0 < den,
        ;
    }
}

/// Mixing starts exactly at one colour and ends exactly at the other.
pub proof fn law_mixing_ends_exactly(a: Rgb, b: Rgb, t: Fraction)
    requires
        t.wf(),
    ensures
        t.part() == 0 ==> lerped(a, b, t) == a,
        t.part() == t.den ==> lerped(a, b, t) == b,
{
    lemma_mixed(a.r as int, b.r as int, t.part(), t.den as int);
    lemma_mixed(a.g as int, b.g as int, t.part(), t.den as int);
    lemma_mixed(a.b as int, b.b as int, t.part(), t.den as int);
}

fn mix(a: u8, b: u8, t: Fraction) -> (v: u8)
    requires
        t.wf(),
    ensures
        v == mixed(a, b, t),
{
    let part: u64 = if t.num > t.den {
        t.den as u64
    } else {
        t.num as u64
    };
    let den: u64 = t.den as u64;
    proof {
        lemma_mixed(a as int, b as int, part as int, den as int);
    }
    let sum: u64 = a as u64 * (den - part) + b as u64 * part;
    ((2 * sum + den) / (2 * den)) as u8
}

/// The text's bytes without a leading `#`.
pub open spec fn without_hash(bytes: Seq<u8>) -> Seq<u8> {
    if bytes.len() > 0 && bytes[0] == 0x23 {
        bytes.skip(1)
    } else {
        bytes
    }
}

/// The byte that two hexadecimal digits spell.
pub open spec fn digit_pair(hi: u8, lo: u8) -> Option<u8> {
    match (hex_digit(hi), hex_digit(lo)) {
        (Some(h), Some(l)) => Some((h * 16 + l) as u8),
        _ => None,
    }
}

fn parse_digit_pair(hi: u8, lo: u8) -> (v: Option<u8>)
    ensures
        v == digit_pair(hi, lo),
{
    match (parse_hex_digit(hi), parse_hex_digit(lo)) {
        (Some(h), Some(l)) => Some(h * 16 + l),
        _ => None,
    }
}

/// The colour that `#rrggbb` or `#rgb` stands for; the `#` may be missing.
pub open spec fn color_of(text: Seq<char>) -> Option<Rgb> {
    let h = without_hash(encode_utf8(text));
    if h.len() == 6 {
        match (digit_pair(h[0], h[1]), digit_pair(h[2], h[3]), digit_pair(h[4], h[5])) {
            (Some(r), Some(g), Some(b)) => Some(Rgb { r, g, b }),
            _ => None,
        }
    } else if h.len() == 3 {
        match (hex_digit(h[0]), hex_digit(h[1]), hex_digit(h[2])) {
            (Some(r), Some(g), Some(b)) => Some(
                Rgb { r: (r * 17) as u8, g: (g * 17) as u8, b: (b * 17) as u8 },
            ),
            _ => None,
        }
    } else {
        None
    }
}

/// A hexadecimal digit as a small letter or figure.
pub open spec fn hex_char(v: u8) -> char {
    if v < 10 {
        (0x30 + v) as char
    } else {
        (0x61 + v - 10) as char
    }
}

/// A colour as `#rrggbb`.
pub open spec fn hex_text(c: Rgb) -> Seq<char> {
    seq![
        '#',
        hex_char(c.r / 16),
        hex_char(c.r % 16),
        hex_char(c.g / 16),
        hex_char(c.g % 16),
        hex_char(c.b / 16),
        hex_char(c.b % 16),
    ]
}

/// Writing a colour and reading it back gives the same colour.
pub proof fn law_colours_survive_their_text(c: Rgb)
    ensures
        color_of(hex_text(c)) == Some(c),
{
    let s = hex_text(c);
    assert(is_ascii_chars(s)) by {
        assert forall|i: int| 0 <= i < s.len() implies '\0' <= #[trigger] s[i] <= '\u{7f}' by {}
    }
    is_ascii_chars_encode_utf8(s);
    let h = without_hash(encode_utf8(s));
    assert(encode_utf8(s)[0] == 0x23);
    assert(h.len() == 6);
    assert forall|i: int| 0 <= i < 6 implies #[trigger] h[i] == s[i + 1] as u8 by {}
}

/// Nothing but three or six hexadecimal digits, after one `#` or none, is a
/// colour.
pub proof fn law_only_digits_are_colours(text: Seq<char>)
    ensures
        color_of(text) is Some <==> {
            let h = without_hash(encode_utf8(text));
            &&& h.len() == 3 || h.len() == 6
            &&& forall|i: int| 0 <= i < h.len() ==> hex_digit(#[trigger] h[i]) is Some
        },
{
    let h = without_hash(encode_utf8(text));
    if color_of(text) is Some {
        assert forall|i: int| 0 <= i < h.len() implies hex_digit(#[trigger] h[i]) is Some by {
            assert(i == 0 || i == 1 || i == 2 || i == 3 || i == 4 || i == 5);
        }
    }
}

fn hex_digit_char(v: u8) -> (c: char)
    requires
        v < 16,
    ensures
        c == hex_char(v),
{
    if v < 10 {
        (0x30 + v) as char
    } else {
        (0x61 + v - 10) as char
    }
}

impl Rgb {
    pub fn new(r: u8, g: u8, b: u8) -> (c: Rgb)
        ensures
            c == (Rgb { r, g, b }),
    {
        Rgb { r, g, b }
    }

    /// Parses `#rrggbb` or `#rgb`.
    pub fn parse(s: &str) -> (c: Option<Rgb>)
        ensures
            c == color_of(s@),
    {
        let bytes = s.as_bytes();
        let n: usize = bytes.len();
        let start: usize = if n > 0 && bytes[0] == 0x23 {
            1
        } else {
            0
        };
        let ghost h = without_hash(bytes@);
        assert(h.len() == n - start);
        assert forall|i: int| 0 <= i < h.len() implies #[trigger] h[i] == bytes@[start + i] by {}
        if n - start == 6 {
            match (
                parse_digit_pair(bytes[start], bytes[start + 1]),
                parse_digit_pair(bytes[start + 2], bytes[start + 3]),
                parse_digit_pair(bytes[start + 4], bytes[start + 5]),
            ) {
                (Some(r), Some(g), Some(b)) => Some(Rgb { r, g, b }),
                _ => None,
            }
        } else if n - start == 3 {
            match (
                parse_hex_digit(bytes[start]),
                parse_hex_digit(bytes[start + 1]),
                parse_hex_digit(bytes[start + 2]),
            ) {
                (Some(r), Some(g), Some(b)) => Some(Rgb { r: r * 17, g: g * 17, b: b * 17 }),
                _ => None,
            }
        } else {
            None
        }
    }

    /// The colour as `#rrggbb`.
    pub fn to_hex(self) -> (s: String)
        ensures
            s@ == hex_text(self),
    {
        let mut v: Vec<char> = Vec::new();
        v.push('#');
        v.push(hex_digit_char(self.r / 16));
        v.push(hex_digit_char(self.r % 16));
        v.push(hex_digit_char(self.g / 16));
        v.push(hex_digit_char(self.g % 16));
        v.push(hex_digit_char(self.b / 16));
        v.push(hex_digit_char(self.b % 16));
        assert(v@ =~= hex_text(self));
        let s = string_of(&v, 0, v.len());
        assert(v@.subrange(0, v@.len() as int) =~= v@);
        s
    }

    /// The colour the given part of the way to another.
    pub fn lerp(self, other: Rgb, t: Fraction) -> (c: Rgb)
        requires
            t.wf(),
        ensures
            c == lerped(self, other, t),
    {
        Rgb { r: mix(self.r, other.r, t), g: mix(self.g, other.g, t), b: mix(self.b, other.b, t) }
    }

    /// Perceived brightness, Rec. 601, out of 255000.
    pub open spec fn brightness(self) -> int {
        299 * self.r + 587 * self.g + 114 * self.b
    }

    /// Perceived brightness, Rec. 601, out of 255000.
    pub fn luma(self) -> (v: u32)
        ensures
            v == self.brightness(),
            v <= 255000,
    {
        299 * self.r as u32 + 587 * self.g as u32 + 114 * self.b as u32
    }
}

/// The eight roles.
#[derive(Debug, Clone, Copy, PartialEq, Eq, Hash, Structural)]
pub enum Role {
    Background,
    Foreground,
    /// Comments, box drawing, anything that should recede.
    Dim,
    /// Selection, the caret, the focused overlay border.
    Accent,
    Success,
    Warning,
    Error,
    Info,
}

/// A role's place in a list of all eight.
pub open spec fn role_index(role: Role) -> int {
    match role {
        Role::Background => 0,
        Role::Foreground => 1,
        Role::Dim => 2,
        Role::Accent => 3,
        Role::Success => 4,
        Role::Warning => 5,
        Role::Error => 6,
        Role::Info => 7,
    }
}

impl Role {
    fn index(self) -> (i: usize)
        ensures
            i == role_index(self),
            i < 8,
    {
        match self {
            Role::Background => 0,
            Role::Foreground => 1,
            Role::Dim => 2,
            Role::Accent => 3,
            Role::Success => 4,
            Role::Warning => 5,
            Role::Error => 6,
            Role::Info => 7,
        }
    }
}

/// A theme as it is written down.
#[derive(Debug, Clone, PartialEq, Eq)]
pub struct Theme {
    pub id: String,
    pub name: String,
    pub background: String,
    pub foreground: String,
    pub dim: String,
    pub accent: String,
    pub success: String,
    pub warning: String,
    pub error: String,
    pub info: String,
}

/// [`Theme`] with its texts as character sequences.
pub struct ThemeView {
    pub id: Seq<char>,
    pub name: Seq<char>,
    pub background: Seq<char>,
    pub foreground: Seq<char>,
    pub dim: Seq<char>,
    pub accent: Seq<char>,
    pub success: Seq<char>,
    pub warning: Seq<char>,
    pub error: Seq<char>,
    pub info: Seq<char>,
}

impl View for Theme {
    type V = ThemeView;

    open spec fn view(&self) -> ThemeView {
        ThemeView {
            id: self.id@,
            name: self.name@,
            background: self.background@,
            foreground: self.foreground@,
            dim: self.dim@,
            accent: self.accent@,
            success: self.success@,
            warning: self.warning@,
            error: self.error@,
            info: self.info@,
        }
    }
}

/// The colour texts of a theme with the names of their fields, in role order.
pub open spec fn theme_fields(t: ThemeView) -> Seq<(Seq<char>, Seq<char>)> {
    seq![
        ("background"@, t.background),
        ("foreground"@, t.foreground),
        ("dim"@, t.dim),
        ("accent"@, t.accent),
        ("success"@, t.success),
        ("warning"@, t.warning),
        ("error"@, t.error),
        ("info"@, t.info),
    ]
}

/// Whether a field is the first of a theme that is not a colour.
pub open spec fn first_bad_field(t: ThemeView, i: int) -> bool {
    &&& 0 <= i < 8
    &&& color_of(theme_fields(t)[i].1) is None
    &&& forall|j: int| 0 <= j < i ==> color_of((#[trigger] theme_fields(t)[j]).1) is Some
}

/// Whether every colour of a theme can be read.
pub open spec fn theme_parses(t: ThemeView) -> bool {
    forall|j: int| 0 <= j < 8 ==> color_of((#[trigger] theme_fields(t)[j]).1) is Some
}

/// The eight colours of a theme that can be read.
pub open spec fn theme_roles(t: ThemeView) -> Seq<Rgb> {
    Seq::new(8, |i: int| color_of(theme_fields(t)[i].1)->0)
}

/// Why a theme was refused.
#[derive(Debug, Clone, PartialEq, Eq)]
pub enum ThemeError {
    BadColor { field: &'static str, value: String },
    Unknown(String),
}

/// The eight normal ANSI colours, each one a role; cyan sits between two.
pub open spec fn ansi_color(roles: Seq<Rgb>, i: int) -> Rgb {
    if i == 0 {
        roles[0]
    } else if i == 1 {
        roles[6]
    } else if i == 2 {
        roles[4]
    } else if i == 3 {
        roles[5]
    } else if i == 4 {
        roles[7]
    } else if i == 5 {
        roles[3]
    } else if i == 6 {
        lerped(roles[7], roles[3], Fraction { num: 1, den: 2 })
    } else {
        roles[2]
    }
}

/// One step of the colour cube.
pub open spec fn cube_step(i: int) -> u8 {
    if i == 0 {
        0
    } else {
        (55 + 40 * i) as u8
    }
}

/// Entry `i` of the palette that eight roles imply: the ANSI colours, their
/// bright variants, the standard colour cube, which no theme touches, and a
/// grey ramp between the theme's own extremes.
pub open spec fn palette_entry(roles: Seq<Rgb>, i: int) -> Rgb {
    if i < 8 {
        ansi_color(roles, i)
    } else if i == 8 {
        lerped(roles[2], roles[0], Fraction { num: 1, den: 2 })
    } else if i < 15 {
        lerped(ansi_color(roles, i - 8), roles[1], Fraction { num: 7, den: 20 })
    } else if i == 15 {
        roles[1]
    } else if i < 232 {
        let k = i - 16;
        Rgb { r: cube_step(k / 36), g: cube_step(k / 6 % 6), b: cube_step(k % 6) }
    } else {
        lerped(roles[0], roles[1], Fraction { num: (i - 231) as u32, den: 25 })
    }
}

/// The palette that eight roles imply.
pub open spec fn palette_of(roles: Seq<Rgb>) -> Seq<Rgb> {
    Seq::new(256, |i: int| palette_entry(roles, i))
}

/// A theme with its roles read and its palette derived.
#[derive(Debug, Clone, PartialEq, Eq)]
pub struct Material {
    pub id: String,
    pub name: String,
    pub roles: Vec<Rgb>,
    pub palette: Vec<Rgb>,
}

/// [`Material`] with sequences.
pub struct MaterialView {
    pub id: Seq<char>,
    pub name: Seq<char>,
    pub roles: Seq<Rgb>,
    pub palette: Seq<Rgb>,
}

impl View for Material {
    type V = MaterialView;

    open spec fn view(&self) -> MaterialView {
        MaterialView {
            id: self.id@,
            name: self.name@,
            roles: self.roles@,
            palette: self.palette@,
        }
    }
}

/// Two materials mixed, under the name of the second.
pub open spec fn blended(a: MaterialView, b: MaterialView, t: Fraction) -> MaterialView {
    MaterialView {
        id: b.id,
        name: b.name,
        roles: Seq::new(8, |i: int| lerped(a.roles[i], b.roles[i], t)),
        palette: Seq::new(256, |i: int| lerped(a.palette[i], b.palette[i], t)),
    }
}

/// A cross-fade ends exactly on its target.
pub proof fn law_cross_fade_ends_on_target(a: MaterialView, b: MaterialView, t: Fraction)
    requires
        t.wf(),
        t.part() == t.den,
        a.roles.len() == 8,
        b.roles.len() == 8,
        a.palette.len() == 256,
        b.palette.len() == 256,
    ensures
        blended(a, b, t) == b,
{
    assert forall|i: int| 0 <= i < 8 implies blended(a, b, t).roles[i] == b.roles[i] by {
        law_mixing_ends_exactly(a.roles[i], b.roles[i], t);
    }
    assert forall|i: int| 0 <= i < 256 implies blended(a, b, t).palette[i] == b.palette[i] by {
        law_mixing_ends_exactly(a.palette[i], b.palette[i], t);
    }
    assert(blended(a, b, t).roles =~= b.roles);
    assert(blended(a, b, t).palette =~= b.palette);
}

/// What a stored colour looks like.
pub open spec fn resolved(m: MaterialView, color: ColorView, default_role: Role) -> Rgb {
    match color {
        ColorView::Rgb(r, g, b) => Rgb { r, g, b },
        ColorView::Palette(i) => m.palette[i as int],
        _ => m.roles[role_index(default_role)],
    }
}

fn parse_field(field: &'static str, value: &String) -> (r: Result<Rgb, ThemeError>)
    ensures
        match r {
            Ok(c) => color_of(value@) == Some(c),
            Err(ThemeError::BadColor { field: f, value: v }) => color_of(value@) is None && f@
                == field@ && v@ == value@,
            Err(_) => false,
        },
{
    match Rgb::parse(value.as_str()) {
        Some(c) => Ok(c),
        None => Err(ThemeError::BadColor { field, value: value.clone() }),
    }
}

/// The name and text of a theme's field.
fn field_at(theme: &Theme, i: usize) -> (r: (&'static str, &String))
    requires
        i < 8,
    ensures
        r.0@ == theme_fields(theme@)[i as int].0,
        r.1@ == theme_fields(theme@)[i as int].1,
{
    if i == 0 {
        ("background", &theme.background)
    } else if i == 1 {
        ("foreground", &theme.foreground)
    } else if i == 2 {
        ("dim", &theme.dim)
    } else if i == 3 {
        ("accent", &theme.accent)
    } else if i == 4 {
        ("success", &theme.success)
    } else if i == 5 {
        ("warning", &theme.warning)
    } else if i == 6 {
        ("error", &theme.error)
    } else {
        ("info", &theme.info)
    }
}

impl Material {
    /// Eight roles and 256 palette entries.
    pub open spec fn wf(self) -> bool {
        self.roles@.len() == 8 && self.palette@.len() == 256
    }

    /// Reads a theme's colours and derives its palette. The first field that is
    /// not a colour is named in the error.
    pub fn from_theme(theme: &Theme) -> (r: Result<Material, ThemeError>)
        ensures
            match r {
                Ok(m) => {
                    &&& theme_parses(theme@)
                    &&& m.wf()
                    &&& m@ == (MaterialView {
                        id: theme.id@,
                        name: theme.name@,
                        roles: theme_roles(theme@),
                        palette: palette_of(theme_roles(theme@)),
                    })
                },
                Err(ThemeError::BadColor { field, value }) => exists|i: int| #[trigger]
                    first_bad_field(theme@, i) && field@ == theme_fields(theme@)[i].0 && value@
                        == theme_fields(theme@)[i].1,
                Err(_) => false,
            },
    {
        let mut roles: Vec<Rgb> = Vec::new();
        let mut i: usize = 0;
        while i < 8
            invariant
                i <= 8,
                roles@.len() == i,
                forall|j: int|
                    0 <= j < i ==> color_of((#[trigger] theme_fields(theme@)[j]).1) == Some(
                        roles@[j],
                    ),
            decreases 8 - i,
        {
            let (field, value) = field_at(theme, i);
            match parse_field(field, value) {
                Ok(c) => {
                    roles.push(c);
                },
                Err(e) => {
                    assert(first_bad_field(theme@, i as int));
                    return Err(e);
                },
            }
            i += 1;
        }
        assert(roles@ =~= theme_roles(theme@));
        let palette = derive_palette(&roles);
        Ok(Material { id: theme.id.clone(), name: theme.name.clone(), roles, palette })
    }

    pub fn role(&self, role: Role) -> (c: Rgb)
        requires
            self.wf(),
        ensures
            c == self@.roles[role_index(role)],
    {
        self.roles[role.index()]
    }

    pub fn palette(&self, index: u8) -> (c: Rgb)
        requires
            self.wf(),
        ensures
            c == self@.palette[index as int],
    {
        self.palette[index as usize]
    }

    /// Whether the background is darker than half brightness.
    pub fn is_dark(&self) -> (yes: bool)
        requires
            self.wf(),
        ensures
            yes == (2 * self@.roles[0].brightness() < 255000),
    {
        2 * self.role(Role::Background).luma() < 255000
    }

    /// Turns a stored colour into pixels. `default_role` is what the theme's
    /// own colour means in this position.
    pub fn resolve(&self, color: Color, default_role: Role) -> (c: Rgb)
        requires
            self.wf(),
        ensures
            c == resolved(self@, color@, default_role),
    {
        if let Some((r, g, b)) = color.as_rgb() {
            return Rgb { r, g, b };
        }
        if let Some(i) = color.as_palette() {
            return self.palette(i);
        }
        self.role(default_role)
    }

    /// A mix of two materials, for the cross-fade on a theme change.
    pub fn blend(&self, other: &Material, t: Fraction) -> (m: Material)
        requires
            self.wf(),
            other.wf(),
            t.wf(),
        ensures
            m.wf(),
            m@ == blended(self@, other@, t),
    {
        let roles = blend_all(&self.roles, &other.roles, t);
        let palette = blend_all(&self.palette, &other.palette, t);
        let m = Material { id: other.id.clone(), name: other.name.clone(), roles, palette };
        assert(m@.roles =~= blended(self@, other@, t).roles);
        assert(m@.palette =~= blended(self@, other@, t).palette);
        m
    }
}

fn blend_all(a: &Vec<Rgb>, b: &Vec<Rgb>, t: Fraction) -> (v: Vec<Rgb>)
    requires
        a@.len() == b@.len(),
        t.wf(),
    ensures
        v@.len() == a@.len(),
        forall|i: int| 0 <= i < a@.len() ==> v@[i] == lerped(a@[i], b@[i], t),
{
    let mut v: Vec<Rgb> = Vec::new();
    let mut i: usize = 0;
    while i < a.len()
        invariant
            i <= a@.len() == b@.len(),
            t.wf(),
            v@.len() == i,
            forall|j: int| 0 <= j < i ==> v@[j] == lerped(a@[j], b@[j], t),
        decreases a@.len() - i,
    {
        v.push(a[i].lerp(b[i], t));
        i += 1;
    }
    v
}

fn ansi(roles: &Vec<Rgb>, i: usize) -> (c: Rgb)
    requires
        roles@.len() == 8,
        i < 8,
    ensures
        c == ansi_color(roles@, i as int),
{
    if i == 0 {
        roles[0]
    } else if i == 1 {
        roles[6]
    } else if i == 2 {
        roles[4]
    } else if i == 3 {
        roles[5]
    } else if i == 4 {
        roles[7]
    } else if i == 5 {
        roles[3]
    } else if i == 6 {
        roles[7].lerp(roles[3], Fraction { num: 1, den: 2 })
    } else {
        roles[2]
    }
}

fn step(i: usize) -> (v: u8)
    requires
        i < 6,
    ensures
        v == cube_step(i as int),
{
    if i == 0 {
        0
    } else {
        (55 + 40 * i) as u8
    }
}

/// Builds the palette from the eight roles: a program that asks for red gets
/// this theme's error colour.
fn derive_palette(roles: &Vec<Rgb>) -> (p: Vec<Rgb>)
    requires
        roles@.len() == 8,
    ensures
        p@ == palette_of(roles@),
{
    let mut p: Vec<Rgb> = Vec::new();
    let mut i: usize = 0;
    while i < 256
        invariant
            i <= 256,
            roles@.len() == 8,
            p@.len() == i,
            forall|j: int| 0 <= j < i ==> p@[j] == palette_entry(roles@, j),
        decreases 256 - i,
    {
        let c: Rgb = if i < 8 {
            ansi(roles, i)
        } else if i == 8 {
            roles[2].lerp(roles[0], Fraction { num: 1, den: 2 })
        } else if i < 15 {
            ansi(roles, i - 8).lerp(roles[1], Fraction { num: 7, den: 20 })
        } else if i == 15 {
            roles[1]
        } else if i < 232 {
            let k: usize = i - 16;
            Rgb { r: step(k / 36), g: step(k / 6 % 6), b: step(k % 6) }
        } else {
            roles[0].lerp(roles[1], Fraction { num: (i - 231) as u32, den: 25 })
        };
        p.push(c);
        i += 1;
    }
    assert(p@ =~= palette_of(roles@));
    p
}

/// A build failure looks the same whichever program coloured it: the ANSI
/// colours are the theme's own roles.
pub proof fn law_ansi_colours_are_roles(roles: Seq<Rgb>)
    ensures
        palette_of(roles)[0] == roles[role_index(Role::Background)],
        palette_of(roles)[1] == roles[role_index(Role::Error)],
        palette_of(roles)[2] == roles[role_index(Role::Success)],
        palette_of(roles)[3] == roles[role_index(Role::Warning)],
        palette_of(roles)[4] == roles[role_index(Role::Info)],
        palette_of(roles)[5] == roles[role_index(Role::Accent)],
        palette_of(roles)[7] == roles[role_index(Role::Dim)],
        palette_of(roles)[15] == roles[role_index(Role::Foreground)],
{
}

/// The colour cube is the same in every theme.
pub proof fn law_colour_cube_is_not_themed(a: Seq<Rgb>, b: Seq<Rgb>, i: int)
    requires
        16 <= i < 232,
    ensures
        palette_of(a)[i] == palette_of(b)[i],
{
}

impl ThemeError {
    /// What went wrong, in words.
    pub fn message(&self) -> (s: String)
        ensures
            self matches ThemeError::BadColor { field, value } ==> s@ == "theme field `"@ + field@
                + "` is not a colour: "@ + quoted(value@),
            self matches ThemeError::Unknown(id) ==> s@ == "no such theme: "@ + quoted(id@),
    {
        match self {
            ThemeError::BadColor { field, value } => {
                let mut s = "theme field `".to_owned();
                s.append(field);
                s.append("` is not a colour: ");
                s.append(quote(value.as_str()).as_str());
                s
            },
            ThemeError::Unknown(id) => {
                let mut s = "no such theme: ".to_owned();
                s.append(quote(id.as_str()).as_str());
                s
            },
        }
    }
}

/// What `str`'s `Debug` form makes of a text.
pub uninterp spec fn quoted(text: Seq<char>) -> Seq<char>;

/// The `Debug` form of a `str`: the text in quotes, with escapes where needed.
#[verifier::external_body]
pub(crate) fn quote(text: &str) -> (s: String)
    ensures
        s@ == quoted(text@),
{
    format!("{text:?}")
}

/// The views of a run of themes.
pub open spec fn theme_views(themes: Seq<Theme>) -> Seq<ThemeView> {
    themes.map_values(|t: Theme| t@)
}

/// The built-in themes.
pub open spec fn builtin_views() -> Seq<ThemeView> {
    seq![
        ThemeView {
            id: "slate"@,
            name: "Slate"@,
            background: "#14171c"@,
            foreground: "#d6dae0"@,
            dim: "#6b7480"@,
            accent: "#7aa2f7"@,
            success: "#8fcf7f"@,
            warning: "#e0c07a"@,
            error: "#e07a7a"@,
            info: "#7ac5e0"@,
        },
        ThemeView {
            id: "quartz"@,
            name: "Quartz"@,
            background: "#f6f4f1"@,
            foreground: "#2c2a28"@,
            dim: "#8c8781"@,
            accent: "#3b6ea5"@,
            success: "#3f7a3f"@,
            warning: "#9a6b1f"@,
            error: "#a83232"@,
            info: "#2f7080"@,
        },
        ThemeView {
            id: "basalt"@,
            name: "Basalt"@,
            background: "#0b0d10"@,
            foreground: "#c9d1d9"@,
            dim: "#565c64"@,
            accent: "#c98a4b"@,
            success: "#5fb37a"@,
            warning: "#d4a24c"@,
            error: "#d05f5f"@,
            info: "#5f9ec9"@,
        },
    ]
}

/// The built-in themes.
pub fn builtin_themes() -> (v: Vec<Theme>)
    ensures
        theme_views(v@) == builtin_views(),
{
    let mut v: Vec<Theme> = Vec::new();
    v.push(
        Theme {
            id: "slate".to_owned(),
            name: "Slate".to_owned(),
            background: "#14171c".to_owned(),
            foreground: "#d6dae0".to_owned(),
            dim: "#6b7480".to_owned(),
            accent: "#7aa2f7".to_owned(),
            success: "#8fcf7f".to_owned(),
            warning: "#e0c07a".to_owned(),
            error: "#e07a7a".to_owned(),
            info: "#7ac5e0".to_owned(),
        },
    );
    v.push(
        Theme {
            id: "quartz".to_owned(),
            name: "Quartz".to_owned(),
            background: "#f6f4f1".to_owned(),
            foreground: "#2c2a28".to_owned(),
            dim: "#8c8781".to_owned(),
            accent: "#3b6ea5".to_owned(),
            success: "#3f7a3f".to_owned(),
            warning: "#9a6b1f".to_owned(),
            error: "#a83232".to_owned(),
            info: "#2f7080".to_owned(),
        },
    );
    v.push(
        Theme {
            id: "basalt".to_owned(),
            name: "Basalt".to_owned(),
            background: "#0b0d10".to_owned(),
            foreground: "#c9d1d9".to_owned(),
            dim: "#565c64".to_owned(),
            accent: "#c98a4b".to_owned(),
            success: "#5fb37a".to_owned(),
            warning: "#d4a24c".to_owned(),
            error: "#d05f5f".to_owned(),
            info: "#5f9ec9".to_owned(),
        },
    );
    assert(theme_views(v@) =~= builtin_views());
    v
}

/// The built-in theme with an id: the first such theme.
pub fn builtin(id: &str) -> (t: Option<Theme>)
    ensures
        match t {
            Some(theme) => theme@.id == id@ && builtin_views().contains(theme@),
            None => forall|i: int|
                0 <= i < builtin_views().len() ==> (#[trigger] builtin_views()[i]).id != id@,
        },
{
    let mut themes = builtin_themes();
    let ghost all = builtin_views();
    let wanted = id.to_owned();
    let mut i: usize = 0;
    while i < themes.len()
        invariant
            i <= themes@.len(),
            all == theme_views(themes@),
            all == builtin_views(),
            wanted@ == id@,
            forall|j: int| 0 <= j < i ==> (#[trigger] all[j]).id != id@,
        decreases themes@.len() - i,
    {
        if themes[i].id == wanted {
            let found = themes.swap_remove(i);
            assert(all[i as int] == found@);
            return Some(found);
        }
        i += 1;
    }
    None
}

pub const DEFAULT_THEME: &'static str = "slate";

/// Whether a text is a colour.
#[verifier::opaque]
spec fn readable(s: Seq<char>) -> bool {
    color_of(s) is Some
}

/// A theme whose eight texts are colours can be read.
#[verifier::spinoff_prover]
#[verifier::rlimit(60)]
proof fn lemma_readable_theme(t: ThemeView)
    requires
        readable(t.background),
        readable(t.foreground),
        readable(t.dim),
        readable(t.accent),
        readable(t.success),
        readable(t.warning),
        readable(t.error),
        readable(t.info),
    ensures
        theme_parses(t),
{
    reveal(readable);
    let f = theme_fields(t);
    assert(f[0].1 == t.background && f[1].1 == t.foreground && f[2].1 == t.dim && f[3].1 == t.accent);
    assert(f[4].1 == t.success && f[5].1 == t.warning && f[6].1 == t.error && f[7].1 == t.info);
}

/// A hash and six hexadecimal digits are a colour.
proof fn lemma_six_digits(s: Seq<char>)
    requires
        s.len() == 7,
        s[0] == '#',
        forall|i: int|
            1 <= i < 7 ==> ('0' <= #[trigger] s[i] <= '9') || ('a' <= s[i] <= 'f'),
    ensures
        readable(s),
{
    reveal(readable);
    assert(is_ascii_chars(s)) by {
        assert forall|i: int| 0 <= i < s.len() implies '\0' <= #[trigger] s[i] <= '\u{7f}' by {
            if i > 0 {
                assert(('0' <= s[i] <= '9') || ('a' <= s[i] <= 'f'));
            }
        }
    }
    is_ascii_chars_encode_utf8(s);
    let h = without_hash(encode_utf8(s));
    assert(h.len() == 6);
    assert forall|i: int| 0 <= i < 6 implies hex_digit(#[trigger] h[i]) is Some by {
        assert(h[i] == s[i + 1] as u8);
    }
    assert(hex_digit(h[0]) is Some && hex_digit(h[1]) is Some && hex_digit(h[2]) is Some
        && hex_digit(h[3]) is Some && hex_digit(h[4]) is Some && hex_digit(h[5]) is Some);
}

proof fn lemma_slate_parses(t: ThemeView)
    requires
        t.background == "#14171c"@,
        t.foreground == "#d6dae0"@,
        t.dim == "#6b7480"@,
        t.accent == "#7aa2f7"@,
        t.success == "#8fcf7f"@,
        t.warning == "#e0c07a"@,
        t.error == "#e07a7a"@,
        t.info == "#7ac5e0"@,
    ensures
        theme_parses(t),
{
    assert(readable("#14171c"@)) by {
        reveal_strlit("#14171c");
        lemma_six_digits("#14171c"@);
    }
    assert(readable("#d6dae0"@)) by {
        reveal_strlit("#d6dae0");
        lemma_six_digits("#d6dae0"@);
    }
    assert(readable("#6b7480"@)) by {
        reveal_strlit("#6b7480");
        lemma_six_digits("#6b7480"@);
    }
    assert(readable("#7aa2f7"@)) by {
        reveal_strlit("#7aa2f7");
        lemma_six_digits("#7aa2f7"@);
    }
    assert(readable("#8fcf7f"@)) by {
        reveal_strlit("#8fcf7f");
        lemma_six_digits("#8fcf7f"@);
    }
    assert(readable("#e0c07a"@)) by {
        reveal_strlit("#e0c07a");
        lemma_six_digits("#e0c07a"@);
    }
    assert(readable("#e07a7a"@)) by {
        reveal_strlit("#e07a7a");
        lemma_six_digits("#e07a7a"@);
    }
    assert(readable("#7ac5e0"@)) by {
        reveal_strlit("#7ac5e0");
        lemma_six_digits("#7ac5e0"@);
    }
    lemma_readable_theme(t);
}

proof fn lemma_quartz_parses(t: ThemeView)
    requires
        t.background == "#f6f4f1"@,
        t.foreground == "#2c2a28"@,
        t.dim == "#8c8781"@,
        t.accent == "#3b6ea5"@,
        t.success == "#3f7a3f"@,
        t.warning == "#9a6b1f"@,
        t.error == "#a83232"@,
        t.info == "#2f7080"@,
    ensures
        theme_parses(t),
{
    assert(readable("#f6f4f1"@)) by {
        reveal_strlit("#f6f4f1");
        lemma_six_digits("#f6f4f1"@);
    }
    assert(readable("#2c2a28"@)) by {
        reveal_strlit("#2c2a28");
        lemma_six_digits("#2c2a28"@);
    }
    assert(readable("#8c8781"@)) by {
        reveal_strlit("#8c8781");
        lemma_six_digits("#8c8781"@);
    }
    assert(readable("#3b6ea5"@)) by {
        reveal_strlit("#3b6ea5");
        lemma_six_digits("#3b6ea5"@);
    }
    assert(readable("#3f7a3f"@)) by {
        reveal_strlit("#3f7a3f");
        lemma_six_digits("#3f7a3f"@);
    }
    assert(readable("#9a6b1f"@)) by {
        reveal_strlit("#9a6b1f");
        lemma_six_digits("#9a6b1f"@);
    }
    assert(readable("#a83232"@)) by {
        reveal_strlit("#a83232");
        lemma_six_digits("#a83232"@);
    }
    assert(readable("#2f7080"@)) by {
        reveal_strlit("#2f7080");
        lemma_six_digits("#2f7080"@);
    }
    lemma_readable_theme(t);
}

proof fn lemma_basalt_parses(t: ThemeView)
    requires
        t.background == "#0b0d10"@,
        t.foreground == "#c9d1d9"@,
        t.dim == "#565c64"@,
        t.accent == "#c98a4b"@,
        t.success == "#5fb37a"@,
        t.warning == "#d4a24c"@,
        t.error == "#d05f5f"@,
        t.info == "#5f9ec9"@,
    ensures
        theme_parses(t),
{
    assert(readable("#0b0d10"@)) by {
        reveal_strlit("#0b0d10");
        lemma_six_digits("#0b0d10"@);
    }
    assert(readable("#c9d1d9"@)) by {
        reveal_strlit("#c9d1d9");
        lemma_six_digits("#c9d1d9"@);
    }
    assert(readable("#565c64"@)) by {
        reveal_strlit("#565c64");
        lemma_six_digits("#565c64"@);
    }
    assert(readable("#c98a4b"@)) by {
        reveal_strlit("#c98a4b");
        lemma_six_digits("#c98a4b"@);
    }
    assert(readable("#5fb37a"@)) by {
        reveal_strlit("#5fb37a");
        lemma_six_digits("#5fb37a"@);
    }
    assert(readable("#d4a24c"@)) by {
        reveal_strlit("#d4a24c");
        lemma_six_digits("#d4a24c"@);
    }
    assert(readable("#d05f5f"@)) by {
        reveal_strlit("#d05f5f");
        lemma_six_digits("#d05f5f"@);
    }
    assert(readable("#5f9ec9"@)) by {
        reveal_strlit("#5f9ec9");
        lemma_six_digits("#5f9ec9"@);
    }
    lemma_readable_theme(t);
}

/// Every built-in theme can be read.
pub proof fn law_builtin_themes_parse(i: int)
    requires
        0 <= i < builtin_views().len(),
    ensures
        theme_parses(builtin_views()[i]),
{
    if i == 0 {
        lemma_slate_parses(builtin_views()[0]);
    } else if i == 1 {
        lemma_quartz_parses(builtin_views()[1]);
    } else {
        lemma_basalt_parses(builtin_views()[2]);
    }
}

/// A theme is dark exactly where its background has less than half the
/// brightness of white.
pub proof fn law_dark_backgrounds_are_dark(m: Material, yes: bool)
    requires
        m.wf(),
        call_ensures(Material::is_dark, (&m,), yes),
    ensures
        yes <==> 2 * (299 * m.roles@[0].r + 587 * m.roles@[0].g + 114 * m.roles@[0].b) < 255000,
{
}

proof fn lemma_mixed_nearest(a: int, b: int, part: int, den: int)
    requires
        0 <= a <= 255,
        0 <= b <= 255,
        0 <= part <= den,
        0 < den <= u32::MAX,
    ensures
        ({
            let v = ((2 * (a * den + (b - a) * part) + den) / (2 * den)) as u8;
            -den <= 2 * (v * den - (a * (den - part) + b * part)) <= den
        }),
{
    lemma_mixed(a, b, part, den);
    let s = 2 * (a * den + (b - a) * part) + den;
    let v = s / (2 * den);
    assert(v * (2 * den) <= s < v * (2 * den) + 2 * den) by (nonlinear_arith)
        requires
            v == s / (2 * den),
            0 < den,
    ;
    assert(v * (2 * den) == 2 * (v * den)) by (nonlinear_arith);
}

/// A mixed channel lies as near as a whole number can to the exact mixture, in
/// which the second colour has its part and the first the rest.
pub proof fn law_mixing_is_exact_to_half_a_step(a: Rgb, b: Rgb, t: Fraction)
    requires
        t.wf(),
        t.num <= t.den,
    ensures
        ({
            let c = lerped(a, b, t);
            let rest = t.den - t.num;
            &&& -t.den <= 2 * (c.r * t.den - (a.r * rest + b.r * t.num)) <= t.den
            &&& -t.den <= 2 * (c.g * t.den - (a.g * rest + b.g * t.num)) <= t.den
            &&& -t.den <= 2 * (c.b * t.den - (a.b * rest + b.b * t.num)) <= t.den
        }),
{
    lemma_mixed_nearest(a.r as int, b.r as int, t.num as int, t.den as int);
    lemma_mixed_nearest(a.g as int, b.g as int, t.num as int, t.den as int);
    lemma_mixed_nearest(a.b as int, b.b as int, t.num as int, t.den as int);
}

/// More than the whole is the whole.
pub proof fn law_no_more_than_the_whole_is_mixed(a: Rgb, b: Rgb, t: Fraction)
    requires
        t.wf(),
        t.num >= t.den,
    ensures
        lerped(a, b, t) == b,
        t.level() == 255,
{
    law_mixing_ends_exactly(a, b, t);
    lemma_mixed(0, 255, t.den as int, t.den as int);
    let d = t.den as int;
    assert(2 * (0 * d + (255 - 0) * d) == 2 * 255 * d) by (nonlinear_arith);
}

/// An alpha level lies as near as a whole number can to that part of 255.
pub proof fn law_levels_are_exact_to_half_a_step(t: Fraction)
    requires
        t.wf(),
        t.num <= t.den,
    ensures
        0 <= t.level() <= 255,
        -t.den <= 2 * (t.level() * t.den - 255 * t.num) <= t.den,
        t.num == 0 ==> t.level() == 0,
        t.num == t.den ==> t.level() == 255,
{
    lemma_mixed(0, 255, t.num as int, t.den as int);
    lemma_mixed_nearest(0, 255, t.num as int, t.den as int);
    let (n, d) = (t.num as int, t.den as int);
    assert(2 * (0 * d + (255 - 0) * n) == 2 * 255 * n) by (nonlinear_arith);
    assert(0 * (d - n) + 255 * n == 255 * n) by (nonlinear_arith);
    assert(0 <= t.level() <= 255);
}

/// Every theme's palette holds the standard colour cube: entry
/// `16 + 36 r + 6 g + b` has the `r`-th, `g`-th and `b`-th of six steps as its
/// red, green and blue.
pub proof fn law_the_colour_cube(theme: Theme, m: Material, r: int, g: int, b: int)
    requires
        call_ensures(Material::from_theme, (&theme,), Ok::<Material, ThemeError>(m)),
        0 <= r < 6,
        0 <= g < 6,
        0 <= b < 6,
    ensures
        ({
            let steps: Seq<int> = seq![0, 95, 135, 175, 215, 255];
            let c = m.palette@[16 + 36 * r + 6 * g + b];
            c.r == steps[r] && c.g == steps[g] && c.b == steps[b]
        }),
{
    let k = 36 * r + 6 * g + b;
    assert(k / 36 == r && k / 6 % 6 == g && k % 6 == b) by (nonlinear_arith)
        requires
            0 <= r < 6,
            0 <= g < 6,
            0 <= b < 6,
            k == 36 * r + 6 * g + b,
    ;
    assert(m@.palette[16 + k] == palette_entry(theme_roles(theme@), 16 + k));
}

/// A role of a theme is the colour that the theme writes down for it, and the
/// theme's own colour in a cell is the role of that position.
pub proof fn law_roles_are_what_the_theme_says(theme: Theme, m: Material)
    requires
        call_ensures(Material::from_theme, (&theme,), Ok::<Material, ThemeError>(m)),
    ensures
        m.wf(),
        m.id@ == theme.id@,
        m.name@ == theme.name@,
        color_of(theme.background@) == Some(resolved(m@, ColorView::Default, Role::Background)),
        color_of(theme.foreground@) == Some(resolved(m@, ColorView::Default, Role::Foreground)),
        color_of(theme.dim@) == Some(resolved(m@, ColorView::Default, Role::Dim)),
        color_of(theme.accent@) == Some(resolved(m@, ColorView::Default, Role::Accent)),
        color_of(theme.success@) == Some(resolved(m@, ColorView::Default, Role::Success)),
        color_of(theme.warning@) == Some(resolved(m@, ColorView::Default, Role::Warning)),
        color_of(theme.error@) == Some(resolved(m@, ColorView::Default, Role::Error)),
        color_of(theme.info@) == Some(resolved(m@, ColorView::Default, Role::Info)),
{
    let f = theme_fields(theme@);
    assert forall|i: int| 0 <= i < 8 implies color_of((#[trigger] f[i]).1) == Some(m@.roles[i]) by {
        assert(color_of(theme_fields(theme@)[i].1) is Some);
    }
    assert(f[0].1 == theme.background@ && f[1].1 == theme.foreground@ && f[2].1 == theme.dim@);
    assert(f[3].1 == theme.accent@ && f[4].1 == theme.success@ && f[5].1 == theme.warning@);
    assert(f[6].1 == theme.error@ && f[7].1 == theme.info@);
}

/// A theme is refused exactly where one of its colours cannot be read, and the
/// first such field is named with its text.
pub proof fn law_a_theme_is_refused_for_its_first_bad_colour(
    theme: Theme,
    field: &'static str,
    value: String,
)
    requires
        call_ensures(
            Material::from_theme,
            (&theme,),
            Err::<Material, ThemeError>(ThemeError::BadColor { field, value }),
        ),
    ensures
        color_of(value@) is None,
        field@ == "background"@ && value@ == theme.background@ || color_of(theme.background@) is Some
            && (field@ == "foreground"@ && value@ == theme.foreground@ || color_of(
            theme.foreground@,
        ) is Some && (field@ == "dim"@ && value@ == theme.dim@ || color_of(theme.dim@) is Some && (
        field@ == "accent"@ && value@ == theme.accent@ || color_of(theme.accent@) is Some && (field@
            == "success"@ && value@ == theme.success@ || color_of(theme.success@) is Some && (field@
            == "warning"@ && value@ == theme.warning@ || color_of(theme.warning@) is Some && (field@
            == "error"@ && value@ == theme.error@ || color_of(theme.error@) is Some && field@
            == "info"@ && value@ == theme.info@)))))),
{
    let f = theme_fields(theme@);
    let i = choose|i: int| #[trigger]
        first_bad_field(theme@, i) && field@ == f[i].0 && value@ == f[i].1;
    assert(f[0].1 == theme.background@ && f[1].1 == theme.foreground@ && f[2].1 == theme.dim@);
    assert(f[3].1 == theme.accent@ && f[4].1 == theme.success@ && f[5].1 == theme.warning@);
    assert(f[6].1 == theme.error@ && f[7].1 == theme.info@);
    assert(f[0].0 == "background"@ && f[1].0 == "foreground"@ && f[2].0 == "dim"@);
    assert(f[3].0 == "accent"@ && f[4].0 == "success"@ && f[5].0 == "warning"@);
    assert(f[6].0 == "error"@ && f[7].0 == "info"@);
    assert(i == 0 || i == 1 || i == 2 || i == 3 || i == 4 || i == 5 || i == 6 || i == 7);
}

/// A literal colour is drawn as it is and a palette entry as the palette has it,
/// whatever the position.
pub proof fn law_stored_colours_are_drawn_as_they_are(
    m: MaterialView,
    r: u8,
    g: u8,
    b: u8,
    i: u8,
    role: Role,
)
    ensures
        resolved(m, ColorView::Rgb(r, g, b), role).r == r,
        resolved(m, ColorView::Rgb(r, g, b), role).g == g,
        resolved(m, ColorView::Rgb(r, g, b), role).b == b,
        resolved(m, ColorView::Palette(i), role) == m.palette[i as int],
        resolved(m, ColorView::Default, Role::Background) == m.roles[0],
        resolved(m, ColorView::Default, Role::Foreground) == m.roles[1],
        resolved(m, ColorView::Default, Role::Dim) == m.roles[2],
        resolved(m, ColorView::Default, Role::Accent) == m.roles[3],
        resolved(m, ColorView::Default, Role::Success) == m.roles[4],
        resolved(m, ColorView::Default, Role::Warning) == m.roles[5],
        resolved(m, ColorView::Default, Role::Error) == m.roles[6],
        resolved(m, ColorView::Default, Role::Info) == m.roles[7],
{
}

/// Whether a colour is the given part of the way from one to another, to half a
/// step in every channel.
pub open spec fn is_between(c: Rgb, a: Rgb, b: Rgb, num: int, den: int) -> bool {
    &&& -den <= 2 * (c.r * den - (a.r * (den - num) + b.r * num)) <= den
    &&& -den <= 2 * (c.g * den - (a.g * (den - num) + b.g * num)) <= den
    &&& -den <= 2 * (c.b * den - (a.b * (den - num) + b.b * num)) <= den
}

/// The derived entries of a palette lie between the colours of the theme: cyan
/// halfway between the info and accent roles, the bright colours seven
/// twentieths of the way to the foreground, bright black halfway from the dim role to the
/// background, and the greys in 25 equal steps from background to foreground.
pub proof fn law_derived_colours_stay_in_the_theme(roles: Seq<Rgb>, i: int, k: int)
    requires
        1 <= i < 7,
        1 <= k <= 24,
    ensures
        is_between(palette_of(roles)[6], roles[7], roles[3], 1, 2),
        is_between(palette_of(roles)[8], roles[2], roles[0], 1, 2),
        is_between(palette_of(roles)[8 + i], palette_of(roles)[i], roles[1], 7, 20),
        is_between(palette_of(roles)[231 + k], roles[0], roles[1], k, 25),
{
    law_mixing_is_exact_to_half_a_step(roles[7], roles[3], Fraction { num: 1, den: 2 });
    law_mixing_is_exact_to_half_a_step(roles[2], roles[0], Fraction { num: 1, den: 2 });
    law_mixing_is_exact_to_half_a_step(
        palette_of(roles)[i],
        roles[1],
        Fraction { num: 7, den: 20 },
    );
    law_mixing_is_exact_to_half_a_step(roles[0], roles[1], Fraction { num: k as u32, den: 25 });
}

/// A cross-fade mixes each colour with the one that takes its place, and goes by
/// the name of where it ends.
pub proof fn law_a_cross_fade_mixes_colour_by_colour(
    a: MaterialView,
    b: MaterialView,
    t: Fraction,
    i: int,
    k: int,
)
    requires
        t.wf(),
        t.num <= t.den,
        0 <= i < 8,
        0 <= k < 256,
    ensures
        blended(a, b, t).id == b.id,
        blended(a, b, t).name == b.name,
        is_between(blended(a, b, t).roles[i], a.roles[i], b.roles[i], t.num as int, t.den as int),
        is_between(
            blended(a, b, t).palette[k],
            a.palette[k],
            b.palette[k],
            t.num as int,
            t.den as int,
        ),
{
    law_mixing_is_exact_to_half_a_step(a.roles[i], b.roles[i], t);
    law_mixing_is_exact_to_half_a_step(a.palette[k], b.palette[k], t);
}

/// Six digits are read in pairs, red first; three digits stand for each of them
/// twice; and a leading `#` makes no difference.
pub proof fn law_colour_texts_are_read_in_order(d: Seq<char>)
    requires
        is_ascii_chars(d),
        d.len() == 6 || d.len() == 3,
        forall|i: int| 0 <= i < d.len() ==> hex_digit((#[trigger] d[i]) as u8) is Some,
    ensures
        color_of(d) is Some,
        color_of(seq!['#'] + d) == color_of(d),
        d.len() == 6 ==> {
            let c = color_of(d)->0;
            &&& c.r == 16 * hex_digit(d[0] as u8)->0 + hex_digit(d[1] as u8)->0
            &&& c.g == 16 * hex_digit(d[2] as u8)->0 + hex_digit(d[3] as u8)->0
            &&& c.b == 16 * hex_digit(d[4] as u8)->0 + hex_digit(d[5] as u8)->0
        },
        d.len() == 3 ==> color_of(d) == color_of(seq![d[0], d[0], d[1], d[1], d[2], d[2]]),
{
    is_ascii_chars_encode_utf8(d);
    let e = encode_utf8(d);
    assert(e.len() == d.len());
    assert forall|i: int| 0 <= i < d.len() implies #[trigger] e[i] == d[i] as u8 by {}
    assert forall|i: int| 0 <= i < d.len() implies hex_digit(#[trigger] e[i]) is Some by {
        assert(hex_digit(d[i] as u8) is Some);
    }
    assert(hex_digit(0x23) is None);
    assert(e[0] != 0x23);
    assert(without_hash(e) == e);
    assert(hex_digit(e[0]) is Some && hex_digit(e[1]) is Some && hex_digit(e[2]) is Some);
    let s = seq!['#'] + d;
    assert(is_ascii_chars(s)) by {
        assert forall|i: int| 0 <= i < s.len() implies '\0' <= #[trigger] s[i] <= '\u{7f}' by {
            if i > 0 {
                assert(s[i] == d[i - 1]);
            }
        }
    }
    is_ascii_chars_encode_utf8(s);
    let h = encode_utf8(s);
    assert(h[0] == 0x23);
    assert(h.skip(1) =~= e);
    if d.len() == 6 {
        assert(hex_digit(e[3]) is Some && hex_digit(e[4]) is Some && hex_digit(e[5]) is Some);
    } else {
        let w = seq![d[0], d[0], d[1], d[1], d[2], d[2]];
        assert(is_ascii_chars(w)) by {
            assert forall|i: int| 0 <= i < w.len() implies '\0' <= #[trigger] w[i] <= '\u{7f}' by {
                assert(w[i] == d[i / 2]);
            }
        }
        is_ascii_chars_encode_utf8(w);
        let u = encode_utf8(w);
        assert(u[0] == e[0] && u[1] == e[0] && u[2] == e[1] && u[3] == e[1] && u[4] == e[2] && u[5]
            == e[2]);
        assert(without_hash(u) == u);
    }
}

/// The built-in themes are these three, in these colours.
pub proof fn law_the_built_in_themes(v: Vec<Theme>)
    requires
        call_ensures(builtin_themes, (), v),
    ensures
        v@.len() == 3,
        v@[0].id@ == "slate"@,
        v@[0].name@ == "Slate"@,
        v@[0].background@ == "#14171c"@,
        v@[0].foreground@ == "#d6dae0"@,
        v@[0].dim@ == "#6b7480"@,
        v@[0].accent@ == "#7aa2f7"@,
        v@[0].success@ == "#8fcf7f"@,
        v@[0].warning@ == "#e0c07a"@,
        v@[0].error@ == "#e07a7a"@,
        v@[0].info@ == "#7ac5e0"@,
        v@[1].id@ == "quartz"@,
        v@[1].name@ == "Quartz"@,
        v@[1].background@ == "#f6f4f1"@,
        v@[1].foreground@ == "#2c2a28"@,
        v@[1].dim@ == "#8c8781"@,
        v@[1].accent@ == "#3b6ea5"@,
        v@[1].success@ == "#3f7a3f"@,
        v@[1].warning@ == "#9a6b1f"@,
        v@[1].error@ == "#a83232"@,
        v@[1].info@ == "#2f7080"@,
        v@[2].id@ == "basalt"@,
        v@[2].name@ == "Basalt"@,
        v@[2].background@ == "#0b0d10"@,
        v@[2].foreground@ == "#c9d1d9"@,
        v@[2].dim@ == "#565c64"@,
        v@[2].accent@ == "#c98a4b"@,
        v@[2].success@ == "#5fb37a"@,
        v@[2].warning@ == "#d4a24c"@,
        v@[2].error@ == "#d05f5f"@,
        v@[2].info@ == "#5f9ec9"@,
{
    let all = theme_views(v@);
    assert(all.len() == v@.len());
    assert(all[0] == v@[0]@ && all[1] == v@[1]@ && all[2] == v@[2]@);
}

/// A built-in theme is found by its own id, and no other id finds one.
pub proof fn law_themes_are_found_by_their_id(id: &str, t: Option<Theme>)
    requires
        call_ensures(builtin, (id,), t),
    ensures
        t matches Some(theme) ==> theme.id@ == id@,
        id@ == "slate"@ || id@ == "quartz"@ || id@ == "basalt"@ ==> t is Some,
        id@ != "slate"@ && id@ != "quartz"@ && id@ != "basalt"@ ==> t is None,
{
    let all = builtin_views();
    assert(all[0].id == "slate"@ && all[1].id == "quartz"@ && all[2].id == "basalt"@);
    if let Some(theme) = t {
        let i = choose|i: int| 0 <= i < all.len() && all[i] == theme@;
        assert(all[i].id == id@);
    }
}

/// A colour is written behind a number sign with two small digits for each
/// channel, red before green before blue.
pub proof fn law_colours_are_written_in_small_digits(c: Rgb, s: String, i: int)
    requires
        call_ensures(Rgb::to_hex, (c,), s),
        1 <= i < 7,
    ensures
        s@.len() == 7,
        s@[0] == '#',
        '0' <= s@[i] <= '9' || 'a' <= s@[i] <= 'f',
        ({
            let digit = |k: int|
                if s@[k] <= '9' {
                    s@[k] as int - '0' as int
                } else {
                    s@[k] as int - 'a' as int + 10
                };
            &&& c.r == 16 * digit(1) + digit(2)
            &&& c.g == 16 * digit(3) + digit(4)
            &&& c.b == 16 * digit(5) + digit(6)
        }),
{
}

} // verus!
