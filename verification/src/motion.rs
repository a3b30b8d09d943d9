//! How the caret is set to move.
//!
//! The physics itself is floating point and is not here: what is, is which style
//! applies, how its settings are kept in bounds, and how styles are named.

use vstd::prelude::*;

use crate::text::{chars_of, range_is};

verus! {

/// A single-precision number, by its bits.
///
/// Its order can be told from the bits alone: without the sign they grow with
/// the number, and those past infinity are not numbers.
#[derive(Debug, Clone, Copy, PartialEq, Eq, Structural)]
pub struct Single {
    pub bits: u32,
}

/// The bits of infinity: greater ones, up to the sign, are not numbers.
pub const INFINITY_BITS: u32 = 0x7F80_0000;

/// The bit of the sign.
pub const SIGN_BIT: u32 = 0x8000_0000;

impl Single {
    /// The bits without the sign.
    pub open spec fn size(self) -> int {
        self.bits as int % 0x8000_0000
    }

    pub open spec fn is_nan(self) -> bool {
        self.size() > INFINITY_BITS
    }

    pub open spec fn finite(self) -> bool {
        self.size() < INFINITY_BITS
    }

    /// Where a number stands among all numbers. The two zeros stand at one place.
    pub open spec fn rank(self) -> int {
        if self.bits >= SIGN_BIT {
            -self.size()
        } else {
            self.size()
        }
    }

    /// Whether two numbers are the same number. What is not a number is the same
    /// as nothing.
    #[verifier::opaque]
    pub open spec fn same(self, other: Single) -> bool {
        !self.is_nan() && !other.is_nan() && self.rank() == other.rank()
    }

    /// A number moved between two bounds. What is not a number stays as it is.
    pub open spec fn clamped(self, low: Single, high: Single) -> Single {
        if self.is_nan() {
            self
        } else if self.rank() < low.rank() {
            low
        } else if self.rank() > high.rank() {
            high
        } else {
            self
        }
    }

    pub fn new(bits: u32) -> (s: Single)
        ensures
            s.bits == bits,
    {
        Single { bits }
    }

    fn magnitude(self) -> (m: u32)
        ensures
            m == self.size(),
    {
        self.bits % SIGN_BIT
    }

    fn place(self) -> (r: i64)
        ensures
            r == self.rank(),
    {
        if self.bits >= SIGN_BIT {
            -(self.magnitude() as i64)
        } else {
            self.magnitude() as i64
        }
    }

    pub fn is_finite(self) -> (yes: bool)
        ensures
            yes == self.finite(),
    {
        self.magnitude() < INFINITY_BITS
    }

    /// Whether two numbers are the same number.
    pub fn equals(self, other: Single) -> (yes: bool)
        ensures
            yes == self.same(other),
    {
        proof {
            reveal(Single::same);
        }
        self.magnitude() <= INFINITY_BITS && other.magnitude() <= INFINITY_BITS && self.place()
            == other.place()
    }

    pub fn clamp(self, low: Single, high: Single) -> (s: Single)
        ensures
            s == self.clamped(low, high),
    {
        if self.magnitude() > INFINITY_BITS {
            self
        } else if self.place() < low.place() {
            low
        } else if self.place() > high.place() {
            high
        } else {
            self
        }
    }
}

/// 0.0
pub const ZERO: u32 = 0;

/// 0.25
pub const QUARTER: u32 = 0x3E80_0000;

/// 0.7
pub const SEVEN_TENTHS: u32 = 0x3F33_3333;

/// 1.0
pub const ONE: u32 = 0x3F80_0000;

/// 2.0
pub const TWO: u32 = 0x4000_0000;

/// 4.0
pub const FOUR: u32 = 0x4080_0000;

/// How long every animation takes when motion is reduced, in milliseconds.
pub const REDUCED_FADE: u64 = 90;

/// How the caret gets from one cell to the next.
#[derive(Debug, Clone, Copy, PartialEq, Eq, Hash, Structural)]
pub enum MotionStyle {
    /// No travel: the caret is in the new cell.
    Snap,
    /// Quick, and never too far.
    Ease,
    /// A damped spring, which goes slightly too far and comes back.
    Spring,
    /// Ease, softened along the way.
    Smear,
    /// Ease, stretched along the way and thinned across it.
    Squash,
    /// Ease with a long afterglow.
    Phosphor,
    /// Along an arc.
    Arc,
}

/// The styles, in the order in which they are listed.
pub open spec fn all_styles() -> Seq<MotionStyle> {
    seq![
        MotionStyle::Snap,
        MotionStyle::Ease,
        MotionStyle::Spring,
        MotionStyle::Smear,
        MotionStyle::Squash,
        MotionStyle::Phosphor,
        MotionStyle::Arc,
    ]
}

/// What a style is called in a settings file.
pub open spec fn style_id(s: MotionStyle) -> Seq<char> {
    match s {
        MotionStyle::Snap => "snap"@,
        MotionStyle::Ease => "ease"@,
        MotionStyle::Spring => "spring"@,
        MotionStyle::Smear => "smear"@,
        MotionStyle::Squash => "squash"@,
        MotionStyle::Phosphor => "phosphor"@,
        MotionStyle::Arc => "arc"@,
    }
}

impl Default for MotionStyle {
    fn default() -> (s: MotionStyle)
        ensures
            s is Ease,
    {
        MotionStyle::Ease
    }
}

impl MotionStyle {
    /// Every style.
    pub fn all() -> (v: Vec<MotionStyle>)
        ensures
            v@ == all_styles(),
    {
        let v = vec![
            MotionStyle::Snap,
            MotionStyle::Ease,
            MotionStyle::Spring,
            MotionStyle::Smear,
            MotionStyle::Squash,
            MotionStyle::Phosphor,
            MotionStyle::Arc,
        ];
        assert(v@ =~= all_styles());
        v
    }

    pub fn id(self) -> (id: &'static str)
        ensures
            id@ == style_id(self),
    {
        match self {
            MotionStyle::Snap => "snap",
            MotionStyle::Ease => "ease",
            MotionStyle::Spring => "spring",
            MotionStyle::Smear => "smear",
            MotionStyle::Squash => "squash",
            MotionStyle::Phosphor => "phosphor",
            MotionStyle::Arc => "arc",
        }
    }

    /// The style of a name, where there is one.
    pub fn from_id(id: &str) -> (s: Option<MotionStyle>)
        ensures
            s == style_named(id@),
    {
        let chars = chars_of(id);
        let n: usize = chars.len();
        let all = MotionStyle::all();
        let mut i: usize = 0;
        assert(chars@.subrange(0, n as int) =~= id@);
        while i < all.len()
            invariant
                i <= all@.len(),
                all@ == all_styles(),
                n == chars@.len(),
                chars@.subrange(0, n as int) == id@,
                forall|k: int| 0 <= k < i ==> style_id(#[trigger] all_styles()[k]) != id@,
            decreases all@.len() - i,
        {
            let style = all[i];
            if range_is(&chars, 0, n, style.id()) {
                proof {
                    law_styles_are_found_by_name(style);
                }
                return Some(style);
            }
            i += 1;
        }
        assert forall|style: MotionStyle| #[trigger] style_id(style) != id@ by {
            let at = style_index(style);
            assert(all_styles()[at] == style);
        }
        assert(style_id(MotionStyle::Snap) != id@);
        assert(style_id(MotionStyle::Ease) != id@);
        assert(style_id(MotionStyle::Spring) != id@);
        assert(style_id(MotionStyle::Smear) != id@);
        assert(style_id(MotionStyle::Squash) != id@);
        assert(style_id(MotionStyle::Phosphor) != id@);
        assert(style_id(MotionStyle::Arc) != id@);
        None
    }

    /// For a person to read.
    pub fn label(self) -> (l: &'static str)
        ensures
            l@ == style_label(self),
    {
        match self {
            MotionStyle::Snap => "Snap",
            MotionStyle::Ease => "Ease",
            MotionStyle::Spring => "Spring",
            MotionStyle::Smear => "Smear",
            MotionStyle::Squash => "Squash",
            MotionStyle::Phosphor => "Phosphor",
            MotionStyle::Arc => "Arc",
        }
    }

    /// Whether the caret travels at all.
    pub fn interpolates(self) -> (yes: bool)
        ensures
            yes == !(self is Snap),
    {
        match self {
            MotionStyle::Snap => false,
            _ => true,
        }
    }

    /// How long a piece of the trail lives, in hundredths of a second. None is
    /// left where this is nothing.
    pub fn trail_life(self) -> (t: u32)
        ensures
            t == match self {
                MotionStyle::Phosphor => 40u32,
                MotionStyle::Smear => 18u32,
                MotionStyle::Snap => 0u32,
                _ => 13u32,
            },
    {
        match self {
            MotionStyle::Phosphor => 40,
            MotionStyle::Smear => 18,
            MotionStyle::Snap => 0,
            _ => 13,
        }
    }
}

/// What a style is called for a person.
pub open spec fn style_label(s: MotionStyle) -> Seq<char> {
    match s {
        MotionStyle::Snap => "Snap"@,
        MotionStyle::Ease => "Ease"@,
        MotionStyle::Spring => "Spring"@,
        MotionStyle::Smear => "Smear"@,
        MotionStyle::Squash => "Squash"@,
        MotionStyle::Phosphor => "Phosphor"@,
        MotionStyle::Arc => "Arc"@,
    }
}

/// Where a style stands in the list.
pub open spec fn style_index(s: MotionStyle) -> int {
    match s {
        MotionStyle::Snap => 0,
        MotionStyle::Ease => 1,
        MotionStyle::Spring => 2,
        MotionStyle::Smear => 3,
        MotionStyle::Squash => 4,
        MotionStyle::Phosphor => 5,
        MotionStyle::Arc => 6,
    }
}

/// No two styles have one name.
pub proof fn law_style_names_are_distinct(a: MotionStyle, b: MotionStyle)
    requires
        style_id(a) == style_id(b),
    ensures
        a == b,
{
    reveal_strlit("snap");
    reveal_strlit("ease");
    reveal_strlit("spring");
    reveal_strlit("smear");
    reveal_strlit("squash");
    reveal_strlit("phosphor");
    reveal_strlit("arc");
    assert("snap"@.len() == 4 && "snap"@[0] == 's');
    assert("ease"@.len() == 4 && "ease"@[0] == 'e');
    assert("spring"@.len() == 6 && "spring"@[1] == 'p');
    assert("smear"@.len() == 5);
    assert("squash"@.len() == 6 && "squash"@[1] == 'q');
    assert("phosphor"@.len() == 8);
    assert("arc"@.len() == 3);
}

/// The style of a name, where there is one.
pub open spec fn style_named(id: Seq<char>) -> Option<MotionStyle> {
    if id == style_id(MotionStyle::Snap) {
        Some(MotionStyle::Snap)
    } else if id == style_id(MotionStyle::Ease) {
        Some(MotionStyle::Ease)
    } else if id == style_id(MotionStyle::Spring) {
        Some(MotionStyle::Spring)
    } else if id == style_id(MotionStyle::Smear) {
        Some(MotionStyle::Smear)
    } else if id == style_id(MotionStyle::Squash) {
        Some(MotionStyle::Squash)
    } else if id == style_id(MotionStyle::Phosphor) {
        Some(MotionStyle::Phosphor)
    } else if id == style_id(MotionStyle::Arc) {
        Some(MotionStyle::Arc)
    } else {
        None
    }
}

/// A style's name leads back to the style.
pub proof fn law_styles_are_found_by_name(s: MotionStyle)
    ensures
        style_named(style_id(s)) == Some(s),
{
    let found = style_named(style_id(s))->0;
    law_style_names_are_distinct(found, s);
}

/// How the caret behaves.
#[derive(Debug, Clone, Copy, PartialEq, Eq, Structural)]
pub struct MotionSettings {
    pub style: MotionStyle,
    /// A factor on every rate.
    pub speed: Single,
    /// How strongly a style distorts the caret, between 0 and 1.
    pub intensity: Single,
    /// Whether the caret leaves a trail.
    pub decay: bool,
    /// Whether the caret blinks when it is idle. A caret that blinks never stops
    /// drawing.
    pub blink: bool,
    /// Whether everything is reduced to a short fade.
    pub reduce: bool,
}

/// How the caret behaves unless it is told otherwise.
pub open spec fn default_motion() -> MotionSettings {
    MotionSettings {
        style: MotionStyle::Ease,
        speed: Single { bits: ONE },
        intensity: Single { bits: SEVEN_TENTHS },
        decay: true,
        blink: false,
        reduce: false,
    }
}

impl Default for MotionSettings {
    fn default() -> (m: MotionSettings)
        ensures
            m == default_motion(),
    {
        MotionSettings {
            style: MotionStyle::Ease,
            speed: Single { bits: ONE },
            intensity: Single { bits: SEVEN_TENTHS },
            decay: true,
            blink: false,
            reduce: false,
        }
    }
}

/// A number between bounds, and a given one where it is not a number.
#[verifier::opaque]
pub open spec fn sane(s: Single, low: u32, high: u32, otherwise: u32) -> Single {
    let held = s.clamped(Single { bits: low }, Single { bits: high });
    if held.finite() {
        held
    } else {
        Single { bits: otherwise }
    }
}

pub(crate) fn make_sane(s: Single, low: u32, high: u32, otherwise: u32) -> (r: Single)
    ensures
        r == sane(s, low, high, otherwise),
{
    proof {
        reveal(sane);
    }
    let held = s.clamp(Single { bits: low }, Single { bits: high });
    if held.is_finite() {
        held
    } else {
        Single { bits: otherwise }
    }
}

/// Settings with their numbers in bounds that the physics survives.
pub open spec fn sanitised_motion(m: MotionSettings) -> MotionSettings {
    MotionSettings {
        speed: sane(m.speed, QUARTER, FOUR, ONE),
        intensity: sane(m.intensity, ZERO, ONE, SEVEN_TENTHS),
        ..m
    }
}

impl MotionSettings {
    /// Brings the numbers in bounds: a speed of 0 would be a caret that never
    /// arrives.
    pub fn sanitised(self) -> (m: MotionSettings)
        ensures
            m == sanitised_motion(self),
    {
        MotionSettings {
            style: self.style,
            speed: make_sane(self.speed, QUARTER, FOUR, ONE),
            intensity: make_sane(self.intensity, ZERO, ONE, SEVEN_TENTHS),
            decay: self.decay,
            blink: self.blink,
            reduce: self.reduce,
        }
    }

    /// The style that applies: none where motion is reduced.
    pub fn effective_style(&self) -> (s: MotionStyle)
        ensures
            s == if self.reduce {
                MotionStyle::Snap
            } else {
                self.style
            },
    {
        if self.reduce {
            MotionStyle::Snap
        } else {
            self.style
        }
    }
}

/// Whatever a settings file says, the numbers that apply are finite and in
/// bounds; and those that are in bounds stay as they are.
pub proof fn law_sanitised_settings_are_sane(m: MotionSettings)
    ensures
        sanitised_motion(m).speed.finite(),
        sanitised_motion(m).intensity.finite(),
        (Single { bits: QUARTER }).rank() <= sanitised_motion(m).speed.rank() <= (Single {
            bits: FOUR,
        }).rank(),
        0 <= sanitised_motion(m).intensity.rank() <= (Single { bits: ONE }).rank(),
        sanitised_motion(sanitised_motion(m)) == sanitised_motion(m),
        sanitised_motion(default_motion()) == default_motion(),
{
    reveal(sane);
}

/// A number that is in bounds stays, one that is out of them becomes the nearer
/// bound, and what is not a number becomes the one for that case.
pub proof fn law_numbers_are_held_in_bounds(m: MotionSettings)
    ensures
        ({
            let s = sanitised_motion(m);
            let quarter = 0x3E80_0000u32;
            let four = 0x4080_0000u32;
            let one = 0x3F80_0000u32;
            &&& m.speed.bits < quarter ==> s.speed.bits == quarter
            &&& quarter <= m.speed.bits <= four ==> s.speed == m.speed
            &&& four < m.speed.bits <= 0x7F80_0000 ==> s.speed.bits == four
            &&& 0x7F80_0000 < m.speed.bits < 0x8000_0000 ==> s.speed.bits == one
            &&& 0x8000_0000 <= m.speed.bits <= 0xFF80_0000 ==> s.speed.bits == quarter
            &&& 0xFF80_0000 < m.speed.bits ==> s.speed.bits == one
            &&& m.intensity.bits <= one ==> s.intensity == m.intensity
            &&& one < m.intensity.bits <= 0x7F80_0000 ==> s.intensity.bits == one
            &&& 0x7F80_0000 < m.intensity.bits < 0x8000_0000 ==> s.intensity.bits == 0x3F33_3333
            &&& 0x8000_0000 < m.intensity.bits <= 0xFF80_0000 ==> s.intensity.bits == 0
            &&& 0xFF80_0000 < m.intensity.bits ==> s.intensity.bits == 0x3F33_3333
            &&& s.style == m.style
            &&& s.decay == m.decay
            &&& s.blink == m.blink
            &&& s.reduce == m.reduce
        }),
{
    reveal(sane);
}

/// Two numbers are the same exactly where their bits are, but for the two zeros,
/// and where neither is not a number.
pub proof fn law_same_numbers(a: Single, b: Single, yes: bool)
    requires
        call_ensures(Single::equals, (a, b), yes),
        a.bits != 0x8000_0000,
        b.bits != 0x8000_0000,
    ensures
        a.bits != b.bits ==> !yes,
        a.bits == b.bits && a.bits <= 0x7F80_0000 ==> yes,
        0x7F80_0000 < a.bits < 0x8000_0000 || a.bits > 0xFF80_0000 ==> !yes,
{
    reveal(Single::same);
}

/// Where motion is reduced the caret does not travel, whatever its style; else
/// its style applies. Only the style that snaps does not travel.
pub proof fn law_reduced_motion_snaps(m: MotionSettings, s: MotionStyle, yes: bool)
    requires
        call_ensures(MotionSettings::effective_style, (&m,), s),
        call_ensures(MotionStyle::interpolates, (s,), yes),
    ensures
        m.reduce ==> s == MotionStyle::Snap && !yes,
        !m.reduce ==> s == m.style,
        !m.reduce ==> (yes <==> m.style != MotionStyle::Snap),
{
}

/// Styles are written by their own names, in small letters, and read by them.
pub proof fn law_styles_are_named(s: MotionStyle, id: &'static str, label: &'static str)
    requires
        call_ensures(MotionStyle::id, (s,), id),
        call_ensures(MotionStyle::label, (s,), label),
    ensures
        s is Snap ==> id@ == "snap"@ && label@ == "Snap"@,
        s is Ease ==> id@ == "ease"@ && label@ == "Ease"@,
        s is Spring ==> id@ == "spring"@ && label@ == "Spring"@,
        s is Smear ==> id@ == "smear"@ && label@ == "Smear"@,
        s is Squash ==> id@ == "squash"@ && label@ == "Squash"@,
        s is Phosphor ==> id@ == "phosphor"@ && label@ == "Phosphor"@,
        s is Arc ==> id@ == "arc"@ && label@ == "Arc"@,
        style_named(id@) == Some(s),
{
    law_styles_are_found_by_name(s);
}

/// Afterglow lasts longest with phosphor, then with a smear, then with the other
/// styles that travel; what snaps leaves none.
pub proof fn law_afterglow(a: MotionStyle, life: u32)
    requires
        call_ensures(MotionStyle::trail_life, (a,), life),
    ensures
        life == 0 <==> a == MotionStyle::Snap,
        life == 40 <==> a == MotionStyle::Phosphor,
        life == 18 <==> a == MotionStyle::Smear,
        a != MotionStyle::Snap && a != MotionStyle::Phosphor && a != MotionStyle::Smear ==> life
            == 13,
{
}

/// The caret eases, at its own pace, with seven tenths of the distortion and a
/// trail, and it neither blinks nor is reduced, unless told otherwise.
pub proof fn law_motion_unless_told_otherwise(style: MotionStyle)
    ensures
        default_motion().style == MotionStyle::Ease,
        default_motion().speed.bits == 0x3F80_0000,
        default_motion().intensity.bits == 0x3F33_3333,
        default_motion().decay,
        !default_motion().blink,
        !default_motion().reduce,
        style != MotionStyle::Ease ==> default_motion().style != style,
{
}

/// The styles are listed in this order, each once.
pub proof fn law_styles_are_listed(v: Vec<MotionStyle>, s: MotionStyle)
    requires
        call_ensures(MotionStyle::all, (), v),
    ensures
        v@.len() == 7,
        v@[0] is Snap && v@[1] is Ease && v@[2] is Spring && v@[3] is Smear && v@[4] is Squash
            && v@[5] is Phosphor && v@[6] is Arc,
        v@.contains(s),
{
    match s {
        MotionStyle::Snap => assert(v@[0] == s),
        MotionStyle::Ease => assert(v@[1] == s),
        MotionStyle::Spring => assert(v@[2] == s),
        MotionStyle::Smear => assert(v@[3] == s),
        MotionStyle::Squash => assert(v@[4] == s),
        MotionStyle::Phosphor => assert(v@[5] == s),
        MotionStyle::Arc => assert(v@[6] == s),
    }
}

} // verus!
