//! Font choice and cell metrics.
//!
//! Faces themselves belong to the system. What is decided here is which family
//! names are tried in which order, whether the system gave the family that was
//! asked for, and what cell a measured face implies.

use vstd::prelude::*;

use crate::text::chars_of;

verus! {

/// Which face a run of text wants.
#[derive(Debug, Clone, Copy, PartialEq, Eq, Hash, Structural)]
pub struct Style {
    pub bold: bool,
    pub italic: bool,
}

impl Style {
    pub fn new(bold: bool, italic: bool) -> (s: Style)
        ensures
            s == (Style { bold, italic }),
    {
        Style { bold, italic }
    }

    /// The upright face of ordinary weight.
    pub fn regular() -> (s: Style)
        ensures
            s == (Style { bold: false, italic: false }),
    {
        Style { bold: false, italic: false }
    }
}

impl Default for Style {
    fn default() -> (s: Style)
        ensures
            s == (Style { bold: false, italic: false }),
    {
        Style::regular()
    }
}

/// The measured cell, in device pixels.
#[derive(Debug, Clone, Copy, PartialEq, Eq, Structural)]
pub struct CellMetrics {
    pub width: u16,
    pub height: u16,
    /// Distance from the top of the cell to the baseline.
    pub baseline: u16,
    pub underline_position: i16,
    pub underline_thickness: u16,
    pub strikethrough_position: i16,
}

/// A fourteenth of the cell height to the nearest pixel, but at least one.
pub open spec fn rule_thickness(height: int) -> int {
    if (height + 7) / 14 < 1 {
        1
    } else {
        (height + 7) / 14
    }
}

impl CellMetrics {
    /// The metrics that a measured cell implies: an underline one thickness
    /// below the baseline but inside the cell.
    pub fn measured(width: u16, height: u16, baseline: u16, strikethrough: i16) -> (m: CellMetrics)
        requires
            1 <= baseline <= height,
        ensures
            m.width == width,
            m.height == height,
            m.baseline == baseline,
            m.underline_thickness == rule_thickness(height as int),
            m.underline_position == (if baseline + rule_thickness(height as int) < height - 1 {
                baseline + rule_thickness(height as int)
            } else {
                height - 1
            }) as i16,
            m.strikethrough_position == strikethrough,
    {
        let seventh: u32 = (height as u32 + 7) / 14;
        let thickness: u16 = if seventh < 1 {
            1
        } else {
            seventh as u16
        };
        let below: i32 = baseline as i32 + thickness as i32;
        let lowest: i32 = height as i32 - 1;
        let position: i32 = if below < lowest {
            below
        } else {
            lowest
        };
        CellMetrics {
            width,
            height,
            baseline,
            underline_position: position as i16,
            underline_thickness: thickness,
            strikethrough_position: strikethrough,
        }
    }
}

/// The families tried after the preferred one, in order. The last of them is
/// always installed.
pub open spec fn stack_names() -> Seq<Seq<char>> {
    seq!["JetBrains Mono"@, "JetBrainsMono NL"@, "SF Mono"@, "Menlo"@]
}

/// The family used where none of the candidates can be had.
pub const LAST_RESORT: &'static str = "Menlo";

/// The colour fallback. It is never a text face.
pub const EMOJI_FALLBACK: &'static str = "Apple Color Emoji";

/// The views of a run of strings.
pub open spec fn names(v: Seq<String>) -> Seq<Seq<char>> {
    v.map_values(|s: String| s@)
}

/// The default stack, in order.
pub fn default_stack() -> (v: Vec<String>)
    ensures
        names(v@) == stack_names(),
{
    let mut v: Vec<String> = Vec::new();
    v.push("JetBrains Mono".to_owned());
    v.push("JetBrainsMono NL".to_owned());
    v.push("SF Mono".to_owned());
    v.push("Menlo".to_owned());
    assert(names(v@) =~= stack_names());
    v
}

/// The families to try: the preferred one, if any is named, then the stack.
pub open spec fn candidate_names(preferred: Seq<char>) -> Seq<Seq<char>> {
    if preferred.len() == 0 {
        stack_names()
    } else {
        seq![preferred] + stack_names()
    }
}

/// The families to try, in order.
pub fn candidates(preferred: &str) -> (v: Vec<String>)
    ensures
        names(v@) == candidate_names(preferred@),
{
    let mut v: Vec<String> = Vec::new();
    if !preferred.is_empty() {
        v.push(preferred.to_owned());
    }
    let ghost first = names(v@);
    let mut rest = default_stack();
    let ghost stack = rest@;
    v.append(&mut rest);
    assert(names(v@) =~= first + names(stack));
    assert(names(v@) =~= candidate_names(preferred@));
    v
}

/// A character with ASCII capitals made small.
pub open spec fn folded_char(c: char) -> char {
    if 'A' <= c <= 'Z' {
        ((c as u32) + 32) as char
    } else {
        c
    }
}

/// A text with ASCII capitals made small.
pub open spec fn folded(s: Seq<char>) -> Seq<char> {
    s.map_values(|c: char| folded_char(c))
}

/// A text without its spaces.
pub open spec fn unspaced(s: Seq<char>) -> Seq<char> {
    s.filter(|c: char| c != ' ')
}

/// Whether the family that the system gave is the one asked for, up to the case
/// of ASCII letters and to spaces. A system substitutes another face rather
/// than failing, so this is how a missing family is noticed.
pub open spec fn same_family(asked: Seq<char>, given: Seq<char>) -> bool {
    folded(given) == folded(asked) || folded(unspaced(given)) == folded(unspaced(asked))
}

fn equal_folded(a: &Vec<char>, b: &Vec<char>) -> (yes: bool)
    ensures
        yes == (folded(a@) == folded(b@)),
{
    if a.len() != b.len() {
        assert(folded(a@).len() != folded(b@).len());
        return false;
    }
    let mut i: usize = 0;
    while i < a.len()
        invariant
            i <= a@.len() == b@.len(),
            forall|j: int| 0 <= j < i ==> folded_char(a@[j]) == folded_char(b@[j]),
        decreases a@.len() - i,
    {
        if fold(a[i]) != fold(b[i]) {
            assert(folded(a@)[i as int] != folded(b@)[i as int]);
            return false;
        }
        i += 1;
    }
    assert(folded(a@) =~= folded(b@));
    true
}

pub(crate) fn fold(c: char) -> (f: char)
    ensures
        f == folded_char(c),
{
    if 'A' <= c && c <= 'Z' {
        (c as u8 + 32) as char
    } else {
        c
    }
}

fn without_spaces(s: &Vec<char>) -> (v: Vec<char>)
    ensures
        v@ == unspaced(s@),
{
    let mut v: Vec<char> = Vec::new();
    let mut i: usize = 0;
    assert(s@.take(0) =~= Seq::empty());
    assert(unspaced(s@.take(0)) =~= Seq::empty()) by {
        reveal(Seq::filter);
    }
    while i < s.len()
        invariant
            i <= s@.len(),
            v@ == unspaced(s@.take(i as int)),
        decreases s@.len() - i,
    {
        assert(s@.take(i + 1).drop_last() =~= s@.take(i as int));
        assert(s@.take(i + 1).last() == s@[i as int]);
        reveal(Seq::filter);
        if s[i] != ' ' {
            v.push(s[i]);
        }
        i += 1;
    }
    assert(s@.take(i as int) =~= s@);
    v
}

/// Whether the family that the system gave is the one asked for.
pub fn family_matches(asked: &str, given: &str) -> (yes: bool)
    ensures
        yes == same_family(asked@, given@),
{
    let a = chars_of(asked);
    let g = chars_of(given);
    if equal_folded(&g, &a) {
        return true;
    }
    equal_folded(&without_spaces(&g), &without_spaces(&a))
}

/// Which of the first `n` candidates resolve, when the system answers each with
/// the family at the same place in `answers`. A name that has resolved already
/// is not asked for again.
pub open spec fn resolved_names(
    wanted: Seq<Seq<char>>,
    answers: Seq<Seq<char>>,
    n: int,
) -> Seq<Seq<char>>
    decreases n,
{
    if n <= 0 {
        Seq::empty()
    } else {
        let sofar = resolved_names(wanted, answers, n - 1);
        let name = wanted[n - 1];
        if !sofar.contains(name) && same_family(name, answers[n - 1]) {
            sofar.push(name)
        } else {
            sofar
        }
    }
}

/// Whether the system may answer a name with that family.
pub open spec fn may_answer<F: Fn(&str) -> String>(
    lookup: F,
    name: Seq<char>,
    family: Seq<char>,
) -> bool {
    exists|s: &str, r: String|
        s@ == name && r@ == family && #[trigger] call_ensures(lookup, (s,), r)
}

/// Whether these names are what the system's answers to the wanted ones leave.
pub open spec fn resolves_to<F: Fn(&str) -> String>(
    lookup: F,
    wanted: Seq<Seq<char>>,
    answers: Seq<Seq<char>>,
    found: Seq<Seq<char>>,
) -> bool {
    &&& answers.len() == wanted.len()
    &&& found == resolved_names(wanted, answers, wanted.len() as int)
    &&& forall|i: int|
        0 <= i < wanted.len() && !resolved_names(wanted, answers, i).contains(wanted[i])
            ==> may_answer(lookup, wanted[i], #[trigger] answers[i])
}

/// The families to use, best first: those candidates that the system has.
/// `lookup` says which family the system gives for a name.
pub fn resolve<F: Fn(&str) -> String>(preferred: &str, lookup: F) -> (found: Vec<String>)
    requires
        forall|s: &str| #[trigger] call_requires(lookup, (s,)),
    ensures
        exists|answers: Seq<Seq<char>>| #[trigger]
            resolves_to(lookup, candidate_names(preferred@), answers, names(found@)),
{
    let wanted = candidates(preferred);
    let ghost w = candidate_names(preferred@);
    let mut found: Vec<String> = Vec::new();
    let ghost mut answers: Seq<Seq<char>> = Seq::empty();
    let mut i: usize = 0;
    assert(names(found@) =~= Seq::empty());
    while i < wanted.len()
        invariant
            i <= wanted@.len(),
            w == names(wanted@),
            w == candidate_names(preferred@),
            answers.len() == i,
            names(found@) == resolved_names(w, answers, i as int),
            forall|s: &str| #[trigger] call_requires(lookup, (s,)),
            forall|k: int|
                0 <= k < i && !resolved_names(w, answers, k).contains(w[k]) ==> may_answer(
                    lookup,
                    w[k],
                    #[trigger] answers[k],
                ),
        decreases wanted@.len() - i,
    {
        let ghost before = answers;
        assert(w[i as int] == wanted@[i as int]@);
        if holds(&found, &wanted[i]) {
            proof {
                answers = before.push(Seq::empty());
            }
        } else {
            let given = lookup(wanted[i].as_str());
            proof {
                answers = before.push(given@);
                assert(may_answer(lookup, w[i as int], answers[i as int]));
            }
            if family_matches(wanted[i].as_str(), given.as_str()) {
                let ghost had = names(found@);
                found.push(wanted[i].clone());
                assert(names(found@) =~= had.push(w[i as int]));
            }
        }
        proof {
            lemma_answers_extend(w, before, answers, i as int);
            assert forall|k: int|
                0 <= k < i + 1 && !resolved_names(w, answers, k).contains(w[k]) implies may_answer(
                lookup,
                w[k],
                #[trigger] answers[k],
            ) by {
                if k < i {
                    lemma_answers_extend(w, before, answers, k);
                    assert(answers[k] == before[k]);
                }
            }
        }
        i += 1;
    }
    assert(resolves_to(lookup, w, answers, names(found@)));
    found
}

/// Later answers do not change what earlier ones resolved.
proof fn lemma_answers_extend(w: Seq<Seq<char>>, a: Seq<Seq<char>>, b: Seq<Seq<char>>, n: int)
    requires
        0 <= n <= a.len() <= b.len(),
        forall|k: int| 0 <= k < a.len() ==> a[k] == b[k],
    ensures
        resolved_names(w, a, n) == resolved_names(w, b, n),
    decreases n,
{
    if n > 0 {
        lemma_answers_extend(w, a, b, n - 1);
    }
}

fn holds(found: &Vec<String>, name: &String) -> (yes: bool)
    ensures
        yes == names(found@).contains(name@),
{
    let mut i: usize = 0;
    while i < found.len()
        invariant
            i <= found@.len(),
            forall|j: int| 0 <= j < i ==> found@[j]@ != name@,
        decreases found@.len() - i,
    {
        if found[i] == *name {
            assert(names(found@)[i as int] == name@);
            return true;
        }
        i += 1;
    }
    false
}

/// The faces of a family, in the order that fonts are counted in: those first,
/// then the fonts that stand in where they lack a character.
pub const FACES: usize = 4;

/// The face for a style.
pub open spec fn face_of(style: Style) -> int {
    (if style.bold {
        1int
    } else {
        0
    }) + (if style.italic {
        2int
    } else {
        0
    })
}

/// The face for a style: regular, bold, italic, both.
pub fn face(style: Style) -> (i: usize)
    ensures
        i == face_of(style),
        i < FACES,
{
    match (style.bold, style.italic) {
        (false, false) => 0,
        (true, false) => 1,
        (false, true) => 2,
        (true, true) => 3,
    }
}

/// The glyph of a character, where the font has it: a lookup that fails, or
/// gives the glyph for missing characters, means that it has not.
pub fn glyph_id(found: bool, glyph: u16) -> (g: Option<u16>)
    ensures
        g == if found && glyph != 0 {
            Some(glyph)
        } else {
            None
        },
{
    if found && glyph != 0 {
        Some(glyph)
    } else {
        None
    }
}

/// The fonts to ask for a character, in that order.
pub open spec fn asked(style: Style, k: int) -> int {
    if k == 0 {
        face_of(style)
    } else {
        FACES + k - 1
    }
}

/// The font that draws a character, with its glyph: the style's face, or the
/// first of the fonts behind it that has one. `glyph` says what a font has.
pub fn glyph_for<F: Fn(usize) -> Option<u16>>(style: Style, fallbacks: usize, glyph: F) -> (r: Option<
    (usize, u16),
>)
    requires
        fallbacks <= usize::MAX - FACES,
        forall|i: usize| #[trigger] call_requires(glyph, (i,)),
    ensures
        match r {
            Some((font, g)) => exists|k: int|
                {
                    &&& 0 <= k <= fallbacks
                    &&& font == #[trigger] asked(style, k)
                    &&& call_ensures(glyph, (font,), Some(g))
                    &&& forall|j: int|
                        0 <= j < k ==> call_ensures(
                            glyph,
                            (#[trigger] asked(style, j) as usize,),
                            None,
                        )
                },
            None => forall|j: int|
                0 <= j <= fallbacks ==> call_ensures(
                    glyph,
                    (#[trigger] asked(style, j) as usize,),
                    None,
                ),
        },
{
    let first: usize = face(style);
    assert(first == asked(style, 0));
    match glyph(first) {
        Some(g) => {
            return Some((first, g));
        },
        None => {},
    }
    let mut i: usize = 0;
    while i < fallbacks
        invariant
            i <= fallbacks,
            fallbacks <= usize::MAX - FACES,
            forall|i: usize| #[trigger] call_requires(glyph, (i,)),
            forall|j: int|
                0 <= j <= i ==> call_ensures(
                    glyph,
                    (#[trigger] asked(style, j) as usize,),
                    None,
                ),
        decreases fallbacks - i,
    {
        let font: usize = FACES + i;
        assert(font == asked(style, i + 1));
        match glyph(font) {
            Some(g) => {
                return Some((font, g));
            },
            None => {},
        }
        i += 1;
    }
    None
}

/// Only the 26 ASCII capitals are made small, each into its own small letter.
pub proof fn law_only_capitals_are_made_small(c: char)
    ensures
        'A' <= c <= 'Z' ==> folded_char(c) as int == c as int + 32,
        !('A' <= c <= 'Z') ==> folded_char(c) == c,
{
}

/// What a measured cell implies: rules a fourteenth of its height thick, to the
/// nearest pixel and at least one, and an underline that far below the baseline,
/// but on the cell's last row at the lowest.
pub proof fn law_measured_cells(
    width: u16,
    height: u16,
    baseline: u16,
    strike: i16,
    m: CellMetrics,
)
    requires
        1 <= baseline <= height <= 32767,
        call_ensures(CellMetrics::measured, (width, height, baseline, strike), m),
    ensures
        m.width == width && m.height == height && m.baseline == baseline,
        m.strikethrough_position == strike,
        m.underline_thickness >= 1,
        height >= 7 ==> -7 <= 14 * m.underline_thickness - height <= 7,
        height < 21 ==> m.underline_thickness == 1,
        baseline + m.underline_thickness <= height - 1 ==> m.underline_position == baseline
            + m.underline_thickness,
        baseline + m.underline_thickness > height - 1 ==> m.underline_position == height - 1,
{
}

/// The preferred family is tried first, where one is named, and then four others
/// in their order.
pub proof fn law_families_are_tried_in_order(preferred: &str, v: Vec<String>)
    requires
        call_ensures(candidates, (preferred,), v),
    ensures
        preferred@.len() > 0 ==> v@.len() == 5 && v@[0]@ == preferred@ && v@[1]@
            == "JetBrains Mono"@ && v@[2]@ == "JetBrainsMono NL"@ && v@[3]@ == "SF Mono"@ && v@[4]@
            == "Menlo"@,
        preferred@.len() == 0 ==> v@.len() == 4 && v@[0]@ == "JetBrains Mono"@ && v@[1]@
            == "JetBrainsMono NL"@ && v@[2]@ == "SF Mono"@ && v@[3]@ == "Menlo"@,
{
    let all = names(v@);
    assert(all.len() == v@.len());
    if preferred@.len() > 0 {
        assert(all[0] == v@[0]@ && all[1] == v@[1]@ && all[2] == v@[2]@ && all[3] == v@[3]@ && all[4]
            == v@[4]@);
    } else {
        assert(all[0] == v@[0]@ && all[1] == v@[1]@ && all[2] == v@[2]@ && all[3] == v@[3]@);
    }
}

proof fn lemma_unspaced_push(s: Seq<char>, c: char)
    ensures
        unspaced(s.push(c)) == if c == ' ' {
            unspaced(s)
        } else {
            unspaced(s).push(c)
        },
{
    reveal(Seq::filter);
    assert(s.push(c).drop_last() =~= s);
}

proof fn lemma_unspaced_append(a: Seq<char>, b: Seq<char>)
    ensures
        unspaced(a + b) == unspaced(a) + unspaced(b),
    decreases b.len(),
{
    if b.len() == 0 {
        reveal(Seq::filter);
        assert(a + b =~= a);
        assert(unspaced(b) =~= Seq::empty());
    } else {
        let rest = b.drop_last();
        lemma_unspaced_append(a, rest);
        assert(a + b =~= (a + rest).push(b.last()));
        assert(b =~= rest.push(b.last()));
        lemma_unspaced_push(a + rest, b.last());
        lemma_unspaced_push(rest, b.last());
        assert(unspaced(a + b) =~= unspaced(a) + unspaced(b));
    }
}

/// A family is itself with its letters in another case, and with a space more or
/// less, but not with another letter more.
pub proof fn law_case_and_spaces_do_not_matter(
    a: Seq<char>,
    b: Seq<char>,
    other: Seq<char>,
    c: char,
)
    ensures
        same_family(a, a),
        same_family(a + b, a.push(' ') + b),
        same_family(a.push(' ') + b, a + b),
        other.len() == a.len() && (forall|i: int|
            0 <= i < a.len() ==> other[i] == a[i] || ('A' <= a[i] <= 'Z' && other[i] as int == a[i]
                as int + 32) || ('A' <= #[trigger] other[i] <= 'Z' && a[i] as int == other[i] as int
                + 32)) ==> same_family(a, other),
        c != ' ' ==> !same_family(a, a.push(c)) && !same_family(a.push(c), a),
{
    lemma_unspaced_push(a, ' ');
    lemma_unspaced_append(a, b);
    lemma_unspaced_append(a.push(' '), b);
    if other.len() == a.len() && (forall|i: int|
        0 <= i < a.len() ==> other[i] == a[i] || ('A' <= a[i] <= 'Z' && other[i] as int == a[i]
            as int + 32) || ('A' <= #[trigger] other[i] <= 'Z' && a[i] as int == other[i] as int
            + 32)) {
        assert(folded(other) =~= folded(a));
    }
    if c != ' ' {
        lemma_unspaced_push(a, c);
        assert(folded(a.push(c)).len() == folded(a).len() + 1);
        assert(folded(unspaced(a.push(c))).len() == folded(unspaced(a)).len() + 1);
    }
}

/// Whatever is resolved was wanted and given by the system under its own name,
/// nothing twice, in the order in which it was wanted; and nothing that was given
/// so is left out.
pub proof fn law_what_the_system_has_is_resolved(
    wanted: Seq<Seq<char>>,
    answers: Seq<Seq<char>>,
    n: int,
    k: int,
)
    requires
        0 <= n <= wanted.len(),
        answers.len() == wanted.len(),
    ensures
        ({
            let found = resolved_names(wanted, answers, n);
            &&& found.len() <= n
            &&& 0 <= k < n && same_family(wanted[k], answers[k]) ==> found.contains(wanted[k])
            &&& 0 <= k < found.len() ==> exists|i: int|
                0 <= i < n && #[trigger] wanted[i] == found[k] && same_family(wanted[i], answers[i])
            &&& forall|i: int, j: int| 0 <= i < j < found.len() ==> found[i] != found[j]
            &&& n > 0 ==> resolved_names(wanted, answers, n - 1).is_prefix_of(found)
        }),
    decreases n,
{
    let found = resolved_names(wanted, answers, n);
    if n > 0 {
        let before = resolved_names(wanted, answers, n - 1);
        law_what_the_system_has_is_resolved(wanted, answers, n - 1, k);
        assert(before =~= found.take(before.len() as int));
        if found.len() > before.len() {
            assert(found.last() == wanted[n - 1]);
            assert(found[before.len() as int] == wanted[n - 1]);
            assert forall|i: int, j: int| 0 <= i < j < found.len() implies found[i] != found[j] by {
                assert(before[i] == found[i]);
                assert(before.contains(before[i]));
                if j < before.len() {
                    assert(before[j] == found[j]);
                }
            }
            if 0 <= k < n && same_family(wanted[k], answers[k]) && k < n - 1 {
                let i = choose|i: int| 0 <= i < before.len() && before[i] == wanted[k];
                assert(found[i] == wanted[k]);
            }
        }
        if 0 <= k < found.len() {
            if k < before.len() {
                assert(before[k] == found[k]);
            } else {
                assert(wanted[n - 1] == found[k]);
            }
        }
    }
}

/// A character is asked of the style's own face first, and then of the fonts
/// behind the four faces in their order. The glyph for missing characters is
/// none.
pub proof fn law_faces_and_glyphs(
    style: Style,
    face_index: usize,
    k: int,
    found: bool,
    glyph: u16,
    g: Option<u16>,
)
    requires
        call_ensures(face, (style,), face_index),
        call_ensures(glyph_id, (found, glyph), g),
    ensures
        !style.bold && !style.italic ==> face_index == 0,
        style.bold && !style.italic ==> face_index == 1,
        !style.bold && style.italic ==> face_index == 2,
        style.bold && style.italic ==> face_index == 3,
        asked(style, 0) == face_index,
        k >= 1 ==> asked(style, k) == 3 + k,
        found && glyph > 0 ==> g == Some(glyph),
        !found || glyph == 0 ==> g is None,
{
}

} // verus!
