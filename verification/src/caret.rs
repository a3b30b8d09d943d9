//! What the caret does next.
//!
//! Where the caret is, and how fast, are fractions that its owner keeps. What
//! follows from them is decided here: how it gets to a cell, when it has
//! arrived, what it leaves behind, and where it is in its blink. Every motion
//! but the blink comes to an end.

use vstd::prelude::*;

use crate::motion::{MotionSettings, MotionStyle};

verus! {

/// How many samples of the caret's wake are kept.
pub const MAX_TRAIL: usize = 24;

/// The style that applies.
pub open spec fn style_of(m: MotionSettings) -> MotionStyle {
    if m.reduce {
        MotionStyle::Snap
    } else {
        m.style
    }
}

/// Whether the caret leaves a wake.
pub open spec fn leaves_wake(m: MotionSettings) -> bool {
    m.decay && !(style_of(m) is Snap)
}

/// Whether the caret leaves a wake.
pub fn has_wake(motion: &MotionSettings) -> (yes: bool)
    ensures
        yes == leaves_wake(*motion),
{
    motion.decay && motion.effective_style().trail_life() > 0
}

/// What a new cell to go to means.
#[derive(Debug, Clone, Copy, PartialEq, Eq, Structural)]
pub enum Retarget {
    /// It is the cell that the caret goes to already.
    Stay,
    /// The caret is there at once, and fades in where motion is reduced. Its
    /// wake is gone.
    Jump { fades: bool },
    /// The caret sets out from where it is, with the velocity that it has.
    Fly,
}

/// What a new cell to go to means.
pub open spec fn retarget_of(same: bool, m: MotionSettings) -> Retarget {
    if same {
        Retarget::Stay
    } else if style_of(m) is Snap {
        Retarget::Jump { fades: m.reduce }
    } else {
        Retarget::Fly
    }
}

/// What a new cell to go to means. `same` says whether it is the one that the
/// caret goes to already.
pub fn retarget(same: bool, motion: &MotionSettings) -> (r: Retarget)
    ensures
        r == retarget_of(same, *motion),
{
    if same {
        Retarget::Stay
    } else if motion.effective_style().interpolates() {
        Retarget::Fly
    } else {
        Retarget::Jump { fades: motion.reduce }
    }
}

/// How the caret moves in one step.
#[derive(Debug, Clone, Copy, PartialEq, Eq, Structural)]
pub enum Step {
    /// It is at its cell at once.
    Arrive,
    /// It is there already, and still.
    Rest,
    /// It comes closer by a part of what is left.
    Ease,
    /// It is drawn by a spring.
    Spring,
    /// It comes closer, and its way is bent.
    Arc,
}

/// How the caret moves in one step.
pub open spec fn step_of(m: MotionSettings, at_cell: bool, still: bool) -> Step {
    match style_of(m) {
        MotionStyle::Snap => Step::Arrive,
        _ => if at_cell && still {
            Step::Rest
        } else {
            match style_of(m) {
                MotionStyle::Spring => Step::Spring,
                MotionStyle::Arc => Step::Arc,
                _ => Step::Ease,
            }
        },
    }
}

/// How the caret moves in one step: `at_cell` says whether it is at its cell,
/// `still` whether it has no velocity.
pub fn step(motion: &MotionSettings, at_cell: bool, still: bool) -> (s: Step)
    ensures
        s == step_of(*motion, at_cell, still),
{
    match motion.effective_style() {
        MotionStyle::Snap => Step::Arrive,
        style => if at_cell && still {
            Step::Rest
        } else {
            match style {
                MotionStyle::Spring => Step::Spring,
                MotionStyle::Arc => Step::Arc,
                _ => Step::Ease,
            }
        },
    }
}

/// What follows a step.
#[derive(Debug, Clone, Copy, PartialEq, Eq, Structural)]
pub enum Landing {
    /// The caret has arrived. It is put onto its cell, or it would chase it for
    /// ever.
    Land,
    /// A sample of the wake is due.
    Sample,
    /// The way counts toward the next sample.
    Count,
    /// Nothing: there is no wake.
    Go,
}

/// What follows a step.
pub open spec fn landing_of(m: MotionSettings, near: bool, slow: bool, spaced: bool) -> Landing {
    if near && slow {
        Landing::Land
    } else if !leaves_wake(m) {
        Landing::Go
    } else if spaced {
        Landing::Sample
    } else {
        Landing::Count
    }
}

/// What follows a step that left the caret `near` its cell or not, and `slow` or
/// not. `spaced` says whether it is far enough from the last sample for another.
pub fn landing(motion: &MotionSettings, near: bool, slow: bool, spaced: bool) -> (l: Landing)
    ensures
        l == landing_of(*motion, near, slow, spaced),
{
    if near && slow {
        Landing::Land
    } else if !has_wake(motion) {
        Landing::Go
    } else if spaced {
        Landing::Sample
    } else {
        Landing::Count
    }
}

/// What one step does to the blink.
#[derive(Debug, Clone, Copy, PartialEq, Eq, Structural)]
pub enum BlinkStep {
    /// The caret moves: it is held solid, and the blink starts over.
    Hold,
    /// The hold runs out.
    CountDown,
    /// The caret does not blink.
    Solid,
    Advance,
}

/// What one step does to the blink. A caret on its way does not blink, nor does
/// one that has just arrived.
pub fn blink_step(motion: &MotionSettings, at_cell: bool, held: bool) -> (b: BlinkStep)
    ensures
        b == if !at_cell {
            BlinkStep::Hold
        } else if held {
            BlinkStep::CountDown
        } else if motion.blink {
            BlinkStep::Advance
        } else {
            BlinkStep::Solid
        },
{
    if !at_cell {
        BlinkStep::Hold
    } else if held {
        BlinkStep::CountDown
    } else if motion.blink {
        BlinkStep::Advance
    } else {
        BlinkStep::Solid
    }
}

/// Where in its blink the caret is.
#[derive(Debug, Clone, Copy, PartialEq, Eq, Structural)]
pub enum BlinkPart {
    Shown,
    FadingOut,
    Hidden,
    FadingIn,
}

/// Which bounds of a cycle the phase of a blink lies before: the start of the
/// first ramp, the half, and the start of the second ramp.
#[derive(Debug, Clone, Copy, PartialEq, Eq, Structural)]
pub struct Phase {
    pub before_ramp: bool,
    pub before_half: bool,
    pub before_return: bool,
}

/// Where in its blink the caret is. A style without motion cuts where the others
/// ramp.
pub open spec fn blink_part_of(m: MotionSettings, held: bool, phase: Phase) -> BlinkPart {
    if !m.blink || held {
        BlinkPart::Shown
    } else if style_of(m) is Snap {
        if phase.before_half {
            BlinkPart::Shown
        } else {
            BlinkPart::Hidden
        }
    } else if phase.before_ramp {
        BlinkPart::Shown
    } else if phase.before_half {
        BlinkPart::FadingOut
    } else if phase.before_return {
        BlinkPart::Hidden
    } else {
        BlinkPart::FadingIn
    }
}

pub fn blink_part(motion: &MotionSettings, held: bool, phase: Phase) -> (b: BlinkPart)
    ensures
        b == blink_part_of(*motion, held, phase),
{
    if !motion.blink || held {
        BlinkPart::Shown
    } else if !motion.effective_style().interpolates() {
        if phase.before_half {
            BlinkPart::Shown
        } else {
            BlinkPart::Hidden
        }
    } else if phase.before_ramp {
        BlinkPart::Shown
    } else if phase.before_half {
        BlinkPart::FadingOut
    } else if phase.before_return {
        BlinkPart::Hidden
    } else {
        BlinkPart::FadingIn
    }
}

/// How the caret is distorted by its speed.
#[derive(Debug, Clone, Copy, PartialEq, Eq, Structural)]
pub enum Distortion {
    Plain,
    /// Its edges are soft.
    Smear,
    /// Its edges are a little soft.
    Glow,
    /// It is stretched along its way and thinner across.
    Squash,
}

/// How the caret is distorted by its speed.
pub fn distortion(motion: &MotionSettings) -> (d: Distortion)
    ensures
        d == match style_of(*motion) {
            MotionStyle::Smear => Distortion::Smear,
            MotionStyle::Phosphor => Distortion::Glow,
            MotionStyle::Squash => Distortion::Squash,
            _ => Distortion::Plain,
        },
{
    match motion.effective_style() {
        MotionStyle::Smear => Distortion::Smear,
        MotionStyle::Phosphor => Distortion::Glow,
        MotionStyle::Squash => Distortion::Squash,
        _ => Distortion::Plain,
    }
}

/// Whether another frame is wanted: while the caret moves, while its wake lasts,
/// while it fades in, and for as long as it blinks.
pub open spec fn animates(m: MotionSettings, at_cell: bool, wake: nat, fading: bool) -> bool {
    !at_cell || wake > 0 || fading || m.blink
}

/// Whether another frame is wanted.
pub fn is_animating(motion: &MotionSettings, at_cell: bool, wake: usize, fading: bool) -> (yes: bool)
    ensures
        yes == animates(*motion, at_cell, wake as nat, fading),
{
    !at_cell || wake > 0 || fading || motion.blink
}

/// The caret's wake: samples, the oldest first.
#[derive(Debug, Clone)]
pub struct Trail<T> {
    samples: Vec<T>,
}

/// How many samples at the start of a wake are gone, as far as the answers go.
pub open spec fn leading(gone: Seq<bool>) -> int
    decreases gone.len(),
{
    if gone.len() == 0 || !gone[0] {
        0
    } else {
        1 + leading(gone.skip(1))
    }
}

proof fn lemma_leading(gone: Seq<bool>, n: int)
    requires
        0 <= n <= gone.len(),
        forall|i: int| 0 <= i < n ==> #[trigger] gone[i],
        n < gone.len() ==> !gone[n],
    ensures
        leading(gone) == n,
    decreases gone.len(),
{
    if n > 0 {
        assert(gone[0]);
        assert forall|i: int| 0 <= i < n - 1 implies #[trigger] gone.skip(1)[i] by {
            assert(gone[i + 1]);
        }
        lemma_leading(gone.skip(1), n - 1);
    }
}

impl<T> View for Trail<T> {
    type V = Seq<T>;

    closed spec fn view(&self) -> Seq<T> {
        self.samples@
    }
}

/// A wake with one more sample. It never grows past its bound: the oldest sample
/// makes room.
pub open spec fn with_sample<T>(wake: Seq<T>, sample: T) -> Seq<T> {
    if wake.len() >= MAX_TRAIL {
        wake.skip(1).push(sample)
    } else {
        wake.push(sample)
    }
}

impl<T> Trail<T> {
    pub fn new() -> (t: Trail<T>)
        ensures
            t@ == Seq::<T>::empty(),
    {
        Trail { samples: Vec::new() }
    }

    pub fn len(&self) -> (n: usize)
        ensures
            n == self@.len(),
    {
        self.samples.len()
    }

    pub fn is_empty(&self) -> (yes: bool)
        ensures
            yes == (self@.len() == 0),
    {
        self.samples.len() == 0
    }

    /// The samples, the oldest first.
    pub fn samples(&self) -> (s: &[T])
        ensures
            s@ == self@,
    {
        self.samples.as_slice()
    }

    pub fn clear(&mut self)
        ensures
            final(self)@ == Seq::<T>::empty(),
    {
        self.samples.clear();
    }

    /// Leaves a sample behind.
    pub fn emit(&mut self, sample: T)
        ensures
            final(self)@ == with_sample(old(self)@, sample),
    {
        if self.samples.len() >= MAX_TRAIL {
            self.samples.remove(0);
            assert(self.samples@ =~= old(self)@.skip(1));
        }
        self.samples.push(sample);
    }

    /// Replaces every sample by what `age` makes of it, and forgets those at the
    /// start that are `gone`.
    pub fn advance<A: Fn(&T) -> T, G: Fn(&T) -> bool>(&mut self, age: A, gone: G)
        requires
            forall|s: &T| #[trigger] call_requires(age, (s,)),
            forall|s: &T| #[trigger] call_requires(gone, (s,)),
        ensures
            exists|aged: Seq<T>, answers: Seq<bool>| #[trigger]
                grew_old(age, gone, old(self)@, aged, answers) && final(self)@ == aged.skip(
                    leading(answers),
                ),
    {
        let n: usize = self.samples.len();
        let ghost young = self.samples@;
        let mut aged: Vec<T> = Vec::new();
        let mut i: usize = 0;
        while i < n
            invariant
                i <= n == young.len(),
                self.samples@ == young,
                aged@.len() == i,
                forall|s: &T| #[trigger] call_requires(age, (s,)),
                forall|k: int| 0 <= k < i ==> call_ensures(age, (&young[k],), #[trigger] aged@[k]),
            decreases n - i,
        {
            let older = age(&self.samples[i]);
            aged.push(older);
            i += 1;
        }
        let ghost all = aged@;
        let ghost mut answers: Seq<bool> = Seq::empty();
        let mut first: usize = 0;
        let mut open = true;
        while first < n && open
            invariant
                first <= n == aged@.len(),
                aged@ == all,
                answers.len() == if open {
                    first as int
                } else {
                    first + 1
                },
                !open ==> first < n,
                forall|k: int| 0 <= k < first ==> #[trigger] answers[k],
                !open ==> !answers[first as int],
                forall|s: &T| #[trigger] call_requires(gone, (s,)),
                forall|k: int|
                    0 <= k < answers.len() ==> call_ensures(gone, (&all[k],), #[trigger] answers[k]),
            decreases
                n - first,
                if open {
                    1int
                } else {
                    0
                },
        {
            let yes = gone(&aged[first]);
            proof {
                answers = answers.push(yes);
            }
            if yes {
                first += 1;
            } else {
                open = false;
            }
        }
        proof {
            lemma_leading(answers, first as int);
        }
        let rest = aged.split_off(first);
        self.samples = rest;
        assert(self.samples@ =~= all.skip(first as int));
        assert(grew_old(age, gone, old(self)@, all, answers));
    }
}

/// Whether samples grew old: each by `age`, and asked in turn whether it is gone,
/// up to the first that is not.
pub open spec fn grew_old<T, A: Fn(&T) -> T, G: Fn(&T) -> bool>(
    age: A,
    gone: G,
    young: Seq<T>,
    aged: Seq<T>,
    answers: Seq<bool>,
) -> bool {
    &&& aged.len() == young.len()
    &&& forall|k: int| 0 <= k < aged.len() ==> call_ensures(age, (&young[k],), #[trigger] aged[k])
    &&& answers.len() <= aged.len()
    &&& forall|k: int|
        0 <= k < answers.len() ==> call_ensures(gone, (&aged[k],), #[trigger] answers[k])
    &&& answers.len() < aged.len() ==> answers.len() > 0 && !answers.last()
}

/// A wake within its bound stays within it.
pub proof fn law_the_wake_is_bounded<T>(wake: Seq<T>, sample: T)
    requires
        wake.len() <= MAX_TRAIL,
    ensures
        0 < with_sample(wake, sample).len() <= MAX_TRAIL,
        with_sample(wake, sample).last() == sample,
{
}

/// Reduced motion leaves nothing that moves: the caret is at its cell at once,
/// fading in, without a wake.
pub proof fn law_reduced_motion_does_not_move(m: MotionSettings, at_cell: bool, still: bool)
    requires
        m.reduce,
    ensures
        retarget_of(false, m) == (Retarget::Jump { fades: true }),
        step_of(m, at_cell, still) == Step::Arrive,
        !leaves_wake(m),
{
}

/// A caret that has landed asks for no frame once its wake and its fade are
/// over, unless it blinks.
pub proof fn law_motion_ends(m: MotionSettings)
    ensures
        animates(m, true, 0, false) == m.blink,
        step_of(m, true, true) == Step::Rest || step_of(m, true, true) == Step::Arrive,
        landing_of(m, true, true, true) == Landing::Land,
{
}

/// A caret that does not blink is never hidden, and one that was just moved is
/// not either.
pub proof fn law_an_active_caret_is_shown(m: MotionSettings, held: bool, phase: Phase)
    requires
        !m.blink || held,
    ensures
        blink_part_of(m, held, phase) == BlinkPart::Shown,
{
}

/// Where the caret goes nowhere new it stays; else it jumps where its style or
/// reduced motion says so, and flies otherwise. Only reduced motion fades it in.
pub proof fn law_how_the_caret_sets_out(same: bool, m: MotionSettings, r: Retarget)
    requires
        call_ensures(retarget, (same, &m), r),
    ensures
        same ==> r is Stay,
        !same && m.reduce ==> r == (Retarget::Jump { fades: true }),
        !same && !m.reduce && m.style is Snap ==> r == (Retarget::Jump { fades: false }),
        !same && !m.reduce && !(m.style is Snap) ==> r is Fly,
{
}

/// Each style moves in its own way, and all rest once the caret is there.
pub proof fn law_how_the_caret_moves(m: MotionSettings, at_cell: bool, still: bool, s: Step)
    requires
        call_ensures(step, (&m, at_cell, still), s),
    ensures
        m.reduce || m.style is Snap <==> s is Arrive,
        !m.reduce && !(m.style is Snap) && at_cell && still <==> s is Rest,
        !m.reduce && m.style is Spring && !(at_cell && still) <==> s is Spring,
        !m.reduce && m.style is Arc && !(at_cell && still) <==> s is Arc,
        !m.reduce && !(at_cell && still) && (m.style is Ease || m.style is Smear || m.style
            is Squash || m.style is Phosphor) <==> s is Ease,
{
}

/// The caret lands once it is both near and slow. Until then it leaves a sample
/// where it has a wake and is far enough from the last.
pub proof fn law_how_the_caret_lands(
    m: MotionSettings,
    near: bool,
    slow: bool,
    spaced: bool,
    l: Landing,
    wake: bool,
)
    requires
        call_ensures(landing, (&m, near, slow, spaced), l),
        call_ensures(has_wake, (&m,), wake),
    ensures
        wake <==> m.decay && !m.reduce && !(m.style is Snap),
        l is Land <==> near && slow,
        l is Sample <==> !(near && slow) && wake && spaced,
        l is Count <==> !(near && slow) && wake && !spaced,
        l is Go <==> !(near && slow) && !wake,
{
}

/// A moving caret is held solid, one that has just arrived a while longer, and
/// only then does it blink, if it does.
pub proof fn law_when_the_caret_blinks(
    m: MotionSettings,
    at_cell: bool,
    held: bool,
    phase: Phase,
    b: BlinkStep,
    p: BlinkPart,
)
    requires
        call_ensures(blink_step, (&m, at_cell, held), b),
        call_ensures(blink_part, (&m, held, phase), p),
    ensures
        b is Hold <==> !at_cell,
        b is CountDown <==> at_cell && held,
        b is Advance <==> at_cell && !held && m.blink,
        b is Solid <==> at_cell && !held && !m.blink,
        held || !m.blink ==> p is Shown,
        m.blink && !held && (m.reduce || m.style is Snap) ==> (p is Shown <==> phase.before_half)
            && (p is Hidden <==> !phase.before_half),
        m.blink && !held && !m.reduce && !(m.style is Snap) ==> {
            &&& phase.before_ramp ==> p is Shown
            &&& !phase.before_ramp && phase.before_half ==> p is FadingOut
            &&& !phase.before_ramp && !phase.before_half && phase.before_return ==> p is Hidden
            &&& !phase.before_ramp && !phase.before_half && !phase.before_return ==> p is FadingIn
        },
{
}

/// Three styles distort the caret, each in its own way, unless motion is
/// reduced; and frames go on while anything about the caret still moves.
pub proof fn law_what_the_caret_looks_like(
    m: MotionSettings,
    d: Distortion,
    at_cell: bool,
    wake: usize,
    fading: bool,
    yes: bool,
)
    requires
        call_ensures(distortion, (&m,), d),
        call_ensures(is_animating, (&m, at_cell, wake, fading), yes),
    ensures
        d is Smear <==> !m.reduce && m.style is Smear,
        d is Glow <==> !m.reduce && m.style is Phosphor,
        d is Squash <==> !m.reduce && m.style is Squash,
        yes <==> !at_cell || wake > 0 || fading || m.blink,
{
}

/// The wake holds the last twenty-four samples, in order, and what is gone leaves
/// from its old end.
pub proof fn law_the_oldest_sample_makes_room<T>(wake: Seq<T>, sample: T, k: int, gone: Seq<bool>)
    requires
        wake.len() <= 24,
    ensures
        with_sample(wake, sample).last() == sample,
        wake.len() < 24 ==> with_sample(wake, sample).len() == wake.len() + 1,
        wake.len() < 24 && 0 <= k < wake.len() ==> with_sample(wake, sample)[k] == wake[k],
        wake.len() == 24 ==> with_sample(wake, sample).len() == 24,
        wake.len() == 24 && 1 <= k < wake.len() ==> with_sample(wake, sample)[k - 1] == wake[k],
        0 <= leading(gone) <= gone.len(),
        0 <= k < leading(gone) ==> gone[k],
        leading(gone) < gone.len() ==> !gone[leading(gone)],
{
    lemma_leading_is_first(gone, k);
}

proof fn lemma_leading_is_first(gone: Seq<bool>, k: int)
    ensures
        0 <= leading(gone) <= gone.len(),
        0 <= k < leading(gone) ==> gone[k],
        leading(gone) < gone.len() ==> !gone[leading(gone)],
    decreases gone.len(),
{
    if gone.len() > 0 && gone[0] {
        lemma_leading_is_first(gone.skip(1), k - 1);
        if leading(gone.skip(1)) < gone.skip(1).len() {
            assert(gone.skip(1)[leading(gone.skip(1))] == gone[leading(gone)]);
        }
        if 0 <= k - 1 < leading(gone.skip(1)) {
            assert(gone.skip(1)[k - 1] == gone[k]);
        }
    }
}

} // verus!
