//! What a frame draws, and in which order.
//!
//! The passes run in one order, and one that has nothing to draw is left out.
//! The substrate owns every pixel and is always there.

use vstd::prelude::*;

use crate::atlas::{upload_views, Atlas, AtlasView, UploadView};
use crate::context::{
    with_upload, GpuContext, GpuError, GpuView, PageTexture, Pipeline, LEAST_PAGE, NO_GENERATION,
};
use crate::frame::{
    decision, idle_scheduler, polled, requested, Decision, FrameScheduler, FrameStats, Reason,
    SchedulerView,
};
use crate::grid::InstanceBuffers;
use crate::raster::PixelFormat;

verus! {

/// How many frames may be on their way at once.
pub const FRAMES_IN_FLIGHT: u32 = 2;

/// Draws frames.
#[derive(Debug)]
pub struct Renderer {
    context: GpuContext,
    scheduler: FrameScheduler,
    buffers: InstanceBuffers,
}

/// One pass of a frame.
#[derive(Debug, Clone, Copy, PartialEq, Eq, Structural)]
pub struct Pass {
    pub pipeline: Pipeline,
    pub instances: usize,
}

/// One pass, if it has anything to draw.
pub open spec fn pass_for(pipeline: Pipeline, instances: nat) -> Seq<Pass> {
    if instances == 0 {
        Seq::empty()
    } else {
        seq![Pass { pipeline, instances: instances as usize }]
    }
}

/// The passes under the text. The caret and the trail behind it are among them:
/// over the text, they would wipe out every glyph that they move across.
pub open spec fn passes_under(b: InstanceBuffers, decays: nat, shapes: nat) -> Seq<Pass> {
    pass_for(Pipeline::Substrate, 1) + pass_for(Pipeline::CellBg, b.backgrounds@.len()) + pass_for(
        Pipeline::Decay,
        decays,
    ) + pass_for(Pipeline::Shape, shapes)
}

/// The passes from the text on.
pub open spec fn passes_over(b: InstanceBuffers) -> Seq<Pass> {
    pass_for(Pipeline::Cell, b.glyphs@.len()) + pass_for(Pipeline::CellRule, b.rules@.len())
        + pass_for(Pipeline::BlockGutter, b.gutters@.len()) + pass_for(
        Pipeline::Quad,
        b.quads@.len(),
    ) + pass_for(Pipeline::UiText, b.ui_text@.len())
}

/// The passes of a frame.
pub open spec fn passes_of(b: InstanceBuffers, decays: nat, shapes: nat) -> Seq<Pass> {
    passes_under(b, decays, shapes) + passes_over(b)
}

fn push_pass(passes: &mut Vec<Pass>, pipeline: Pipeline, instances: usize)
    ensures
        final(passes)@ == old(passes)@ + pass_for(pipeline, instances as nat),
{
    if instances > 0 {
        passes.push(Pass { pipeline, instances });
    }
    assert(passes@ =~= old(passes)@ + pass_for(pipeline, instances as nat));
}

/// The passes of a frame with that many caret shapes and samples of its trail.
pub fn passes(buffers: &InstanceBuffers, decays: usize, shapes: usize) -> (v: Vec<Pass>)
    ensures
        v@ == passes_of(*buffers, decays as nat, shapes as nat),
{
    let mut v: Vec<Pass> = Vec::new();
    push_pass(&mut v, Pipeline::Substrate, 1);
    push_pass(&mut v, Pipeline::CellBg, buffers.backgrounds.len());
    push_pass(&mut v, Pipeline::Decay, decays);
    push_pass(&mut v, Pipeline::Shape, shapes);
    assert(v@ =~= passes_under(*buffers, decays as nat, shapes as nat));
    let ghost under = v@;
    push_pass(&mut v, Pipeline::Cell, buffers.glyphs.len());
    push_pass(&mut v, Pipeline::CellRule, buffers.rules.len());
    push_pass(&mut v, Pipeline::BlockGutter, buffers.gutters.len());
    push_pass(&mut v, Pipeline::Quad, buffers.quads.len());
    push_pass(&mut v, Pipeline::UiText, buffers.ui_text.len());
    assert(v@ =~= under + passes_over(*buffers));
    v
}

/// A frame always paints the substrate, first, and a frame with nothing to draw
/// is that pass alone.
pub proof fn law_the_substrate_is_always_painted(b: InstanceBuffers, decays: nat, shapes: nat)
    ensures
        passes_of(b, decays, shapes).len() > 0,
        passes_of(b, decays, shapes)[0] == (Pass { pipeline: Pipeline::Substrate, instances: 1 }),
        b.nothing() && decays == 0 && shapes == 0 ==> passes_of(b, decays, shapes).len() == 1,
{
}

/// Where the text is drawn, the caret was drawn before it.
pub proof fn law_the_caret_goes_under_the_text(
    b: InstanceBuffers,
    decays: nat,
    shapes: nat,
    i: int,
    j: int,
)
    requires
        0 <= i < passes_of(b, decays, shapes).len(),
        0 <= j < passes_of(b, decays, shapes).len(),
        passes_of(b, decays, shapes)[i].pipeline is Shape || passes_of(
            b,
            decays,
            shapes,
        )[i].pipeline is Decay,
        passes_of(b, decays, shapes)[j].pipeline is Cell,
    ensures
        i < j,
{
    let under = passes_under(b, decays, shapes);
    let all = passes_of(b, decays, shapes);
    if i >= under.len() {
        assert(all[i] == passes_over(b)[i - under.len()]);
    }
    if j < under.len() {
        assert(all[j] == under[j]);
    }
}

/// The first page of a format.
pub open spec fn first_of(pages: Seq<PageTexture>, format: PixelFormat, from: int) -> Option<int>
    decreases pages.len() - from,
{
    if from < 0 || from >= pages.len() {
        None
    } else if pages[from].format == format {
        Some(from)
    } else {
        first_of(pages, format, from + 1)
    }
}

fn find_page(pages: &[PageTexture], format: PixelFormat) -> (at: Option<usize>)
    ensures
        match at {
            Some(i) => first_of(pages@, format, 0) == Some(i as int),
            None => first_of(pages@, format, 0) is None,
        },
{
    let n: usize = pages.len();
    let mut i: usize = 0;
    while i < n
        invariant
            i <= n == pages@.len(),
            first_of(pages@, format, 0) == first_of(pages@, format, i as int),
        decreases n - i,
    {
        if pages[i].format == format {
            return Some(i);
        }
        i += 1;
    }
    None
}

/// The pages that the glyph passes sample, masks and colours. Where there is no
/// page of one kind, the other stands in: something has to be bound.
pub open spec fn sampled(pages: Seq<PageTexture>) -> (Option<int>, Option<int>) {
    let mask = first_of(pages, PixelFormat::Alpha8, 0);
    let color = first_of(pages, PixelFormat::Bgra8, 0);
    (
        if mask is Some {
            mask
        } else {
            color
        },
        if color is Some {
            color
        } else {
            mask
        },
    )
}

/// An index as a number.
pub open spec fn index_view(i: Option<usize>) -> Option<int> {
    match i {
        Some(n) => Some(n as int),
        None => None,
    }
}

/// The GPU once it was handed the first `n` glyphs, up to one without data.
pub open spec fn with_uploads(v: GpuView, uploads: Seq<UploadView>, n: int) -> GpuView
    decreases n,
{
    if n <= 0 {
        v
    } else {
        with_upload(with_uploads(v, uploads, n - 1), uploads[n - 1])
    }
}

/// How many glyphs are handed on: all, or those up to the first without data.
pub open spec fn handed_on(uploads: Seq<UploadView>, from: int) -> int
    decreases uploads.len() - from,
{
    if from < 0 || from >= uploads.len() {
        from
    } else if uploads[from].data.len() == 0 {
        from + 1
    } else {
        handed_on(uploads, from + 1)
    }
}

/// Whether some glyph has no data.
pub open spec fn some_empty(uploads: Seq<UploadView>) -> bool {
    exists|i: int| 0 <= i < uploads.len() && (#[trigger] uploads[i]).data.len() == 0
}

/// The GPU as an atlas of another generation leaves it.
pub open spec fn after_generation(v: GpuView, a: AtlasView) -> GpuView {
    if a.generation != v.generation {
        GpuView { pages: Seq::empty(), generation: a.generation, ..v }
    } else {
        v
    }
}

/// The scheduler once the renderer followed an atlas. A failure leaves out the
/// last request.
pub open spec fn after_atlas(s: SchedulerView, v: GpuView, a: AtlasView) -> SchedulerView {
    let first = if a.generation != v.generation {
        requested(s, Reason::Atlas)
    } else {
        s
    };
    if a.pending.len() > 0 && !some_empty(a.pending) {
        requested(first, Reason::Atlas)
    } else {
        first
    }
}

impl Renderer {
    /// What the GPU holds.
    pub closed spec fn gpu(self) -> GpuView {
        self.context@
    }

    pub closed spec fn pacing(self) -> SchedulerView {
        self.scheduler@
    }

    pub closed spec fn instances(self) -> InstanceBuffers {
        self.buffers
    }

    pub fn new(page_size: u16) -> (r: Renderer)
        ensures
            r.gpu().pages.len() == 0,
            r.gpu().pending.len() == 0,
            r.gpu().page_size == if page_size < LEAST_PAGE {
                LEAST_PAGE
            } else {
                page_size
            },
            r.gpu().generation == NO_GENERATION,
            r.pacing() == idle_scheduler(FRAMES_IN_FLIGHT),
            r.instances().nothing(),
    {
        Renderer {
            context: GpuContext::new(page_size),
            scheduler: FrameScheduler::new(FRAMES_IN_FLIGHT),
            buffers: InstanceBuffers::new(),
        }
    }

    pub fn context(&self) -> (c: &GpuContext)
        ensures
            c@ == self.gpu(),
    {
        &self.context
    }

    pub fn context_mut(&mut self) -> (c: &mut GpuContext)
        ensures
            c@ == old(self).gpu(),
            final(self).gpu() == final(c)@,
            final(self).pacing() == old(self).pacing(),
            final(self).instances() == old(self).instances(),
    {
        &mut self.context
    }

    pub fn scheduler(&mut self) -> (s: &mut FrameScheduler)
        ensures
            s@ == old(self).pacing(),
            final(self).pacing() == final(s)@,
            final(self).gpu() == old(self).gpu(),
            final(self).instances() == old(self).instances(),
    {
        &mut self.scheduler
    }

    pub fn stats(&self) -> (s: FrameStats)
        ensures
            s == self.pacing().stats,
    {
        self.scheduler.stats()
    }

    pub fn buffers(&mut self) -> (b: &mut InstanceBuffers)
        ensures
            *b == old(self).instances(),
            final(self).instances() == *final(b),
            final(self).gpu() == old(self).gpu(),
            final(self).pacing() == old(self).pacing(),
    {
        &mut self.buffers
    }

    /// Follows the atlas: drops the textures of another generation, and stages
    /// the glyphs that are new. Either asks for a frame.
    pub fn sync_atlas(&mut self, atlas: &mut Atlas) -> (r: Result<(), GpuError>)
        requires
            old(atlas).wf(),
        ensures
            final(atlas).wf(),
            final(atlas)@ == (AtlasView { pending: Seq::empty(), ..old(atlas)@ }),
            r is Ok <==> !some_empty(old(atlas)@.pending),
            r matches Err(e) ==> e == GpuError::TextureFailed,
            final(self).gpu() == with_uploads(
                after_generation(old(self).gpu(), old(atlas)@),
                old(atlas)@.pending,
                handed_on(old(atlas)@.pending, 0),
            ),
            final(self).pacing() == after_atlas(
                old(self).pacing(),
                old(self).gpu(),
                old(atlas)@,
            ),
            final(self).instances() == old(self).instances(),
    {
        if atlas.generation() != self.context.atlas_generation() {
            self.context.reset_atlas(atlas.generation());
            self.scheduler.request(Reason::Atlas);
        }
        let ghost base = self.context@;
        let ghost pacing = self.scheduler@;
        let ghost pending = atlas@.pending;
        if !atlas.has_uploads() {
            assert(atlas@.pending =~= Seq::empty());
            return Ok(());
        }
        let mut uploads = atlas.take_uploads();
        let n: usize = uploads.len();
        assert(upload_views(uploads@).len() == uploads@.len());
        assert(upload_views(uploads@) =~= pending.skip(0));
        let mut i: usize = 0;
        while i < n
            invariant
                i <= n == pending.len(),
                pending == old(atlas)@.pending,
                base == after_generation(old(self).gpu(), old(atlas)@),
                pacing == if old(atlas)@.generation != old(self).gpu().generation {
                    requested(old(self).pacing(), Reason::Atlas)
                } else {
                    old(self).pacing()
                },
                atlas.wf(),
                atlas@ == (AtlasView { pending: Seq::empty(), ..old(atlas)@ }),
                uploads@.len() == n - i,
                upload_views(uploads@) == pending.skip(i as int),
                self.context@ == with_uploads(base, pending, i as int),
                self.scheduler@ == pacing,
                self.buffers == old(self).buffers,
                handed_on(pending, 0) == handed_on(pending, i as int),
                forall|k: int| 0 <= k < i ==> (#[trigger] pending[k]).data.len() > 0,
            decreases n - i,
        {
            let ghost held = uploads@;
            let upload = uploads.remove(0);
            assert(upload@ == upload_views(held)[0]);
            assert(upload@ == pending[i as int]);
            assert(upload_views(uploads@) =~= upload_views(held).skip(1));
            assert(upload_views(uploads@) =~= pending.skip(i + 1));
            match self.context.stage_upload(upload) {
                Ok(_) => {},
                Err(e) => {
                    assert(pending[i as int].data.len() == 0);
                    return Err(e);
                },
            }
            i += 1;
        }
        assert(!some_empty(pending));
        self.scheduler.request(Reason::Atlas);
        Ok(())
    }

    /// The pages that the glyph passes sample, masks and colours.
    pub fn atlas_textures(&self) -> (t: (Option<usize>, Option<usize>))
        ensures
            (index_view(t.0), index_view(t.1)) == sampled(self.gpu().pages),
    {
        let pages = self.context.pages();
        let mask = find_page(pages, PixelFormat::Alpha8);
        let color = find_page(pages, PixelFormat::Bgra8);
        (
            if mask.is_some() {
                mask
            } else {
                color
            },
            if color.is_some() {
                color
            } else {
                mask
            },
        )
    }
}

/// Where a pixel of a picture starts.
pub open spec fn pixel_start(width: int, x: int, y: int) -> int {
    (y * width + x) * 4
}

/// One pixel of a picture whose pixels hold blue, green, red and alpha: its red,
/// green, blue and alpha.
pub fn pixel_at(data: &[u8], width: usize, x: usize, y: usize) -> (p: (u8, u8, u8, u8))
    requires
        pixel_start(width as int, x as int, y as int) + 4 <= data@.len(),
    ensures
        ({
            let i = pixel_start(width as int, x as int, y as int);
            p == (data@[i + 2], data@[i + 1], data@[i], data@[i + 3])
        }),
{
    let n: usize = data.len();
    proof {
        assert(0 <= y * width) by (nonlinear_arith)
            requires
                0 <= y,
                0 <= width,
        ;
        assert(y * width + x <= n);
    }
    let row: usize = y * width;
    let i: usize = (row + x) * 4;
    (data[i + 2], data[i + 1], data[i], data[i + 3])
}

/// Whether a frame is owed and can be started.
pub fn should_draw(scheduler: &mut FrameScheduler) -> (yes: bool)
    requires
        old(scheduler)@.stats.idle_polls < u64::MAX,
        old(scheduler)@.stats.throttled < u64::MAX,
    ensures
        yes == (decision(old(scheduler)@) is Draw),
        final(scheduler)@ == polled(old(scheduler)@),
{
    match scheduler.poll() {
        Decision::Draw => true,
        _ => false,
    }
}

/// How far up a pass is painted: the substrate lowest, then backgrounds, the
/// caret's trail, the caret, glyphs, rules, the marks of blocks, and the overlays
/// with their text.
pub open spec fn depth(p: Pipeline) -> int {
    match p {
        Pipeline::Substrate => 0,
        Pipeline::CellBg => 1,
        Pipeline::Decay => 2,
        Pipeline::Shape => 3,
        Pipeline::Cell => 4,
        Pipeline::CellRule => 5,
        Pipeline::BlockGutter => 6,
        Pipeline::Quad => 7,
        Pipeline::UiText => 8,
    }
}

/// How much each pass has to draw.
pub open spec fn amount(p: Pipeline, b: InstanceBuffers, decays: nat, shapes: nat) -> nat {
    match p {
        Pipeline::Substrate => 1,
        Pipeline::CellBg => b.backgrounds@.len(),
        Pipeline::Decay => decays,
        Pipeline::Shape => shapes,
        Pipeline::Cell => b.glyphs@.len(),
        Pipeline::CellRule => b.rules@.len(),
        Pipeline::BlockGutter => b.gutters@.len(),
        Pipeline::Quad => b.quads@.len(),
        Pipeline::UiText => b.ui_text@.len(),
    }
}

/// Passes come from the lowest to the highest, each once.
spec fn rising(s: Seq<Pass>, below: int) -> bool {
    &&& forall|i: int, j: int|
        0 <= i < j < s.len() ==> depth((#[trigger] s[i]).pipeline) < depth(
            (#[trigger] s[j]).pipeline,
        )
    &&& forall|i: int| 0 <= i < s.len() ==> depth((#[trigger] s[i]).pipeline) < below
}

#[verifier::opaque]
spec fn drawn(
    s: Seq<Pass>,
    b: InstanceBuffers,
    decays: nat,
    shapes: nat,
    below: int,
) -> bool {
    &&& rising(s, below)
    &&& forall|i: int|
        0 <= i < s.len() ==> (#[trigger] s[i]).instances == amount(
            s[i].pipeline,
            b,
            decays,
            shapes,
        )
    &&& forall|p: Pipeline|
        depth(p) < below && #[trigger] amount(p, b, decays, shapes) > 0 ==> exists|i: int|
            0 <= i < s.len() && (#[trigger] s[i]).pipeline == p
    &&& forall|i: int| 0 <= i < s.len() ==> (#[trigger] s[i]).instances > 0
}

proof fn lemma_next_pass(
    s: Seq<Pass>,
    b: InstanceBuffers,
    decays: nat,
    shapes: nat,
    p: Pipeline,
)
    requires
        drawn(s, b, decays, shapes, depth(p)),
        amount(p, b, decays, shapes) <= usize::MAX,
    ensures
        drawn(s + pass_for(p, amount(p, b, decays, shapes)), b, decays, shapes, depth(p) + 1),
{
    reveal(drawn);
    let n = amount(p, b, decays, shapes);
    let t = s + pass_for(p, n);
    if n == 0 {
        assert(t =~= s);
        assert forall|q: Pipeline|
            depth(q) < depth(p) + 1 && #[trigger] amount(q, b, decays, shapes) > 0 implies exists|
            i: int,
        | 0 <= i < t.len() && (#[trigger] t[i]).pipeline == q by {
            assert(depth(q) < depth(p));
        }
    } else {
        assert(t[s.len() as int].pipeline == p);
        assert(t.len() == s.len() + 1);
        assert forall|q: Pipeline|
            depth(q) < depth(p) + 1 && #[trigger] amount(q, b, decays, shapes) > 0 implies exists|
            i: int,
        | 0 <= i < t.len() && (#[trigger] t[i]).pipeline == q by {
            if depth(q) < depth(p) {
                let i = choose|i: int| 0 <= i < s.len() && (#[trigger] s[i]).pipeline == q;
                assert(t[i].pipeline == q);
            } else {
                assert(q == p);
            }
        }
        assert forall|i: int| 0 <= i < t.len() implies (#[trigger] t[i]).instances == amount(
            t[i].pipeline,
            b,
            decays,
            shapes,
        ) && t[i].instances > 0 && depth(t[i].pipeline) < depth(p) + 1 by {
            if i < s.len() {
                assert(t[i] == s[i]);
            }
        }
        assert forall|i: int, j: int| 0 <= i < j < t.len() implies depth((#[trigger] t[i]).pipeline)
            < depth((#[trigger] t[j]).pipeline) by {
            assert(t[i] == s[i]);
            if j < s.len() {
                assert(t[j] == s[j]);
            }
        }
    }
}

proof fn lemma_joined_in_turn(
    u: Seq<Pass>,
    a: Seq<Pass>,
    b: Seq<Pass>,
    c: Seq<Pass>,
    d: Seq<Pass>,
    e: Seq<Pass>,
)
    ensures
        u + (a + b + c + d + e) == u + a + b + c + d + e,
{
    assert(u + (a + b + c + d + e) =~= u + a + b + c + d + e);
}

proof fn lemma_all_drawn(b: InstanceBuffers, d: nat, h: nat)
    requires
        d <= usize::MAX,
        h <= usize::MAX,
    ensures
        drawn(passes_of(b, d, h), b, d, h, 9),
{
    let none: Seq<Pass> = Seq::empty();
    assert(drawn(none, b, d, h, 0)) by {
        reveal(drawn);
    }
    assert(b.backgrounds@.len() == b.backgrounds.len() && b.glyphs@.len() == b.glyphs.len()
        && b.rules@.len() == b.rules.len() && b.gutters@.len() == b.gutters.len() && b.quads@.len()
        == b.quads.len() && b.ui_text@.len() == b.ui_text.len());
    let s1 = pass_for(Pipeline::Substrate, 1);
    assert(none + s1 =~= s1);
    lemma_next_pass(none, b, d, h, Pipeline::Substrate);
    let s2 = s1 + pass_for(Pipeline::CellBg, b.backgrounds@.len());
    lemma_next_pass(s1, b, d, h, Pipeline::CellBg);
    let s3 = s2 + pass_for(Pipeline::Decay, d);
    lemma_next_pass(s2, b, d, h, Pipeline::Decay);
    let s4 = s3 + pass_for(Pipeline::Shape, h);
    lemma_next_pass(s3, b, d, h, Pipeline::Shape);
    let s5 = s4 + pass_for(Pipeline::Cell, b.glyphs@.len());
    lemma_next_pass(s4, b, d, h, Pipeline::Cell);
    let s6 = s5 + pass_for(Pipeline::CellRule, b.rules@.len());
    lemma_next_pass(s5, b, d, h, Pipeline::CellRule);
    let s7 = s6 + pass_for(Pipeline::BlockGutter, b.gutters@.len());
    lemma_next_pass(s6, b, d, h, Pipeline::BlockGutter);
    let s8 = s7 + pass_for(Pipeline::Quad, b.quads@.len());
    lemma_next_pass(s7, b, d, h, Pipeline::Quad);
    lemma_next_pass(s8, b, d, h, Pipeline::UiText);
    lemma_joined_in_turn(
        s4,
        pass_for(Pipeline::Cell, b.glyphs@.len()),
        pass_for(Pipeline::CellRule, b.rules@.len()),
        pass_for(Pipeline::BlockGutter, b.gutters@.len()),
        pass_for(Pipeline::Quad, b.quads@.len()),
        pass_for(Pipeline::UiText, b.ui_text@.len()),
    );
}

/// Everything that there is to draw is drawn by its own program, all of it, once,
/// from the lowest to the highest; and nothing else is.
pub proof fn law_passes_are_painted_upwards(
    b: InstanceBuffers,
    decays: usize,
    shapes: usize,
    v: Vec<Pass>,
    p: Pipeline,
)
    requires
        call_ensures(passes, (&b, decays, shapes), v),
    ensures
        forall|i: int, j: int|
            0 <= i < j < v@.len() ==> depth((#[trigger] v@[i]).pipeline) < depth(
                (#[trigger] v@[j]).pipeline,
            ),
        forall|i: int|
            0 <= i < v@.len() ==> (#[trigger] v@[i]).instances == amount(
                v@[i].pipeline,
                b,
                decays as nat,
                shapes as nat,
            ) && v@[i].instances > 0,
        amount(p, b, decays as nat, shapes as nat) > 0 ==> exists|i: int|
            0 <= i < v@.len() && (#[trigger] v@[i]).pipeline == p,
{
    lemma_all_drawn(b, decays as nat, shapes as nat);
    assert(depth(p) < 9);
    reveal(drawn);
}

proof fn lemma_first_of(pages: Seq<PageTexture>, format: PixelFormat, from: int)
    requires
        0 <= from <= pages.len(),
    ensures
        match first_of(pages, format, from) {
            Some(i) => from <= i < pages.len() && pages[i].format == format && forall|k: int|
                from <= k < i ==> (#[trigger] pages[k]).format != format,
            None => forall|k: int| from <= k < pages.len() ==> (#[trigger] pages[k]).format != format,
        },
    decreases pages.len() - from,
{
    if from < pages.len() && pages[from].format != format {
        lemma_first_of(pages, format, from + 1);
    }
}

/// Masks are sampled from the first page of coverage and colours from the first
/// page of colour; where one kind is missing the other stands in.
pub proof fn law_glyphs_are_sampled_from_their_kind(r: Renderer, t: (Option<usize>, Option<usize>))
    requires
        call_ensures(Renderer::atlas_textures, (&r,), t),
    ensures
        r.gpu().pages.len() == 0 <==> t.0 is None,
        r.gpu().pages.len() == 0 <==> t.1 is None,
        (exists|k: int| 0 <= k < r.gpu().pages.len() && (#[trigger] r.gpu().pages[k]).format
            is Alpha8) ==> t.0 is Some && t.0->0 < r.gpu().pages.len() && r.gpu().pages[t.0->0
            as int].format is Alpha8,
        (exists|k: int| 0 <= k < r.gpu().pages.len() && (#[trigger] r.gpu().pages[k]).format
            is Bgra8) ==> t.1 is Some && t.1->0 < r.gpu().pages.len() && r.gpu().pages[t.1->0
            as int].format is Bgra8,
        forall|k: int|
            0 <= k < r.gpu().pages.len() && (#[trigger] r.gpu().pages[k]).format is Alpha8
                ==> t.0->0 <= k,
        forall|k: int|
            0 <= k < r.gpu().pages.len() && (#[trigger] r.gpu().pages[k]).format is Bgra8
                ==> t.1->0 <= k,
{
    let pages = r.gpu().pages;
    lemma_first_of(pages, PixelFormat::Alpha8, 0);
    lemma_first_of(pages, PixelFormat::Bgra8, 0);
    if pages.len() > 0 {
        assert(pages[0].format is Alpha8 || pages[0].format is Bgra8);
    }
}

/// Another generation of the atlas drops the textures and asks for a frame; the
/// same one keeps them. New glyphs ask for a frame too.
pub proof fn law_the_renderer_follows_the_atlas(s: SchedulerView, v: GpuView, a: AtlasView)
    requires
        s.dirty is None,
    ensures
        a.generation != v.generation ==> after_generation(v, a).pages.len() == 0
            && after_generation(v, a).generation == a.generation,
        a.generation == v.generation ==> after_generation(v, a) == v,
        after_generation(v, a).pending == v.pending,
        after_atlas(s, v, a).dirty is Some <==> a.generation != v.generation || (a.pending.len() > 0
            && forall|i: int|
            0 <= i < a.pending.len() ==> (#[trigger] a.pending[i]).data.len() > 0),
        after_atlas(s, v, a).dirty is Some ==> after_atlas(s, v, a).dirty == Some(Reason::Atlas),
        after_atlas(s, v, a).in_flight == s.in_flight,
        after_atlas(s, v, a).stats == s.stats,
{
}

/// Glyphs are handed on in order, each on its own page, all of them where all
/// have data.
pub proof fn law_all_glyphs_are_handed_on(v: GpuView, uploads: Seq<UploadView>, from: int)
    requires
        0 <= from <= uploads.len(),
        forall|i: int| from <= i < uploads.len() ==> (#[trigger] uploads[i]).data.len() > 0,
    ensures
        handed_on(uploads, from) == uploads.len(),
        from == 0 ==> with_uploads(v, uploads, uploads.len() as int).pending.len()
            == v.pending.len() + uploads.len(),
    decreases uploads.len() - from,
{
    if from < uploads.len() {
        law_all_glyphs_are_handed_on(v, uploads, from + 1);
    }
    if from == 0 {
        lemma_handed_on_count(v, uploads, uploads.len() as int);
    }
}

proof fn lemma_handed_on_count(v: GpuView, uploads: Seq<UploadView>, n: int)
    requires
        0 <= n <= uploads.len(),
        forall|i: int| 0 <= i < n ==> (#[trigger] uploads[i]).data.len() > 0,
    ensures
        with_uploads(v, uploads, n).pending.len() == v.pending.len() + n,
    decreases n,
{
    if n > 0 {
        lemma_handed_on_count(v, uploads, n - 1);
        assert(uploads[n - 1].data.len() > 0);
    }
}

/// The bytes of a pixel are blue, green, red and alpha, row by row.
pub proof fn law_pixels_are_read_in_their_order(
    data: &[u8],
    width: usize,
    x: usize,
    y: usize,
    p: (u8, u8, u8, u8),
)
    requires
        call_ensures(pixel_at, (data, width, x, y), p),
    ensures
        ({
            let at = 4 * (y * width + x);
            p.0 == data@[at + 2] && p.1 == data@[at + 1] && p.2 == data@[at] && p.3 == data@[at
                + 3]
        }),
{
}

} // verus!
