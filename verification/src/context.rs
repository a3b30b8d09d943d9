//! What the GPU is asked to hold: the pipelines, and a texture for each page of
//! the atlas.
//!
//! A glyph is staged first and copied by the frame that needs it, before that
//! frame draws: a write from the side could reach a texture that an earlier
//! frame still reads.

use vstd::prelude::*;

use crate::atlas::{Upload, UploadView};
use crate::packer::Rect;
use crate::raster::PixelFormat;
use crate::text::{push_text, string_of};

verus! {

/// What keeps the GPU from being used.
#[derive(Debug, Clone, PartialEq, Eq)]
pub enum GpuError {
    NoDevice,
    NoQueue,
    LibraryNotFound(String),
    LibraryFailed(String),
    MissingFunction(&'static str),
    PipelineFailed { name: &'static str, message: String },
    TextureFailed,
    BufferFailed,
    SamplerFailed,
}

/// What an error says.
pub open spec fn error_text(e: GpuError) -> Seq<char> {
    match e {
        GpuError::NoDevice => "no Metal device (Mica requires Apple Silicon)"@,
        GpuError::NoQueue => "could not create a Metal command queue"@,
        GpuError::LibraryNotFound(p) => "default.metallib not found at "@ + p@,
        GpuError::LibraryFailed(m) => "could not load default.metallib: "@ + m@,
        GpuError::MissingFunction(n) => "shader function `"@ + n@ + "` is missing"@,
        GpuError::PipelineFailed { name, message } => "pipeline `"@ + name@ + "` failed to build: "@
            + message@,
        GpuError::TextureFailed => "could not create a Metal texture"@,
        GpuError::BufferFailed => "could not create a Metal buffer"@,
        GpuError::SamplerFailed => "could not create a Metal sampler"@,
    }
}

impl GpuError {
    pub fn message(&self) -> (text: String)
        ensures
            text@ == error_text(*self),
    {
        let mut v: Vec<char> = Vec::new();
        match self {
            GpuError::NoDevice => push_text("no Metal device (Mica requires Apple Silicon)", &mut v),
            GpuError::NoQueue => push_text("could not create a Metal command queue", &mut v),
            GpuError::LibraryNotFound(p) => {
                push_text("default.metallib not found at ", &mut v);
                push_text(p.as_str(), &mut v);
            },
            GpuError::LibraryFailed(m) => {
                push_text("could not load default.metallib: ", &mut v);
                push_text(m.as_str(), &mut v);
            },
            GpuError::MissingFunction(n) => {
                push_text("shader function `", &mut v);
                push_text(n, &mut v);
                push_text("` is missing", &mut v);
            },
            GpuError::PipelineFailed { name, message } => {
                push_text("pipeline `", &mut v);
                push_text(name, &mut v);
                push_text("` failed to build: ", &mut v);
                push_text(message.as_str(), &mut v);
            },
            GpuError::TextureFailed => push_text("could not create a Metal texture", &mut v),
            GpuError::BufferFailed => push_text("could not create a Metal buffer", &mut v),
            GpuError::SamplerFailed => push_text("could not create a Metal sampler", &mut v),
        }
        assert(v@ =~= error_text(*self));
        let n: usize = v.len();
        assert(v@.subrange(0, n as int) =~= v@);
        string_of(&v, 0, n)
    }
}

/// Where the first library is that exists, from `from` on.
pub open spec fn first_there(there: Seq<(String, bool)>, from: int) -> Option<int>
    decreases there.len() - from,
{
    if from < 0 || from >= there.len() {
        None
    } else if there[from].1 {
        Some(from)
    } else {
        first_there(there, from + 1)
    }
}

/// Which of the places for the shader library to load it from: the first that
/// exists. Each comes with whether it does.
pub fn pick_library(places: &Vec<(String, bool)>) -> (r: Result<usize, GpuError>)
    ensures
        match r {
            Ok(i) => first_there(places@, 0) == Some(i as int),
            Err(e) => {
                &&& first_there(places@, 0) is None
                &&& e matches GpuError::LibraryNotFound(p) && p@ == if places@.len() == 0 {
                    Seq::<char>::empty()
                } else {
                    places@.last().0@
                }
            },
        },
{
    let n: usize = places.len();
    let mut i: usize = 0;
    while i < n
        invariant
            i <= n == places@.len(),
            first_there(places@, 0) == first_there(places@, i as int),
        decreases n - i,
    {
        if places[i].1 {
            return Ok(i);
        }
        i += 1;
    }
    if n == 0 {
        let none: Vec<char> = Vec::new();
        return Err(GpuError::LibraryNotFound(string_of(&none, 0, 0)));
    }
    Err(GpuError::LibraryNotFound(places[n - 1].0.clone()))
}

/// One of the programs that draw.
#[derive(Debug, Clone, Copy, PartialEq, Eq, Structural)]
pub enum Pipeline {
    Substrate,
    CellBg,
    Cell,
    CellRule,
    BlockGutter,
    Shape,
    Decay,
    Quad,
    UiText,
}

/// The name that a program's functions and captures go by.
pub open spec fn pipeline_name(p: Pipeline) -> Seq<char> {
    match p {
        Pipeline::Substrate => "substrate"@,
        Pipeline::CellBg => "cell_bg"@,
        Pipeline::Cell => "cell"@,
        Pipeline::CellRule => "cell_rule"@,
        Pipeline::BlockGutter => "block_gutter"@,
        Pipeline::Shape => "shape"@,
        Pipeline::Decay => "decay"@,
        Pipeline::Quad => "quad"@,
        Pipeline::UiText => "ui_text"@,
    }
}

/// Every program.
pub open spec fn all_pipelines() -> Seq<Pipeline> {
    seq![
        Pipeline::Substrate,
        Pipeline::CellBg,
        Pipeline::Cell,
        Pipeline::CellRule,
        Pipeline::BlockGutter,
        Pipeline::Shape,
        Pipeline::Decay,
        Pipeline::Quad,
        Pipeline::UiText,
    ]
}

impl Pipeline {
    pub fn all() -> (v: Vec<Pipeline>)
        ensures
            v@ == all_pipelines(),
    {
        let v = vec![
            Pipeline::Substrate,
            Pipeline::CellBg,
            Pipeline::Cell,
            Pipeline::CellRule,
            Pipeline::BlockGutter,
            Pipeline::Shape,
            Pipeline::Decay,
            Pipeline::Quad,
            Pipeline::UiText,
        ];
        assert(v@ =~= all_pipelines());
        v
    }

    pub fn name(self) -> (text: &'static str)
        ensures
            text@ == pipeline_name(self),
    {
        match self {
            Pipeline::Substrate => "substrate",
            Pipeline::CellBg => "cell_bg",
            Pipeline::Cell => "cell",
            Pipeline::CellRule => "cell_rule",
            Pipeline::BlockGutter => "block_gutter",
            Pipeline::Shape => "shape",
            Pipeline::Decay => "decay",
            Pipeline::Quad => "quad",
            Pipeline::UiText => "ui_text",
        }
    }

    /// Whether what it draws is laid over what is there. Only the substrate
    /// replaces it.
    pub fn blends(self) -> (yes: bool)
        ensures
            yes == !(self is Substrate),
    {
        match self {
            Pipeline::Substrate => false,
            _ => true,
        }
    }

    /// Whether it samples the atlas.
    pub fn samples_atlas(self) -> (yes: bool)
        ensures
            yes == (self is Cell || self is UiText),
    {
        match self {
            Pipeline::Cell => true,
            Pipeline::UiText => true,
            _ => false,
        }
    }
}

/// The texture of one page.
#[derive(Debug, Clone, Copy, PartialEq, Eq, Structural)]
pub struct PageTexture {
    pub format: PixelFormat,
}

/// A glyph that waits to be copied into its page.
#[derive(Debug, Clone, PartialEq, Eq)]
pub struct StagedUpload {
    pub page: usize,
    pub rect: Rect,
    pub bytes_per_row: usize,
    pub data: Vec<u8>,
}

/// [`StagedUpload`] with its data as a sequence.
pub struct StagedView {
    pub page: int,
    pub rect: Rect,
    pub bytes_per_row: int,
    pub data: Seq<u8>,
}

impl View for StagedUpload {
    type V = StagedView;

    open spec fn view(&self) -> StagedView {
        StagedView {
            page: self.page as int,
            rect: self.rect,
            bytes_per_row: self.bytes_per_row as int,
            data: self.data@,
        }
    }
}

/// What staged glyphs are.
pub open spec fn staged_views(v: Seq<StagedUpload>) -> Seq<StagedView> {
    v.map_values(|s: StagedUpload| s@)
}

/// The least side of a page.
pub const LEAST_PAGE: u16 = 64;

/// The generation of no atlas.
pub const NO_GENERATION: u32 = 0xFFFF_FFFF;

/// What the GPU holds of the atlas.
#[derive(Debug)]
pub struct GpuContext {
    pages: Vec<PageTexture>,
    page_size: u32,
    atlas_generation: u32,
    pending: Vec<StagedUpload>,
}

/// What a [`GpuContext`] knows.
#[verifier::ext_equal]
pub struct GpuView {
    pub pages: Seq<PageTexture>,
    pub page_size: u32,
    pub generation: u32,
    pub pending: Seq<StagedView>,
}

impl View for GpuContext {
    type V = GpuView;

    closed spec fn view(&self) -> GpuView {
        GpuView {
            pages: self.pages@,
            page_size: self.page_size,
            generation: self.atlas_generation,
            pending: staged_views(self.pending@),
        }
    }
}

/// The pages once one of an upload's format is there at its place.
pub open spec fn pages_with(pages: Seq<PageTexture>, page: int, format: PixelFormat) -> Seq<
    PageTexture,
> {
    let grown = if pages.len() <= page {
        pages + Seq::new((page + 1 - pages.len()) as nat, |i: int| PageTexture { format })
    } else {
        pages
    };
    grown.update(page, PageTexture { format })
}

/// A glyph, staged.
pub open spec fn staged(u: UploadView) -> StagedView {
    StagedView {
        page: u.page as int,
        rect: u.rect,
        bytes_per_row: u.rect.width * u.format.size(),
        data: u.data,
    }
}

/// The GPU once it was handed a glyph.
pub open spec fn with_upload(v: GpuView, u: UploadView) -> GpuView {
    GpuView {
        pages: pages_with(v.pages, u.page as int, u.format),
        pending: if u.data.len() == 0 {
            v.pending
        } else {
            v.pending.push(staged(u))
        },
        ..v
    }
}

/// Whether every staged glyph has its page.
pub open spec fn pages_there(v: GpuView) -> bool {
    forall|i: int| 0 <= i < v.pending.len() ==> (#[trigger] v.pending[i]).page < v.pages.len()
}

impl GpuContext {
    pub fn new(page_size: u16) -> (c: GpuContext)
        ensures
            c@ == (GpuView {
                pages: Seq::empty(),
                page_size: (if page_size < LEAST_PAGE {
                    LEAST_PAGE
                } else {
                    page_size
                }) as u32,
                generation: NO_GENERATION,
                pending: Seq::empty(),
            }),
    {
        let side: u16 = if page_size < LEAST_PAGE {
            LEAST_PAGE
        } else {
            page_size
        };
        let c = GpuContext {
            pages: Vec::new(),
            page_size: side as u32,
            atlas_generation: NO_GENERATION,
            pending: Vec::new(),
        };
        assert(c@.pending =~= Seq::empty());
        c
    }

    pub fn page_size(&self) -> (n: u32)
        ensures
            n == self@.page_size,
    {
        self.page_size
    }

    /// The textures, by their pages.
    pub fn pages(&self) -> (pages: &[PageTexture])
        ensures
            pages@ == self@.pages,
    {
        self.pages.as_slice()
    }

    pub fn atlas_generation(&self) -> (g: u32)
        ensures
            g == self@.generation,
    {
        self.atlas_generation
    }

    /// Drops every texture: the atlas is another one now.
    pub fn reset_atlas(&mut self, generation: u32)
        ensures
            final(self)@ == (GpuView { pages: Seq::empty(), generation, ..old(self)@ }),
    {
        self.pages.clear();
        self.atlas_generation = generation;
    }

    /// Stages a glyph. Its page comes to be with the first glyph on it, so a
    /// session without colour glyphs has no colour page. A glyph without data
    /// cannot be staged.
    pub fn stage_upload(&mut self, upload: Upload) -> (r: Result<(), GpuError>)
        ensures
            final(self)@ == with_upload(old(self)@, upload@),
            r is Ok <==> upload@.data.len() > 0,
            r matches Err(e) ==> e == GpuError::TextureFailed,
            pages_there(old(self)@) ==> pages_there(final(self)@),
    {
        let ghost before = self@;
        let index: usize = upload.page as usize;
        let ghost first = self.pages@;
        while self.pages.len() <= index
            invariant
                self@ == (GpuView { pages: self.pages@, ..before }),
                first == before.pages,
                first.len() <= self.pages@.len(),
                self.pages@.len() <= index + 1 || self.pages@ == first,
                self.pages@ == first + Seq::new(
                    (self.pages@.len() - first.len()) as nat,
                    |i: int| PageTexture { format: upload.format },
                ),
            decreases index + 1 - self.pages@.len(),
        {
            let ghost had = self.pages@;
            self.pages.push(PageTexture { format: upload.format });
            assert(self.pages@ =~= first + Seq::new(
                (self.pages@.len() - first.len()) as nat,
                |i: int| PageTexture { format: upload.format },
            ));
            assert(self@ =~= (GpuView { pages: self.pages@, ..before }));
        }
        self.pages.set(index, PageTexture { format: upload.format });
        assert(self.pages@ =~= pages_with(first, index as int, upload.format));
        let ghost u = upload@;
        if upload.data.len() == 0 {
            return Err(GpuError::TextureFailed);
        }
        proof {
            assert(upload.rect.width * upload.format.size() <= 65535 * 4) by (nonlinear_arith)
                requires
                    upload.rect.width <= 65535,
                    0 <= upload.format.size() <= 4,
            ;
        }
        let bytes_per_row: usize = upload.rect.width as usize * upload.format.bytes_per_pixel();
        let one = StagedUpload {
            page: index,
            rect: upload.rect,
            bytes_per_row,
            data: upload.data,
        };
        let ghost view = one@;
        self.pending.push(one);
        assert(staged_views(self.pending@) =~= before.pending.push(view));
        Ok(())
    }

    pub fn has_pending_uploads(&self) -> (yes: bool)
        ensures
            yes == (self@.pending.len() > 0),
    {
        self.pending.len() > 0
    }

    /// Whether the page of every staged glyph is there. After a reset, one may
    /// not be.
    pub fn can_flush(&self) -> (yes: bool)
        ensures
            yes == pages_there(self@),
    {
        let n: usize = self.pending.len();
        let mut i: usize = 0;
        while i < n
            invariant
                i <= n == self.pending@.len(),
                forall|k: int|
                    0 <= k < i ==> (#[trigger] self@.pending[k]).page < self@.pages.len(),
            decreases n - i,
        {
            assert(self@.pending[i as int] == self.pending@[i as int]@);
            if self.pending[i].page >= self.pages.len() {
                return false;
            }
            i += 1;
        }
        true
    }

    /// Hands out the staged glyphs, to be copied before the frame draws.
    pub fn flush_uploads(&mut self) -> (uploads: Vec<StagedUpload>)
        requires
            pages_there(old(self)@),
        ensures
            staged_views(uploads@) == old(self)@.pending,
            forall|i: int|
                0 <= i < uploads@.len() ==> (#[trigger] uploads@[i]).page < old(self)@.pages.len(),
            final(self)@ == (GpuView { pending: Seq::empty(), ..old(self)@ }),
    {
        let mut uploads: Vec<StagedUpload> = Vec::new();
        core::mem::swap(&mut uploads, &mut self.pending);
        assert(staged_views(self.pending@) =~= Seq::empty());
        assert forall|i: int| 0 <= i < uploads@.len() implies (#[trigger] uploads@[i]).page < old(
            self,
        )@.pages.len() by {
            assert(staged_views(uploads@) =~= old(self)@.pending);
            assert(old(self)@.pending[i] == uploads@[i]@);
        }
        uploads
    }
}

proof fn lemma_first_there(there: Seq<(String, bool)>, from: int)
    requires
        0 <= from <= there.len(),
    ensures
        match first_there(there, from) {
            Some(i) => from <= i < there.len() && there[i].1 && forall|k: int|
                from <= k < i ==> !(#[trigger] there[k]).1,
            None => forall|k: int| from <= k < there.len() ==> !(#[trigger] there[k]).1,
        },
    decreases there.len() - from,
{
    if from < there.len() && !there[from].1 {
        lemma_first_there(there, from + 1);
    }
}

/// The library is loaded from the first place where it is; where it is nowhere,
/// the last place is named.
pub proof fn law_the_first_library_is_taken(
    places: Vec<(String, bool)>,
    r: Result<usize, GpuError>,
    k: int,
)
    requires
        call_ensures(pick_library, (&places,), r),
        0 <= k < places@.len(),
    ensures
        places@[k].1 ==> r is Ok && r->Ok_0 <= k,
        r matches Ok(i) ==> i < places@.len() && places@[i as int].1,
        r matches Err(e) ==> e matches GpuError::LibraryNotFound(p) && p@ == places@.last().0@,
{
    lemma_first_there(places@, 0);
}

/// Programs go by these names; all but the one below everything are laid over
/// what is there, and two sample the atlas.
pub proof fn law_programs_are_named(
    p: Pipeline,
    name: &'static str,
    over: bool,
    samples: bool,
    all: Vec<Pipeline>,
)
    requires
        call_ensures(Pipeline::name, (p,), name),
        call_ensures(Pipeline::blends, (p,), over),
        call_ensures(Pipeline::samples_atlas, (p,), samples),
        call_ensures(Pipeline::all, (), all),
    ensures
        p is Substrate ==> name@ == "substrate"@ && !over,
        !(p is Substrate) ==> over,
        p is CellBg ==> name@ == "cell_bg"@,
        p is Cell ==> name@ == "cell"@ && samples,
        p is CellRule ==> name@ == "cell_rule"@,
        p is BlockGutter ==> name@ == "block_gutter"@,
        p is Shape ==> name@ == "shape"@,
        p is Decay ==> name@ == "decay"@,
        p is Quad ==> name@ == "quad"@,
        p is UiText ==> name@ == "ui_text"@ && samples,
        !(p is Cell) && !(p is UiText) ==> !samples,
        all@.len() == 9,
        all@.contains(p),
{
    let s = all_pipelines();
    assert(s[0] is Substrate && s[1] is CellBg && s[2] is Cell && s[3] is CellRule && s[4]
        is BlockGutter && s[5] is Shape && s[6] is Decay && s[7] is Quad && s[8] is UiText);
}

/// A glyph that is handed over has a page of its own format afterwards, and the
/// other pages stay. It is staged behind what is staged already, with its own
/// rectangle and pixels and a row's worth of bytes, unless it has none.
pub proof fn law_a_glyph_is_staged_on_its_page(v: GpuView, u: UploadView, k: int)
    ensures
        ({
            let after = with_upload(v, u);
            &&& u.page < after.pages.len()
            &&& after.pages[u.page as int].format == u.format
            &&& 0 <= k < v.pages.len() && k != u.page ==> after.pages[k] == v.pages[k]
            &&& after.pages.len() == if u.page < v.pages.len() {
                v.pages.len() as int
            } else {
                u.page + 1
            }
            &&& u.data.len() == 0 ==> after.pending == v.pending
            &&& u.data.len() > 0 ==> {
                let s = after.pending.last();
                &&& after.pending.len() == v.pending.len() + 1
                &&& after.pending.drop_last() == v.pending
                &&& s.page == u.page && s.rect == u.rect && s.data == u.data
                &&& u.format is Alpha8 ==> s.bytes_per_row == u.rect.width
                &&& u.format is Bgra8 ==> s.bytes_per_row == 4 * u.rect.width
            }
            &&& after.page_size == v.page_size && after.generation == v.generation
        }),
{
    let after = with_upload(v, u);
    if u.data.len() > 0 {
        assert(after.pending.drop_last() =~= v.pending);
    }
}

/// The context starts without pages, of at least sixty-four pixels, for no
/// atlas.
pub proof fn law_the_context_starts_empty(size: u16, c: GpuContext)
    requires
        call_ensures(GpuContext::new, (size,), c),
    ensures
        c@.pages.len() == 0,
        c@.pending.len() == 0,
        size >= 64 ==> c@.page_size == size,
        size < 64 ==> c@.page_size == 64,
        c@.generation == u32::MAX,
{
}

/// Errors say what went wrong.
pub proof fn law_errors_are_told(e: GpuError, text: String)
    requires
        call_ensures(GpuError::message, (&e,), text),
    ensures
        e is NoDevice ==> text@ == "no Metal device (Mica requires Apple Silicon)"@,
        e is NoQueue ==> text@ == "could not create a Metal command queue"@,
        e is TextureFailed ==> text@ == "could not create a Metal texture"@,
        e is BufferFailed ==> text@ == "could not create a Metal buffer"@,
        e is SamplerFailed ==> text@ == "could not create a Metal sampler"@,
        e matches GpuError::LibraryNotFound(p) ==> text@ == "default.metallib not found at "@ + p@,
        e matches GpuError::LibraryFailed(m) ==> text@ == "could not load default.metallib: "@ + m@,
        e matches GpuError::MissingFunction(n) ==> text@ == "shader function `"@ + n@
            + "` is missing"@,
        e matches GpuError::PipelineFailed { name, message } ==> text@ == "pipeline `"@ + name@
            + "` failed to build: "@ + message@,
{
}

} // verus!
