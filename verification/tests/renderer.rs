use mica::atlas::{Atlas, GlyphKey, Upload};
use mica::context::{pick_library, GpuContext, GpuError, PageTexture, Pipeline};
use mica::fontset::{CellMetrics, Style};
use mica::frame::{Decision, FrameScheduler, Reason};
use mica::grid::{BgInstance, InstanceBuffers, Rgba};
use mica::packer::Rect;
use mica::raster::{Bitmap, PixelFormat};
use mica::renderer::{passes, pixel_at, should_draw, Renderer};

fn atlas() -> Atlas {
    Atlas::new(CellMetrics::measured(8, 16, 12, 8))
}

fn draw_letter(atlas: &mut Atlas) {
    let data = vec![255u8; 6 * 9];
    atlas.glyph(GlyphKey::scalar('A', Style::regular()), || {
        Some(Bitmap { width: 6, height: 9, format: PixelFormat::Alpha8, data, left: 1, top: 3 })
    });
}

fn upload(side: u16, format: PixelFormat, data: Vec<u8>) -> Upload {
    Upload { page: 0, rect: Rect { x: 0, y: 0, width: side, height: side }, format, data }
}

#[test]
fn no_atlas_pages_exist_until_a_glyph_is_uploaded() {
    // A session that never draws an emoji must never allocate a colour page.
    let ctx = GpuContext::new(512);
    assert!(ctx.pages().is_empty());
    assert_eq!(ctx.page_size(), 512);
    assert_eq!(GpuContext::new(3).page_size(), 64);
}

#[test]
fn uploading_a_glyph_creates_its_page_with_the_right_format() {
    let mut ctx = GpuContext::new(512);
    ctx.stage_upload(upload(4, PixelFormat::Alpha8, vec![255u8; 16])).unwrap();

    assert_eq!(ctx.pages().len(), 1);
    assert_eq!(ctx.pages()[0].format, PixelFormat::Alpha8);
    assert!(ctx.has_pending_uploads());
    let staged = ctx.flush_uploads();
    assert_eq!(staged.len(), 1);
    assert_eq!((staged[0].page, staged[0].bytes_per_row), (0, 4));
    assert_eq!(staged[0].data, vec![255u8; 16]);
    assert!(!ctx.has_pending_uploads());
}

#[test]
fn a_colour_glyph_gets_a_bgra_page() {
    let mut ctx = GpuContext::new(512);
    ctx.stage_upload(upload(2, PixelFormat::Bgra8, vec![255u8; 16])).unwrap();
    assert_eq!(ctx.pages(), &[PageTexture { format: PixelFormat::Bgra8 }]);
    assert_eq!(ctx.flush_uploads()[0].bytes_per_row, 8);
}

#[test]
fn a_glyph_on_a_later_page_makes_the_pages_before_it() {
    let mut ctx = GpuContext::new(512);
    let mut far = upload(2, PixelFormat::Alpha8, vec![1u8; 4]);
    far.page = 2;
    ctx.stage_upload(far).unwrap();
    assert_eq!(ctx.pages().len(), 3);
    // A page that changes its format is made anew.
    ctx.stage_upload(upload(2, PixelFormat::Bgra8, vec![1u8; 16])).unwrap();
    assert_eq!(ctx.pages()[0].format, PixelFormat::Bgra8);
    assert_eq!(ctx.pages()[1].format, PixelFormat::Alpha8);
}

#[test]
fn a_glyph_without_data_cannot_be_staged() {
    let mut ctx = GpuContext::new(512);
    assert_eq!(
        ctx.stage_upload(upload(2, PixelFormat::Alpha8, vec![])),
        Err(GpuError::TextureFailed)
    );
    assert!(!ctx.has_pending_uploads());
}

#[test]
fn resetting_the_atlas_drops_every_page() {
    let mut ctx = GpuContext::new(512);
    ctx.stage_upload(upload(2, PixelFormat::Alpha8, vec![255u8; 4])).unwrap();
    assert_eq!(ctx.pages().len(), 1);

    ctx.reset_atlas(7);
    assert!(ctx.pages().is_empty());
    assert_eq!(ctx.atlas_generation(), 7);
}

#[test]
fn every_error_says_what_failed() {
    for (error, text) in [
        (GpuError::NoDevice, "no Metal device (Mica requires Apple Silicon)"),
        (GpuError::NoQueue, "could not create a Metal command queue"),
        (GpuError::LibraryNotFound("/x".into()), "default.metallib not found at /x"),
        (GpuError::LibraryFailed("bad".into()), "could not load default.metallib: bad"),
        (GpuError::MissingFunction("cell"), "shader function `cell` is missing"),
        (
            GpuError::PipelineFailed { name: "quad", message: "no".into() },
            "pipeline `quad` failed to build: no",
        ),
        (GpuError::TextureFailed, "could not create a Metal texture"),
        (GpuError::BufferFailed, "could not create a Metal buffer"),
        (GpuError::SamplerFailed, "could not create a Metal sampler"),
    ] {
        assert_eq!(error.message(), text);
    }
}

#[test]
fn the_first_library_that_exists_is_loaded() {
    let place = |p: &str, there: bool| (p.to_owned(), there);
    assert_eq!(pick_library(&vec![place("/a", false), place("/b", true)]), Ok(1));
    assert_eq!(
        pick_library(&vec![place("/a", false), place("/b", false)]),
        Err(GpuError::LibraryNotFound("/b".into()))
    );
    assert_eq!(pick_library(&vec![]), Err(GpuError::LibraryNotFound(String::new())));
}

#[test]
fn every_pipeline_has_a_name_of_its_own() {
    let all = Pipeline::all();
    let names: std::collections::HashSet<&str> = all.iter().map(|p| p.name()).collect();
    assert_eq!(names.len(), 9);
    assert!(all.iter().all(|p| p.blends() != (*p == Pipeline::Substrate)));
    let sampling: Vec<&str> = all.iter().filter(|p| p.samples_atlas()).map(|p| p.name()).collect();
    assert_eq!(sampling, vec!["cell", "ui_text"]);
}

#[test]
fn an_idle_renderer_never_submits_a_command_buffer() {
    // Ten seconds of a 120 Hz display asking whether to draw.
    let mut renderer = Renderer::new(512);
    for _ in 0..1200 {
        assert!(!should_draw(renderer.scheduler()));
    }
    assert_eq!(renderer.stats().submitted, 0);
}

#[test]
fn a_new_glyph_wakes_the_renderer_and_uploading_it_does_not_repeat() {
    let mut atlas = atlas();
    let mut renderer = Renderer::new(512);
    assert!(!should_draw(renderer.scheduler()));

    draw_letter(&mut atlas);
    renderer.sync_atlas(&mut atlas).unwrap();
    assert!(should_draw(renderer.scheduler()), "a new glyph must schedule a frame");

    renderer.scheduler().begin_frame();
    renderer.scheduler().end_frame();
    renderer.sync_atlas(&mut atlas).unwrap();
    assert!(!should_draw(renderer.scheduler()), "an unchanged atlas woke the renderer");
}

#[test]
fn a_rebuilt_atlas_drops_the_textures_it_invalidated() {
    let mut atlas = atlas();
    let mut renderer = Renderer::new(512);
    draw_letter(&mut atlas);
    renderer.sync_atlas(&mut atlas).unwrap();
    assert_eq!(renderer.context().pages().len(), 1);
    assert_eq!(renderer.context_mut().flush_uploads().len(), 1);

    atlas.rebuild(CellMetrics::measured(12, 24, 18, 13));
    renderer.sync_atlas(&mut atlas).unwrap();
    assert!(renderer.context().pages().is_empty(), "stale textures survived a font change");
}

#[test]
fn an_empty_frame_still_paints_the_substrate() {
    // Skipping passes must never skip the one that owns every pixel.
    let frame = passes(&InstanceBuffers::new(), 0, 0);
    assert_eq!(frame.len(), 1);
    assert_eq!((frame[0].pipeline, frame[0].instances), (Pipeline::Substrate, 1));
}

#[test]
fn the_caret_and_its_wake_are_drawn_before_the_text() {
    let mut renderer = Renderer::new(512);
    let blue = Rgba { r: 0, g: 0, b: 255, a: 255 };
    renderer.buffers().backgrounds.push(BgInstance::new(2, 1, 1, blue));
    let frame = passes(renderer.buffers(), 3, 1);
    let order: Vec<(Pipeline, usize)> = frame.iter().map(|p| (p.pipeline, p.instances)).collect();
    assert_eq!(
        order,
        vec![
            (Pipeline::Substrate, 1),
            (Pipeline::CellBg, 1),
            (Pipeline::Decay, 3),
            (Pipeline::Shape, 1),
        ]
    );
}

#[test]
fn one_kind_of_page_stands_in_for_the_other() {
    let mut renderer = Renderer::new(512);
    assert_eq!(renderer.atlas_textures(), (None, None));
    renderer.context_mut().stage_upload(upload(2, PixelFormat::Bgra8, vec![1u8; 16])).unwrap();
    assert_eq!(renderer.atlas_textures(), (Some(0), Some(0)));
    let mut mask = upload(2, PixelFormat::Alpha8, vec![1u8; 4]);
    mask.page = 1;
    renderer.context_mut().stage_upload(mask).unwrap();
    assert_eq!(renderer.atlas_textures(), (Some(1), Some(0)));
}

#[test]
fn a_pixel_is_read_out_of_its_bytes() {
    let data: Vec<u8> = (0..32).collect();
    assert_eq!(pixel_at(&data, 4, 0, 0), (2, 1, 0, 3));
    assert_eq!(pixel_at(&data, 4, 3, 1), (30, 29, 28, 31));
}

#[test]
fn a_throttled_frame_is_not_drawn() {
    let mut s = FrameScheduler::new(1);
    s.request(Reason::Damage);
    assert!(should_draw(&mut s));
    s.begin_frame();
    s.request(Reason::Damage);
    assert!(!should_draw(&mut s));
    assert_eq!(s.poll(), Decision::Throttled);
}

#[test]
fn a_reset_leaves_staged_glyphs_without_their_page() {
    let mut ctx = GpuContext::new(512);
    assert!(ctx.can_flush());
    ctx.stage_upload(upload(2, PixelFormat::Alpha8, vec![1u8; 4])).unwrap();
    assert!(ctx.can_flush());
    ctx.reset_atlas(3);
    assert!(ctx.has_pending_uploads());
    assert!(!ctx.can_flush());
    ctx.stage_upload(upload(2, PixelFormat::Alpha8, vec![2u8; 4])).unwrap();
    assert!(ctx.can_flush(), "the page is there again");
    assert_eq!(ctx.flush_uploads().len(), 2);
}
