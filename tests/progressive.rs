use fractal_generator::progressive::{ProgressiveRenderer, INITIAL_RESOLUTION, MIN_RENDER_INTERVAL_MS};
use fractal_generator::viewer::{plan_frame, FrameAction};

#[test]
fn new_starts_coarse() {
    let r = ProgressiveRenderer::new(1, 0);
    assert_eq!(r.current_resolution(), INITIAL_RESOLUTION);
    assert_eq!(r.current_resolution(), 16);
    assert_eq!(r.target_resolution(), 1);
    assert!(!r.is_rendering());
}

#[test]
fn refinement_sequence_from_reset() {
    let mut r = ProgressiveRenderer::new(1, 0);
    r.next_resolution(5);
    r.next_resolution(6);
    r.reset();
    assert!(r.is_rendering());
    assert_eq!(r.current_resolution(), 16);
    let mut seen = vec![r.current_resolution()];
    for t in 0..7u64 {
        seen.push(r.next_resolution(100 * t));
    }
    assert_eq!(seen, vec![16, 8, 4, 2, 1, 1, 1, 1]);
}

#[test]
fn settled_always_renders() {
    let mut r = ProgressiveRenderer::new(1, 1000);
    for _ in 0..4 {
        r.next_resolution(1000);
    }
    assert_eq!(r.current_resolution(), 1);
    assert!(r.should_render(1000));
    assert!(r.should_render(1001));
    assert!(r.should_render(0));
}

#[test]
fn refining_is_throttled() {
    let r = ProgressiveRenderer::new(1, 1000);
    assert!(!r.should_render(1000));
    assert!(!r.should_render(1000 + MIN_RENDER_INTERVAL_MS));
    assert!(r.should_render(1000 + MIN_RENDER_INTERVAL_MS + 1));
    assert!(!r.should_render(10));
}

#[test]
fn coarser_target_settles_early() {
    let mut r = ProgressiveRenderer::new(4, 0);
    assert!(!r.should_render(0));
    r.next_resolution(0);
    assert!(!r.should_render(0));
    r.next_resolution(0);
    assert_eq!(r.current_resolution(), 4);
    assert!(r.should_render(0));
}

#[test]
fn first_frame_is_forced() {
    let mut r = ProgressiveRenderer::new(1, 0);
    let a = plan_frame(&mut r, true, 800, 600, 0);
    assert_eq!(a, FrameAction::Render { resolution: 8, width: 100, height: 75 });
    assert_eq!(r.current_resolution(), 8);
}

#[test]
fn throttled_frame_is_skipped() {
    let mut r = ProgressiveRenderer::new(1, 0);
    let a = plan_frame(&mut r, false, 800, 600, 20);
    assert_eq!(a, FrameAction::Skip);
    assert_eq!(r.current_resolution(), 16);
    let b = plan_frame(&mut r, false, 800, 600, 51);
    assert_eq!(b, FrameAction::Render { resolution: 8, width: 100, height: 75 });
}

#[test]
fn tiny_display_is_invalid() {
    let mut r = ProgressiveRenderer::new(1, 0);
    let a = plan_frame(&mut r, true, 7, 600, 0);
    assert_eq!(a, FrameAction::InvalidSize);
    assert_eq!(r.current_resolution(), 8);
}
