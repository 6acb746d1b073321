//! Per-tick decision of an interactive viewer: whether to render, and at
//! which downsampled size.

use vstd::prelude::*;
use crate::progressive::{ProgressiveRenderer, halved};

verus! {

/// What a tick asks the caller to do.
#[derive(Clone, Copy, PartialEq, Eq, Debug, Structural)]
pub enum FrameAction {
    /// Nothing to render this tick.
    Skip,
    /// Render a `width` by `height` image at divisor `resolution`.
    Render { resolution: u32, width: u32, height: u32 },
    /// The downsampled image would be empty; nothing is rendered.
    InvalidSize,
}

/// Decides a tick for a viewer whose display is `img_width` by
/// `img_height` pixels. When `force` is set (the first frame) or the
/// controller allows a render at `now_ms`, the controller steps to its next
/// divisor and the display size is divided by it; otherwise nothing changes.
pub fn plan_frame(
    renderer: &mut ProgressiveRenderer,
    force: bool,
    img_width: u32,
    img_height: u32,
    now_ms: u64,
) -> (r: FrameAction)
    requires
        old(renderer).wf(),
    ensures
        final(renderer).wf(),
        !(force || old(renderer).renders_at(now_ms)) ==> r == FrameAction::Skip && *final(renderer)
            == *old(renderer),
        force || old(renderer).renders_at(now_ms) ==> {
            let res = halved(old(renderer).current());
            let w = (img_width / res) as u32;
            let h = (img_height / res) as u32;
            &&& final(renderer).current() == res
            &&& final(renderer).target() == old(renderer).target()
            &&& final(renderer).rendering() == old(renderer).rendering()
            &&& final(renderer).last_render() == now_ms
            &&& final(renderer).min_interval() == old(renderer).min_interval()
            &&& r == if w == 0 || h == 0 {
                FrameAction::InvalidSize
            } else {
                FrameAction::Render { resolution: res, width: w, height: h }
            }
        },
{
    if !(force || renderer.should_render(now_ms)) {
        return FrameAction::Skip;
    }
    let resolution = renderer.next_resolution(now_ms);
    let width = img_width / resolution;
    let height = img_height / resolution;
    if width == 0 || height == 0 {
        FrameAction::InvalidSize
    } else {
        FrameAction::Render { resolution, width, height }
    }
}

} // verus!
